use vstd::prelude::*;
use crate::display::ImageSize;
use crate::error::{agrees, unsettled, DecodeError};
use crate::reader::{le16, lemma_steps, Read, Reader};

verus! {

/// How a display shows the two images of a stereo pair.
#[derive(Debug, Clone, Copy, PartialEq, Eq, Structural)]
pub enum StereoType {
    NoStereo,
    SequentialRightSync,
    SequentialLeftSync,
    InterleavedLinesRightEven,
    InterleavedLinesLeftEven,
    Interleaved4Way,
    SideBySide,
}

/// The direction of a sync pulse.
#[derive(Debug, Clone, Copy, PartialEq, Eq, Structural)]
pub enum SyncPolarity {
    Positive,
    Negative,
}

/// The line that carries a composite sync signal.
#[derive(Debug, Clone, Copy, PartialEq, Eq, Structural)]
pub enum SyncLine {
    RGB,
    Green,
    Digital(SyncPolarity),
}

/// How a timing signals the start of a line and of a frame.
#[derive(Debug, Clone, Copy, PartialEq, Eq, Structural)]
pub enum SyncType {
    /// One signal for both.
    Composite {
        /// Horizontal sync goes on during vertical sync.
        serrated: bool,
        line: SyncLine,
    },
    /// One signal for each.
    Seperate { horizontal: SyncPolarity, vertical: SyncPolarity },
}

impl SyncPolarity {
    pub open spec fn spec_of_flag(positive: bool) -> SyncPolarity {
        if positive {
            SyncPolarity::Positive
        } else {
            SyncPolarity::Negative
        }
    }

    pub fn of_flag(positive: bool) -> (p: SyncPolarity)
        ensures
            p == Self::spec_of_flag(positive),
    {
        if positive {
            SyncPolarity::Positive
        } else {
            SyncPolarity::Negative
        }
    }
}

impl StereoType {
    /// The stereo mode that bits 6, 5 and 0 of the flag byte select. With
    /// bits 6 and 5 both clear there is no stereo, whatever bit 0 says.
    pub open spec fn spec_from_byte(flags: u8) -> StereoType {
        let left = flags / 64 % 2 == 1;
        let right = flags / 32 % 2 == 1;
        let low = flags % 2 == 1;
        if !left && !right {
            StereoType::NoStereo
        } else if !left && right && !low {
            StereoType::SequentialRightSync
        } else if left && !right && !low {
            StereoType::SequentialLeftSync
        } else if !left && right && low {
            StereoType::InterleavedLinesRightEven
        } else if left && !right && low {
            StereoType::InterleavedLinesLeftEven
        } else if !low {
            StereoType::Interleaved4Way
        } else {
            StereoType::SideBySide
        }
    }

    pub fn from_byte(flags: u8) -> (stereo: StereoType)
        ensures
            stereo == Self::spec_from_byte(flags),
    {
        let left = flags / 64 % 2 == 1;
        let right = flags / 32 % 2 == 1;
        let low = flags % 2 == 1;
        match (left, right, low) {
            (false, false, _) => StereoType::NoStereo,
            (false, true, false) => StereoType::SequentialRightSync,
            (true, false, false) => StereoType::SequentialLeftSync,
            (false, true, true) => StereoType::InterleavedLinesRightEven,
            (true, false, true) => StereoType::InterleavedLinesLeftEven,
            (true, true, false) => StereoType::Interleaved4Way,
            (true, true, true) => StereoType::SideBySide,
        }
    }
}

impl SyncType {
    /// The sync signal that bits 4 to 1 of the flag byte describe. Bits 4
    /// and 3 select the kind; bits 2 and 1 mean what the kind makes of them.
    pub open spec fn spec_from_byte(flags: u8) -> SyncType {
        let kind = flags / 8 % 4;
        let bit2 = flags / 4 % 2 == 1;
        let bit1 = flags / 2 % 2 == 1;
        if kind <= 1 {
            SyncType::Composite {
                serrated: bit2,
                line: if bit1 {
                    SyncLine::RGB
                } else {
                    SyncLine::Green
                },
            }
        } else if kind == 2 {
            SyncType::Composite {
                serrated: bit2,
                line: SyncLine::Digital(SyncPolarity::spec_of_flag(bit1)),
            }
        } else {
            SyncType::Seperate {
                horizontal: SyncPolarity::spec_of_flag(bit1),
                vertical: SyncPolarity::spec_of_flag(bit2),
            }
        }
    }

    /// All that the flag byte of a timing says: whether the timing is
    /// interlaced (bit 7), its stereo mode, and its sync signal.
    pub open spec fn spec_flags(flags: u8) -> (bool, StereoType, SyncType) {
        (flags >= 128, StereoType::spec_from_byte(flags), Self::spec_from_byte(flags))
    }

    pub fn from_byte(flags: u8) -> (sync: SyncType)
        ensures
            sync == Self::spec_from_byte(flags),
    {
        let kind = flags / 8 % 4;
        let bit2 = flags / 4 % 2 == 1;
        let bit1 = flags / 2 % 2 == 1;
        if kind <= 1 {
            SyncType::Composite {
                serrated: bit2,
                line: if bit1 {
                    SyncLine::RGB
                } else {
                    SyncLine::Green
                },
            }
        } else if kind == 2 {
            SyncType::Composite { serrated: bit2, line: SyncLine::Digital(SyncPolarity::of_flag(bit1)) }
        } else {
            SyncType::Seperate {
                horizontal: SyncPolarity::of_flag(bit1),
                vertical: SyncPolarity::of_flag(bit2),
            }
        }
    }

    /// Reads the flag byte of a timing.
    pub fn parse<T: Read>(r: &mut Reader<T>) -> (res: Result<
        (bool, StereoType, SyncType),
        DecodeError,
    >)
        ensures
            final(r).follows(old(r)),
            match res {
                Ok(flags) => final(r).since(old(r)).len() == 1 && flags == Self::spec_flags(
                    final(r).since(old(r))[0],
                ),
                Err(e) => final(r).stopped(old(r), e, 1),
            },
    {
        let val = r.read_u8()?;
        Ok((val >= 128, StereoType::from_byte(val), SyncType::from_byte(val)))
    }
}

/// A timing with every interval spelled out. Each pair holds the horizontal
/// value, in pixels, and then the vertical one, in lines.
#[derive(Debug, Clone, Copy, PartialEq, Eq)]
pub struct DetailedTiming {
    /// In Hz.
    pub pixel_clock: u32,
    pub active: (u16, u16),
    pub front_porch: (u16, u16),
    pub sync_length: (u16, u16),
    /// What is left of the blanking interval after front porch and sync
    /// pulse.
    pub back_porch: (u16, u16),
    pub image_size: ImageSize,
    pub border: (u16, u16),
    pub interlaced: bool,
    pub stereo: StereoType,
    pub sync_type: SyncType,
}

impl DetailedTiming {
    /// The number whose low eight bits are `low` and whose bits above them
    /// are `high`.
    pub open spec fn spec_join(high: int, low: u8) -> u16 {
        (256 * high + low as int) as u16
    }

    /// Active pixels and lines: a low byte each, and the upper half of a
    /// shared byte.
    pub open spec fn active(b: Seq<u8>) -> (u16, u16) {
        (Self::spec_join(b[4] as int / 16, b[2]), Self::spec_join(b[7] as int / 16, b[5]))
    }

    /// Blanking pixels and lines: a low byte each, and the lower half of
    /// the same shared byte.
    pub open spec fn blanking(b: Seq<u8>) -> (u16, u16) {
        (Self::spec_join(b[4] as int % 16, b[3]), Self::spec_join(b[7] as int % 16, b[6]))
    }

    /// Front porch: horizontally a byte and two high bits, vertically four
    /// bits and two high bits.
    pub open spec fn front_porch(b: Seq<u8>) -> (u16, u16) {
        (
            Self::spec_join(b[11] as int / 64, b[8]),
            (b[10] as int / 16 + 16 * (b[11] as int / 4 % 4)) as u16,
        )
    }

    /// Sync pulse: packed as the front porch is, in the bits beside it.
    pub open spec fn sync_length(b: Seq<u8>) -> (u16, u16) {
        (
            Self::spec_join(b[11] as int / 16 % 4, b[9]),
            (b[10] as int % 16 + 16 * (b[11] as int % 4)) as u16,
        )
    }

    /// True where, on both axes, blanking is long enough to hold front
    /// porch and sync pulse.
    pub open spec fn porches_fit(b: Seq<u8>) -> bool {
        &&& Self::front_porch(b).0 + Self::sync_length(b).0 <= Self::blanking(b).0
        &&& Self::front_porch(b).1 + Self::sync_length(b).1 <= Self::blanking(b).1
    }

    /// The timing that the eighteen bytes of a slot encode, where they hold
    /// one and its porches fit.
    pub open spec fn of(b: Seq<u8>) -> DetailedTiming {
        let flags = SyncType::spec_flags(b[17]);
        DetailedTiming {
            pixel_clock: (le16(b) as int * 10000) as u32,
            active: Self::active(b),
            front_porch: Self::front_porch(b),
            sync_length: Self::sync_length(b),
            back_porch: (
                (Self::blanking(b).0 - Self::sync_length(b).0 - Self::front_porch(b).0) as u16,
                (Self::blanking(b).1 - Self::sync_length(b).1 - Self::front_porch(b).1) as u16,
            ),
            image_size: ImageSize {
                width: Self::spec_join(b[14] as int / 16, b[12]),
                height: Self::spec_join(b[14] as int % 16, b[13]),
            },
            border: (b[15] as u16, b[16] as u16),
            interlaced: flags.0,
            stereo: flags.1,
            sync_type: flags.2,
        }
    }

    /// What the bytes of a slot, read in order, come to. A zero pixel clock
    /// says after three bytes that the slot holds no timing. Otherwise the
    /// porches are judged as soon as the twelve bytes that hold them are
    /// there, and the timing is complete with the eighteenth.
    #[verifier::opaque]
    pub open spec fn decode(s: Seq<u8>) -> Result<Option<DetailedTiming>, DecodeError> {
        if s.len() < 3 {
            Err(DecodeError::UnexpectedEndOfData)
        } else if le16(s) == 0 {
            Ok(None)
        } else if s.len() < 12 {
            Err(DecodeError::UnexpectedEndOfData)
        } else if !Self::porches_fit(s) {
            Err(DecodeError::MalformedTimingGeometry)
        } else if s.len() < 18 {
            Err(DecodeError::UnexpectedEndOfData)
        } else {
            Ok(Some(Self::of(s)))
        }
    }

    /// A slot holds no timing exactly where its first three bytes are
    /// there and the first two are zero.
    pub proof fn lemma_no_timing(s: Seq<u8>)
        ensures
            Self::decode(s) == Ok::<Option<DetailedTiming>, DecodeError>(None) <==> s.len() >= 3
                && s[0] == 0 && s[1] == 0,
            s.len() < 3 ==> unsettled(Self::decode(s)),
    {
        reveal(DetailedTiming::decode);
    }

    /// Puts the bits above the low byte in their place.
    pub fn join(high: u8, low: u8) -> (v: u16)
        ensures
            v as int == 256 * high as int + low as int,
    {
        256 * (high as u16) + low as u16
    }

    /// The back porch on one axis: what blanking leaves after sync pulse and
    /// front porch, and an error where it leaves less than nothing.
    pub fn back_porch(blanking: u16, sync_length: u16, front_porch: u16) -> (res: Result<
        u16,
        DecodeError,
    >)
        ensures
            res == (if front_porch + sync_length <= blanking {
                Ok::<u16, DecodeError>((blanking - sync_length - front_porch) as u16)
            } else {
                Err::<u16, DecodeError>(DecodeError::MalformedTimingGeometry)
            }),
    {
        if front_porch as u32 + sync_length as u32 <= blanking as u32 {
            Ok(blanking - sync_length - front_porch)
        } else {
            Err(DecodeError::MalformedTimingGeometry)
        }
    }

    /// Reads one slot as a timing. `None` says that the slot holds no
    /// timing; three of its bytes are then read, and the rest is the
    /// caller's to read.
    pub fn parse<T: Read>(r: &mut Reader<T>) -> (res: Result<Option<DetailedTiming>, DecodeError>)
        ensures
            final(r).follows(old(r)),
            final(r).since(old(r)).len() > 0 ==> unsettled(
                Self::decode(final(r).since(old(r)).drop_last()),
            ),
            final(r).since(old(r)).len() <= 18,
            res matches Err(e) ==> e.from_source() ==> final(r).stopped(old(r), e, 18),
            res matches Err(e) ==> e != DecodeError::HeaderInvalid,
            agrees(res, Self::decode(final(r).since(old(r)))),
            res matches Ok(None) ==> final(r).since(old(r)).len() == 3,
            res matches Ok(Some(_)) ==> final(r).since(old(r)).len() == 18,
    {
        proof {
            reveal(DetailedTiming::decode);
        }
        let ghost t0 = r.mark();
        let head = r.take(3)?;
        let pixel_clock = (head[0] as u32 + 256 * (head[1] as u32)) * 10000;
        if pixel_clock == 0 {
            return Ok(None);
        }
        let ghost t1 = r.mark();
        let geometry = r.take(9);
        proof {
            lemma_steps(t0, t1, r.mark());
        }
        let g = geometry?;
        let active = (Self::join(g[1] / 16, head[2]), Self::join(g[4] / 16, g[2]));
        let blanking = (Self::join(g[1] % 16, g[0]), Self::join(g[4] % 16, g[3]));
        let front_porch = (Self::join(g[8] / 64, g[5]), (g[7] / 16 + 16 * (g[8] / 4 % 4)) as u16);
        let sync_length = (
            Self::join(g[8] / 16 % 4, g[6]),
            (g[7] % 16 + 16 * (g[8] % 4)) as u16,
        );
        let back_porch = (
            Self::back_porch(blanking.0, sync_length.0, front_porch.0)?,
            Self::back_porch(blanking.1, sync_length.1, front_porch.1)?,
        );
        let ghost t2 = r.mark();
        let rest = r.take(5);
        proof {
            lemma_steps(t0, t2, r.mark());
        }
        let p = rest?;
        let image_size = ImageSize {
            width: Self::join(p[2] / 16, p[0]),
            height: Self::join(p[2] % 16, p[1]),
        };
        let border = (p[3] as u16, p[4] as u16);
        let ghost t3 = r.mark();
        let flags = SyncType::parse(r);
        proof {
            lemma_steps(t0, t3, r.mark());
        }
        let (interlaced, stereo, sync_type) = flags?;
        Ok(
            Some(
                DetailedTiming {
                    pixel_clock,
                    active,
                    front_porch,
                    sync_length,
                    back_porch,
                    image_size,
                    border,
                    interlaced,
                    stereo,
                    sync_type,
                },
            ),
        )
    }
}

} // verus!
