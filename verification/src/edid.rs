use vstd::prelude::*;
use vstd::slice::slice_to_vec;
use crate::color::{ColorCharacteristics, ColorCharacteristicsView, WhitePoint};
use crate::descriptor::MonitorDescriptorView;
use crate::slot::{Gathered, MonitorDescriptors};
use crate::detailed::DetailedTiming;
use crate::display::DisplayParameters;
use crate::error::{ensure, fails_as, unsettled, DecodeError};
use crate::laws::{lemma_decided_for_good, lemma_record_holds_together};
use crate::product::{ProductInformation, Version};
use crate::reader::{
    delivered, le32, lemma_behind, lemma_in_source_order, lemma_steps, spec_received, window, Answer,
    Mark, Read, Reader, CHUNK,
};
use crate::timings::{StandardTiming, Timings, TimingsView};

verus! {

/// The first four bytes of every block, as one word.
pub const HEADER_LOW: u32 = 0xffff_ff00;

/// The second four bytes of every block, as one word.
pub const HEADER_HIGH: u32 = 0x00ff_ffff;

/// All that a block says of a display.
#[derive(Debug, Clone, PartialEq, Eq)]
pub struct EDID {
    pub product: ProductInformation,
    pub version: Version,
    pub display: DisplayParameters,
    pub color: ColorCharacteristics,
    pub timings: Timings,
    pub descriptors: MonitorDescriptors,
    /// The number of extension blocks that follow this block.
    pub extensions: u8,
}

/// What an `EDID` holds, with sequences for its lists.
pub struct EDIDView {
    pub product: ProductInformation,
    pub version: Version,
    pub display: DisplayParameters,
    pub color: ColorCharacteristicsView,
    pub timings: TimingsView,
    pub descriptors: Seq<MonitorDescriptorView>,
    pub extensions: u8,
}

impl EDIDView {
    /// True of a record that holds together: every unit of the maker's
    /// identifier is one of 32, every chromaticity is below one, no
    /// established timing is named twice, the preferred timing is there,
    /// and the four slots gave at most one timing or descriptor each.
    pub open spec fn wf(self) -> bool {
        &&& self.product.manufacturer_id.wf()
        &&& self.color.wf()
        &&& self.timings.established_timings.no_duplicates()
        &&& self.timings.detailed_timings.len() >= 1
        &&& self.timings.detailed_timings.len() + self.descriptors.len() <= 4
    }
}

impl View for EDID {
    type V = EDIDView;

    open spec fn view(&self) -> EDIDView {
        EDIDView {
            product: self.product,
            version: self.version,
            display: self.display,
            color: self.color@,
            timings: self.timings@,
            descriptors: self.descriptors@,
            extensions: self.extensions,
        }
    }
}

/// The part of a record that lies at fixed places between the header and
/// the slots.
#[derive(Debug, Clone, PartialEq, Eq)]
pub struct Fields {
    pub product: ProductInformation,
    pub version: Version,
    pub display: DisplayParameters,
    pub color: ColorCharacteristics,
    pub timings: Timings,
}

/// What a `Fields` holds, with sequences for its lists.
pub struct FieldsView {
    pub product: ProductInformation,
    pub version: Version,
    pub display: DisplayParameters,
    pub color: ColorCharacteristicsView,
    pub timings: TimingsView,
}

impl View for Fields {
    type V = FieldsView;

    open spec fn view(&self) -> FieldsView {
        FieldsView {
            product: self.product,
            version: self.version,
            display: self.display,
            color: self.color@,
            timings: self.timings@,
        }
    }
}

impl Fields {
    /// The fields that 46 bytes encode: ten bytes of product information,
    /// two of version, five of display parameters, ten of colours and
    /// nineteen of timing tables.
    #[verifier::opaque]
    pub open spec fn of(b: Seq<u8>) -> FieldsView {
        FieldsView {
            product: ProductInformation::of(b.subrange(0, 10)),
            version: Version::of(b.subrange(10, 12)),
            display: DisplayParameters::of(b.subrange(12, 17)),
            color: ColorCharacteristics::of(b.subrange(17, 27)),
            timings: Timings::of(b.subrange(27, 46)),
        }
    }

    /// Reads the fields. No byte of them can be wrong: only the source can
    /// make this fail.
    pub fn parse<T: Read>(r: &mut Reader<T>) -> (res: Result<Fields, DecodeError>)
        ensures
            final(r).follows(old(r)),
            match res {
                Ok(fields) => final(r).since(old(r)).len() == 46 && fields@ == Self::of(
                    final(r).since(old(r)),
                ),
                Err(e) => final(r).stopped(old(r), e, 46),
            },
    {
        proof {
            reveal(Fields::of);
        }
        let ghost t0 = r.mark();
        let product = ProductInformation::parse(r)?;
        let ghost t1 = r.mark();
        let ghost s1 = t1.since(t0);

        let found = Version::parse(r);
        proof {
            lemma_steps(t0, t1, r.mark());
        }
        let version = found?;
        let ghost t2 = r.mark();
        let ghost s2 = t2.since(t0);
        proof {
            assert(s2.subrange(0, 10) =~= s1);
            assert(s2.subrange(10, 12) =~= t2.since(t1));
        }

        let found = DisplayParameters::parse(r);
        proof {
            lemma_steps(t0, t2, r.mark());
        }
        let display = found?;
        let ghost t3 = r.mark();
        let ghost s3 = t3.since(t0);
        proof {
            assert(s3.subrange(0, 10) =~= s2.subrange(0, 10));
            assert(s3.subrange(10, 12) =~= s2.subrange(10, 12));
            assert(s3.subrange(12, 17) =~= t3.since(t2));
        }

        let found = ColorCharacteristics::parse(r);
        proof {
            lemma_steps(t0, t3, r.mark());
        }
        let color = found?;
        let ghost t4 = r.mark();
        let ghost s4 = t4.since(t0);
        proof {
            assert(s4.subrange(0, 10) =~= s3.subrange(0, 10));
            assert(s4.subrange(10, 12) =~= s3.subrange(10, 12));
            assert(s4.subrange(12, 17) =~= s3.subrange(12, 17));
            assert(s4.subrange(17, 27) =~= t4.since(t3));
        }

        let found = Timings::parse(r);
        proof {
            lemma_steps(t0, t4, r.mark());
        }
        let timings = found?;
        proof {
            let s = r.mark().since(t0);
            assert(s.subrange(0, 10) =~= s4.subrange(0, 10));
            assert(s.subrange(10, 12) =~= s4.subrange(10, 12));
            assert(s.subrange(12, 17) =~= s4.subrange(12, 17));
            assert(s.subrange(17, 27) =~= s4.subrange(17, 27));
            assert(s.subrange(27, 46) =~= r.mark().since(t4));
        }
        Ok(Fields { product, version, display, color, timings })
    }
}

impl EDID {
    /// The eight bytes that open every block.
    pub open spec fn magic() -> Seq<u8> {
        seq![0x00u8, 0xffu8, 0xffu8, 0xffu8, 0xffu8, 0xffu8, 0xffu8, 0x00u8]
    }

    /// What the header, read in order, comes to: each half is judged as
    /// soon as its four bytes are there.
    pub open spec fn decode_header(h: Seq<u8>) -> Result<(), DecodeError> {
        if h.len() < 4 {
            Err(DecodeError::UnexpectedEndOfData)
        } else if le32(h) != HEADER_LOW {
            Err(DecodeError::HeaderInvalid)
        } else if h.len() < 8 {
            Err(DecodeError::UnexpectedEndOfData)
        } else if le32(h.skip(4)) != HEADER_HIGH {
            Err(DecodeError::HeaderInvalid)
        } else {
            Ok(())
        }
    }

    /// The record that the fields, the yield of the four slots and the
    /// count of extensions make. The white points of the slots are the
    /// white points of the colours, the standard timings of the slots
    /// follow those of the timing tables, and the detailed timings are
    /// those of the slots.
    pub open spec fn spec_assemble(fields: FieldsView, slots: Gathered, extensions: u8) -> EDIDView {
        EDIDView {
            product: fields.product,
            version: fields.version,
            display: fields.display,
            color: ColorCharacteristicsView { white_points: slots.white_points, ..fields.color },
            timings: TimingsView {
                established_timings: fields.timings.established_timings,
                standard_timings: fields.timings.standard_timings + slots.standard_timings,
                detailed_timings: slots.detailed_timings,
            },
            descriptors: slots.descriptors,
            extensions,
        }
    }

    /// What the bytes of a block, read in order, come to. The first error
    /// met decides. The header fills the first eight bytes; the fields up
    /// to byte 54 cannot be wrong; four slots of eighteen bytes follow; and
    /// the record is complete with the count of extensions, the 127th byte.
    /// Bytes after it are not looked at.
    pub open spec fn decode(s: Seq<u8>) -> Result<EDIDView, DecodeError> {
        match Self::decode_header(window(s, 0, 8)) {
            Err(e) => Err(e),
            Ok(()) => if s.len() < 54 {
                Err(DecodeError::UnexpectedEndOfData)
            } else {
                match MonitorDescriptors::decode(window(s, 54, 72)) {
                    Err(e) => Err(e),
                    Ok(slots) => if s.len() < 127 {
                        Err(DecodeError::UnexpectedEndOfData)
                    } else {
                        Ok(Self::spec_assemble(Fields::of(s.subrange(8, 54)), slots, s[126]))
                    },
                }
            },
        }
    }

    /// Reads the header and holds it to what every block opens with.
    pub fn parse_header<T: Read>(r: &mut Reader<T>) -> (res: Result<(), DecodeError>)
        ensures
            final(r).follows(old(r)),
            final(r).since(old(r)).len() > 0 ==> unsettled(
                Self::decode_header(final(r).since(old(r)).drop_last()),
            ),
            final(r).since(old(r)).len() <= 8,
            res matches Err(e) ==> e.from_source() ==> final(r).stopped(old(r), e, 8),
            match res {
                Ok(()) => final(r).since(old(r)).len() == 8 && Self::decode_header(
                    final(r).since(old(r)),
                ) == Ok::<(), DecodeError>(()),
                Err(e) => fails_as(e, Self::decode_header(final(r).since(old(r)))),
            },
    {
        let ghost t0 = r.mark();
        let low = r.read_u32()?;
        ensure(low == HEADER_LOW, DecodeError::HeaderInvalid)?;
        let ghost t1 = r.mark();
        let second = r.read_u32();
        proof {
            lemma_steps(t0, t1, r.mark());
            lemma_behind(t0, t1, r.mark());
        }
        let high = second?;
        ensure(high == HEADER_HIGH, DecodeError::HeaderInvalid)
    }

    /// Makes the record of its parts.
    pub fn assemble(
        fields: Fields,
        slots: (MonitorDescriptors, Vec<DetailedTiming>, Vec<StandardTiming>, Vec<WhitePoint>),
        extensions: u8,
    ) -> (edid: EDID)
        ensures
            edid@ == Self::spec_assemble(
                fields@,
                Gathered {
                    descriptors: slots.0@,
                    detailed_timings: slots.1@,
                    standard_timings: slots.2@,
                    white_points: slots.3@,
                },
                extensions,
            ),
    {
        let (descriptors, detailed_timings, more_standard, white_points) = slots;
        let mut more_standard = more_standard;
        let Fields { product, version, display, color, timings } = fields;
        let mut standard_timings = timings.standard_timings;
        standard_timings.append(&mut more_standard);
        EDID {
            product,
            version,
            display,
            color: ColorCharacteristics {
                red: color.red,
                green: color.green,
                blue: color.blue,
                white: color.white,
                white_points,
            },
            timings: Timings {
                established_timings: timings.established_timings,
                standard_timings,
                detailed_timings,
            },
            descriptors,
            extensions,
        }
    }

    /// Reads one block from a reader.
    ///
    /// The result is what the bytes taken from the reader decode to, with
    /// one exception: where the source fails, that is the error, and the
    /// bytes taken until then did not suffice to decide anything. No byte
    /// is taken after the one that decides: without the last byte taken
    /// nothing is decided, a record takes 127 bytes, and a wrong header at
    /// most eight. The source is asked only once the buffer of the reader
    /// is used up: a reader whose buffer holds a whole block, or enough of
    /// one to decide, gives what its buffer decodes to.
    pub fn parse<T: Read>(r: &mut Reader<T>) -> (res: Result<EDID, DecodeError>)
        ensures
            final(r).follows(old(r)),
            final(r).since(old(r)).len() > 0 ==> unsettled(
                Self::decode(final(r).since(old(r)).drop_last()),
            ),
            final(r).since(old(r)).len() <= 127,
            res matches Err(e) ==> e.from_source() ==> final(r).stopped(old(r), e, 127),
            match res {
                Ok(edid) => final(r).since(old(r)).len() == 127 && Self::decode(final(r).since(old(r)))
                    == Ok::<EDIDView, DecodeError>(edid@),
                Err(e) => fails_as(e, Self::decode(final(r).since(old(r)))),
            },
            res == Err::<EDID, DecodeError>(DecodeError::HeaderInvalid) ==> final(r).since(
                old(r),
            ).len() <= 8,
            old(r).buffered().len() >= 127 || !unsettled(Self::decode(old(r).buffered()))
                ==> match res {
                Ok(edid) => Self::decode(old(r).buffered()) == Ok::<EDIDView, DecodeError>(edid@),
                Err(e) => Self::decode(old(r).buffered()) == Err::<EDIDView, DecodeError>(e),
            },
            res matches Ok(edid) ==> edid@.wf(),
    {
        let res = Self::parse_stream(r);
        proof {
            let buffered = old(r).buffered();
            let chunk = r.mark().since(old(r).mark());
            if res is Ok {
                lemma_record_holds_together(chunk);
            }
            if buffered.len() >= 127 || !unsettled(Self::decode(buffered)) {
                reveal(Mark::follows);
                if chunk.len() > buffered.len() {
                    assert(buffered.is_prefix_of(chunk.drop_last())) by {
                        assert(buffered =~= chunk.drop_last().subrange(0, buffered.len() as int));
                    }
                    lemma_decided_for_good(buffered, chunk.drop_last());
                } else if res matches Err(e) && e.from_source() {
                    assert(chunk =~= buffered);
                } else {
                    assert(chunk.is_prefix_of(buffered));
                    lemma_decided_for_good(chunk, buffered);
                }
            }
        }
        res
    }

    /// Reads the four parts of a block one after the other.
    fn parse_stream<T: Read>(r: &mut Reader<T>) -> (res: Result<EDID, DecodeError>)
        ensures
            final(r).follows(old(r)),
            final(r).since(old(r)).len() > 0 ==> unsettled(
                Self::decode(final(r).since(old(r)).drop_last()),
            ),
            final(r).since(old(r)).len() <= 127,
            res matches Err(e) ==> e.from_source() ==> final(r).stopped(old(r), e, 127),
            match res {
                Ok(edid) => final(r).since(old(r)).len() == 127 && Self::decode(final(r).since(old(r)))
                    == Ok::<EDIDView, DecodeError>(edid@),
                Err(e) => fails_as(e, Self::decode(final(r).since(old(r)))),
            },
            res == Err::<EDID, DecodeError>(DecodeError::HeaderInvalid) ==> final(r).since(
                old(r),
            ).len() <= 8,
    {
        let ghost t0 = r.mark();
        let opened = Self::parse_header(r);
        proof {
            let s = r.mark().since(t0);
            assert(window(s, 0, 8) =~= s);
            if s.len() > 0 {
                assert(window(s.drop_last(), 0, 8) =~= s.drop_last());
            }
        }
        opened?;
        let ghost t1 = r.mark();
        let ghost s1 = t1.since(t0);

        let found = Fields::parse(r);
        proof {
            lemma_steps(t0, t1, r.mark());
            let s = r.mark().since(t0);
            let p = s.drop_last();
            assert(window(s, 0, 8) =~= s1);
            if r.mark().since(t1).len() > 0 {
                assert(window(p, 0, 8) =~= s1);
            } else {
                assert(window(p, 0, 8) =~= s1.drop_last());
            }
        }
        let fields = found?;
        let ghost t2 = r.mark();
        let ghost s2 = t2.since(t0);
        proof {
            assert(s2.subrange(8, 54) =~= t2.since(t1));
        }

        let found = MonitorDescriptors::parse(r);
        proof {
            lemma_steps(t0, t2, r.mark());
            let s = r.mark().since(t0);
            let p = s.drop_last();
            assert(window(s, 0, 8) =~= s1);
            assert(window(s, 54, 72) =~= r.mark().since(t2));
            assert(window(p, 0, 8) =~= s1);
            if r.mark().since(t2).len() > 0 {
                assert(window(p, 54, 72) =~= r.mark().since(t2).drop_last());
            }
        }
        let slots = found?;
        let ghost t3 = r.mark();
        let ghost s3 = t3.since(t0);
        proof {
            assert(s3.subrange(8, 54) =~= s2.subrange(8, 54));
        }

        let found = r.read_u8();
        proof {
            lemma_steps(t0, t3, r.mark());
            let s = r.mark().since(t0);
            let p = s.drop_last();
            assert(window(s, 0, 8) =~= s1);
            assert(window(s, 54, 72) =~= window(s3, 54, 72));
            assert(window(p, 0, 8) =~= s1);
            if r.mark().since(t3).len() > 0 {
                assert(window(p, 54, 72) =~= window(s3, 54, 72));
            } else {
                assert(window(p, 54, 72) =~= t3.since(t2).drop_last());
            }
            if s.len() >= 54 {
                assert(s.subrange(8, 54) =~= s3.subrange(8, 54));
            }
        }
        let extensions = found?;
        Ok(Self::assemble(fields, slots, extensions))
    }
}

/// A source that never has a byte.
#[derive(Debug, Clone, Copy, PartialEq, Eq)]
pub struct NoSource;

impl Read for NoSource {
    fn read(&mut self, buf: &mut [u8]) -> (count: Option<usize>)
        ensures
            count == Some(0usize),
            final(buf)@ == old(buf)@,
    {
        Some(0)
    }
}

/// Decodes one block from bytes in memory.
///
/// The result is what the bytes decode to, for every sequence of bytes:
/// the record, or the first error met in reading them in order.
pub fn decode(bytes: &[u8]) -> (res: Result<EDID, DecodeError>)
    ensures
        match res {
            Ok(edid) => EDID::decode(bytes@) == Ok::<EDIDView, DecodeError>(edid@),
            Err(e) => EDID::decode(bytes@) == Err::<EDIDView, DecodeError>(e),
        },
        res != Err::<EDID, DecodeError>(DecodeError::SourceFailure),
        res matches Ok(edid) ==> edid@.wf(),
{
    let mut reader: Reader<NoSource> = Reader::of_bytes(slice_to_vec(bytes));
    let ghost start = reader.mark();
    let res = EDID::parse(&mut reader);
    proof {
        reveal(Mark::follows);
        let chunk = reader.mark().since(start);
        assert(chunk.is_prefix_of(bytes@));
        if res matches Err(e) && e.from_source() {
            assert(chunk =~= bytes@);
        } else {
            lemma_decided_for_good(chunk, bytes@);
        }
    }
    res
}

/// What the result of reading looks like to contracts: a record by its
/// view.
pub open spec fn viewed(res: Result<EDID, DecodeError>) -> Result<EDIDView, DecodeError> {
    match res {
        Ok(edid) => Ok(edid@),
        Err(e) => Err(e),
    }
}

/// True where `res` is what reading a block comes to for a reader that
/// began with nothing, asked its source as `answers` say and handed out
/// `bytes`. Every request was for one chunk. The bytes are the first of
/// those that the answers brought, up to the one that decides, and `res` is
/// what they decode to. Where they decide nothing, every byte brought was
/// handed out, and `res` is what the last answer comes to: the failure of
/// the source, or the want of data where it had no more bytes.
pub open spec fn read_from(answers: Seq<Answer>, bytes: Seq<u8>, res: Result<EDIDView, DecodeError>) -> bool {
    &&& bytes.is_prefix_of(delivered(answers))
    &&& forall|i: int| 0 <= i < answers.len() ==> (#[trigger] answers[i]).requested == CHUNK
    &&& bytes.len() > 0 ==> unsettled(EDID::decode(bytes.drop_last()))
    &&& match res {
        Ok(edid) => EDID::decode(bytes) == Ok::<EDIDView, DecodeError>(edid),
        Err(e) => fails_as(e, EDID::decode(bytes)),
    }
    &&& res matches Err(e) ==> e.from_source() ==> {
        &&& bytes == delivered(answers)
        &&& answers.len() > 0
        &&& spec_received(answers.last().chunk, answers.last().count) == Err::<Seq<u8>, DecodeError>(
            e,
        )
    }
}

/// Reads one block from a byte source.
///
/// The source is asked for one chunk at a time, and no more often than the
/// block needs. The bytes that it writes are decoded in its order, none
/// lost, up to the byte that decides; the result is what they decode to,
/// or what the last answer of the source comes to where they decide
/// nothing.
pub fn parse<T: Read>(value: &mut T) -> (res: Result<EDID, DecodeError>)
    ensures
        exists|answers: Seq<Answer>, bytes: Seq<u8>| #[trigger] read_from(answers, bytes, viewed(res)),
        res matches Ok(edid) ==> edid@.wf(),
{
    let mut reader = Reader::new(value);
    let ghost start = reader.mark();
    let res = EDID::parse(&mut reader);
    proof {
        let now = reader.mark();
        let bytes = now.since(start);
        lemma_in_source_order(start, now);
        assert(bytes =~= now.taken);
        assert(bytes.is_prefix_of(delivered(now.answers))) by {
            assert(bytes =~= (now.taken + now.buffered).subrange(0, bytes.len() as int));
        }
        if res matches Err(e) && e.from_source() {
            assert(now.taken + now.buffered =~= now.taken);
        }
        assert(read_from(now.answers, bytes, viewed(res)));
    }
    res
}

} // verus!
