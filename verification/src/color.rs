use vstd::prelude::*;
use crate::error::DecodeError;
use crate::reader::{Read, Reader};

verus! {

/// A chromaticity coordinate of ten bits: eight from a byte of its own,
/// above two from a byte that it shares. It counts 1024ths.
pub open spec fn spec_coordinate(high: u8, low: int) -> u16 {
    (4 * high as int + low) as u16
}

/// Joins the byte of a coordinate with its two low bits, which are the low
/// bits of `low`.
pub fn coordinate(high: u8, low: u8) -> (c: u16)
    ensures
        c == spec_coordinate(high, low as int % 4),
        c < 1024,
{
    4 * (high as u16) + (low % 4) as u16
}

/// A point of the CIE 1931 plane. Both coordinates count 1024ths.
#[derive(Debug, Clone, Copy, PartialEq, Eq, Structural)]
pub struct Chromaticity {
    pub x: u16,
    pub y: u16,
}

impl Chromaticity {
    /// True where both coordinates are below one.
    pub open spec fn wf(self) -> bool {
        self.x < 1024 && self.y < 1024
    }
}

/// A further white point of the display. `x` and `y` count 1024ths, and
/// `gamma` hundredths.
#[derive(Debug, Clone, Copy, PartialEq, Eq, Structural)]
pub struct WhitePoint {
    pub index: u8,
    pub x: u16,
    pub y: u16,
    pub gamma: u16,
}

impl WhitePoint {
    /// The white point that five bytes encode: its index, a byte whose
    /// bits 3 and 2 are the low bits of `x` and whose bits 1 and 0 are those
    /// of `y`, the high bits of `x`, those of `y`, and the gamma less a
    /// hundred.
    pub open spec fn of(b: Seq<u8>) -> WhitePoint {
        WhitePoint {
            index: b[0],
            x: spec_coordinate(b[2], b[1] as int / 4 % 4),
            y: spec_coordinate(b[3], b[1] as int % 4),
            gamma: (b[4] as int + 100) as u16,
        }
    }

    /// True where both coordinates are below one.
    pub open spec fn wf(self) -> bool {
        self.x < 1024 && self.y < 1024
    }

    pub fn from_bytes(index: u8, low: u8, x_high: u8, y_high: u8, gamma: u8) -> (w: WhitePoint)
        ensures
            w == Self::of(seq![index, low, x_high, y_high, gamma]),
            w.wf(),
    {
        WhitePoint {
            index,
            x: coordinate(x_high, low / 4 % 4),
            y: coordinate(y_high, low % 4),
            gamma: gamma as u16 + 100,
        }
    }
}

/// Where the three primaries and white lie in the CIE 1931 plane, and the
/// further white points of the display.
#[derive(Debug, Clone, PartialEq, Eq)]
pub struct ColorCharacteristics {
    pub red: Chromaticity,
    pub green: Chromaticity,
    pub blue: Chromaticity,
    pub white: Chromaticity,
    pub white_points: Vec<WhitePoint>,
}

/// What a `ColorCharacteristics` holds, its white points as a sequence.
pub struct ColorCharacteristicsView {
    pub red: Chromaticity,
    pub green: Chromaticity,
    pub blue: Chromaticity,
    pub white: Chromaticity,
    pub white_points: Seq<WhitePoint>,
}

impl View for ColorCharacteristics {
    type V = ColorCharacteristicsView;

    open spec fn view(&self) -> ColorCharacteristicsView {
        ColorCharacteristicsView {
            red: self.red,
            green: self.green,
            blue: self.blue,
            white: self.white,
            white_points: self.white_points@,
        }
    }
}

impl ColorCharacteristicsView {
    /// True where every point, the further white points too, has both
    /// coordinates below one.
    pub open spec fn wf(self) -> bool {
        &&& self.red.wf()
        &&& self.green.wf()
        &&& self.blue.wf()
        &&& self.white.wf()
        &&& forall|i: int| 0 <= i < self.white_points.len() ==> (#[trigger] self.white_points[i]).wf()
    }
}

impl ColorCharacteristics {
    /// The colours that the first ten bytes of `b` encode. The first byte
    /// holds the low bits of red and green, the second those of blue and
    /// white, each as four pairs from the top down: x, y, x, y. The eight
    /// bytes after them hold the high bits in the same order. No further
    /// white point comes from here.
    #[verifier::opaque]
    pub open spec fn of(b: Seq<u8>) -> ColorCharacteristicsView {
        ColorCharacteristicsView {
            red: Chromaticity {
                x: spec_coordinate(b[2], b[0] as int / 64),
                y: spec_coordinate(b[3], b[0] as int / 16 % 4),
            },
            green: Chromaticity {
                x: spec_coordinate(b[4], b[0] as int / 4 % 4),
                y: spec_coordinate(b[5], b[0] as int % 4),
            },
            blue: Chromaticity {
                x: spec_coordinate(b[6], b[1] as int / 64),
                y: spec_coordinate(b[7], b[1] as int / 16 % 4),
            },
            white: Chromaticity {
                x: spec_coordinate(b[8], b[1] as int / 4 % 4),
                y: spec_coordinate(b[9], b[1] as int % 4),
            },
            white_points: Seq::empty(),
        }
    }

    pub fn parse<T: Read>(r: &mut Reader<T>) -> (res: Result<ColorCharacteristics, DecodeError>)
        ensures
            final(r).follows(old(r)),
            match res {
                Ok(c) => final(r).since(old(r)).len() == 10 && c@ == Self::of(final(r).since(old(r)))
                    && c@.wf(),
                Err(e) => final(r).stopped(old(r), e, 10),
            },
    {
        proof {
            reveal(ColorCharacteristics::of);
        }
        let b = r.take(10)?;
        let rg_low = b[0];
        let bw_low = b[1];
        Ok(
            ColorCharacteristics {
                red: Chromaticity {
                    x: coordinate(b[2], rg_low / 64),
                    y: coordinate(b[3], rg_low / 16 % 4),
                },
                green: Chromaticity {
                    x: coordinate(b[4], rg_low / 4 % 4),
                    y: coordinate(b[5], rg_low % 4),
                },
                blue: Chromaticity {
                    x: coordinate(b[6], bw_low / 64),
                    y: coordinate(b[7], bw_low / 16 % 4),
                },
                white: Chromaticity {
                    x: coordinate(b[8], bw_low / 4 % 4),
                    y: coordinate(b[9], bw_low % 4),
                },
                white_points: Vec::new(),
            },
        )
    }
}

} // verus!
