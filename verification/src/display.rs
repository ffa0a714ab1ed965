use vstd::prelude::*;
use crate::error::DecodeError;
use crate::reader::{lemma_steps, Read, Reader};

verus! {

/// The voltages of an analog video signal, in millivolts.
#[derive(Debug, Clone, Copy, PartialEq, Eq, Structural)]
pub struct SignalLevel {
    pub high: u16,
    pub low: u16,
}

impl SignalLevel {
    /// The pair of voltages that a two-bit selector names.
    pub open spec fn spec_of_selector(selector: int) -> SignalLevel {
        if selector == 0 {
            SignalLevel { high: 700, low: 300 }
        } else if selector == 1 {
            SignalLevel { high: 714, low: 286 }
        } else if selector == 2 {
            SignalLevel { high: 1000, low: 400 }
        } else {
            SignalLevel { high: 700, low: 0 }
        }
    }
}

/// The sync signals that an analog display accepts.
#[derive(Debug, Clone, Copy, PartialEq, Eq, Structural)]
pub struct SupportedSync {
    /// Horizontal sync during vertical sync.
    pub serrated_vsync: bool,
    pub sync_on_green: bool,
    pub composite_sync: bool,
    pub seperate_sync: bool,
}

/// The kind of video signal that a display takes.
#[derive(Debug, Clone, Copy, PartialEq, Eq, Structural)]
pub enum VideoInput {
    Analog {
        signal_level: SignalLevel,
        /// A blank-to-black setup is expected.
        setup_expected: bool,
        supported_sync: SupportedSync,
    },
    Digital {
        /// Compatible with VESA DFP 1.x.
        dfp_compatible: bool,
    },
}

impl VideoInput {
    /// The input that a byte describes. Its top bit tells digital from
    /// analog. A digital input has one flag, bit 0. An analog one has its
    /// signal level in bits 6 and 5, and a flag in each of bits 4 to 0.
    pub open spec fn spec_from_byte(val: u8) -> VideoInput {
        if val >= 128 {
            VideoInput::Digital { dfp_compatible: val % 2 == 1 }
        } else {
            VideoInput::Analog {
                signal_level: SignalLevel::spec_of_selector(val as int / 32 % 4),
                setup_expected: val / 16 % 2 == 1,
                supported_sync: SupportedSync {
                    serrated_vsync: val / 8 % 2 == 1,
                    sync_on_green: val / 4 % 2 == 1,
                    composite_sync: val / 2 % 2 == 1,
                    seperate_sync: val % 2 == 1,
                },
            }
        }
    }

    pub fn from_byte(val: u8) -> (input: VideoInput)
        ensures
            input == Self::spec_from_byte(val),
    {
        if val >= 128 {
            VideoInput::Digital { dfp_compatible: val % 2 == 1 }
        } else {
            let selector = val / 32 % 4;
            let signal_level = if selector == 0 {
                SignalLevel { high: 700, low: 300 }
            } else if selector == 1 {
                SignalLevel { high: 714, low: 286 }
            } else if selector == 2 {
                SignalLevel { high: 1000, low: 400 }
            } else {
                SignalLevel { high: 700, low: 0 }
            };
            VideoInput::Analog {
                signal_level,
                setup_expected: val / 16 % 2 == 1,
                supported_sync: SupportedSync {
                    serrated_vsync: val / 8 % 2 == 1,
                    sync_on_green: val / 4 % 2 == 1,
                    composite_sync: val / 2 % 2 == 1,
                    seperate_sync: val % 2 == 1,
                },
            }
        }
    }

    pub fn parse<T: Read>(r: &mut Reader<T>) -> (res: Result<VideoInput, DecodeError>)
        ensures
            final(r).follows(old(r)),
            match res {
                Ok(input) => final(r).since(old(r)).len() == 1 && input == Self::spec_from_byte(
                    final(r).since(old(r))[0],
                ),
                Err(e) => final(r).stopped(old(r), e, 1),
            },
    {
        let val = r.read_u8()?;
        Ok(Self::from_byte(val))
    }
}

/// A size in millimetres.
#[derive(Debug, Clone, Copy, PartialEq, Eq, Structural)]
pub struct ImageSize {
    pub width: u16,
    pub height: u16,
}

/// The kind of picture that a display shows.
#[derive(Debug, Clone, Copy, PartialEq, Eq, Structural)]
pub enum DisplayType {
    Monochrome,
    RGBColor,
    OtherColor,
    Undefined,
}

impl DisplayType {
    /// The kind that a two-bit selector names.
    pub open spec fn spec_of_selector(selector: int) -> DisplayType {
        if selector == 0 {
            DisplayType::Monochrome
        } else if selector == 1 {
            DisplayType::RGBColor
        } else if selector == 2 {
            DisplayType::OtherColor
        } else {
            DisplayType::Undefined
        }
    }
}

/// The power management and other features that a display declares.
#[derive(Debug, Clone, Copy, PartialEq, Eq, Structural)]
pub struct DPMSFeatures {
    pub standby_supported: bool,
    pub suspend_supported: bool,
    pub low_power_supported: bool,
    pub display_type: DisplayType,
    pub default_srgb: bool,
    /// The first detailed timing is the mode that the display prefers.
    pub preferred_timing_mode: bool,
    /// Every timing of the general timing formula works.
    pub default_gtf_supported: bool,
}

impl DPMSFeatures {
    /// The features that a byte declares: a flag in each of bits 7 to 5,
    /// the kind of display in bits 4 and 3, a flag in each of bits 2 to 0.
    pub open spec fn spec_from_byte(val: u8) -> DPMSFeatures {
        DPMSFeatures {
            standby_supported: val >= 128,
            suspend_supported: val / 64 % 2 == 1,
            low_power_supported: val / 32 % 2 == 1,
            display_type: DisplayType::spec_of_selector(val as int / 8 % 4),
            default_srgb: val / 4 % 2 == 1,
            preferred_timing_mode: val / 2 % 2 == 1,
            default_gtf_supported: val % 2 == 1,
        }
    }

    pub fn from_byte(val: u8) -> (features: DPMSFeatures)
        ensures
            features == Self::spec_from_byte(val),
    {
        let selector = val / 8 % 4;
        DPMSFeatures {
            standby_supported: val >= 128,
            suspend_supported: val / 64 % 2 == 1,
            low_power_supported: val / 32 % 2 == 1,
            display_type: if selector == 0 {
                DisplayType::Monochrome
            } else if selector == 1 {
                DisplayType::RGBColor
            } else if selector == 2 {
                DisplayType::OtherColor
            } else {
                DisplayType::Undefined
            },
            default_srgb: val / 4 % 2 == 1,
            preferred_timing_mode: val / 2 % 2 == 1,
            default_gtf_supported: val % 2 == 1,
        }
    }

    pub fn parse<T: Read>(r: &mut Reader<T>) -> (res: Result<DPMSFeatures, DecodeError>)
        ensures
            final(r).follows(old(r)),
            match res {
                Ok(features) => final(r).since(old(r)).len() == 1 && features
                    == Self::spec_from_byte(final(r).since(old(r))[0]),
                Err(e) => final(r).stopped(old(r), e, 1),
            },
    {
        let val = r.read_u8()?;
        Ok(Self::from_byte(val))
    }
}

/// What the block says of the display as a piece of hardware.
#[derive(Debug, Clone, Copy, PartialEq, Eq)]
pub struct DisplayParameters {
    pub input: VideoInput,
    /// The largest picture, where the display knows it.
    pub max_size: Option<ImageSize>,
    /// The gamma of the display in hundredths, where the block gives it.
    pub gamma: Option<u16>,
    pub dpms: DPMSFeatures,
}

impl DisplayParameters {
    /// The size that two bytes give in centimetres. A zero in either says
    /// that the size is not known.
    pub open spec fn spec_max_size(width: u8, height: u8) -> Option<ImageSize> {
        if width == 0 || height == 0 {
            None
        } else {
            Some(ImageSize { width: (10 * width as int) as u16, height: (10 * height as int) as u16 })
        }
    }

    /// The gamma that a byte gives, in hundredths: the byte and a hundred,
    /// where the byte is not 255, which says that the block gives none.
    pub open spec fn spec_gamma(val: u8) -> Option<u16> {
        if val == 255 {
            None
        } else {
            Some((val as int + 100) as u16)
        }
    }

    /// The parameters that the first five bytes of `b` encode.
    #[verifier::opaque]
    pub open spec fn of(b: Seq<u8>) -> DisplayParameters {
        DisplayParameters {
            input: VideoInput::spec_from_byte(b[0]),
            max_size: Self::spec_max_size(b[1], b[2]),
            gamma: Self::spec_gamma(b[3]),
            dpms: DPMSFeatures::spec_from_byte(b[4]),
        }
    }

    pub fn max_size(width: u8, height: u8) -> (size: Option<ImageSize>)
        ensures
            size == Self::spec_max_size(width, height),
    {
        if width == 0 || height == 0 {
            None
        } else {
            Some(ImageSize { width: 10 * (width as u16), height: 10 * (height as u16) })
        }
    }

    pub fn gamma(val: u8) -> (gamma: Option<u16>)
        ensures
            gamma == Self::spec_gamma(val),
    {
        if val == 255 {
            None
        } else {
            Some(val as u16 + 100)
        }
    }

    pub fn parse<T: Read>(r: &mut Reader<T>) -> (res: Result<DisplayParameters, DecodeError>)
        ensures
            final(r).follows(old(r)),
            match res {
                Ok(p) => final(r).since(old(r)).len() == 5 && p == Self::of(final(r).since(old(r))),
                Err(e) => final(r).stopped(old(r), e, 5),
            },
    {
        proof {
            reveal(DisplayParameters::of);
        }
        let ghost t0 = r.mark();
        let input = VideoInput::parse(r)?;
        let ghost t1 = r.mark();
        let middle = r.take(3);
        proof {
            lemma_steps(t0, t1, r.mark());
        }
        let m = middle?;
        let ghost t2 = r.mark();
        let features = DPMSFeatures::parse(r);
        proof {
            lemma_steps(t0, t2, r.mark());
        }
        let dpms = features?;
        Ok(
            DisplayParameters {
                input,
                max_size: Self::max_size(m[0], m[1]),
                gamma: Self::gamma(m[2]),
                dpms,
            },
        )
    }
}

} // verus!
