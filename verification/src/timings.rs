use vstd::prelude::*;
use vstd::slice::slice_subrange;
use crate::detailed::DetailedTiming;
use crate::error::DecodeError;
use crate::reader::{le16, Read, Reader};

verus! {

/// The modes of the fixed list that a display can declare with one bit each.
/// A name gives width, height and refresh rate.
#[derive(Debug, Clone, Copy, PartialEq, Eq, Hash, Structural)]
pub enum EstablishedTiming {
    H720V400F70,
    H720V400F88,
    H640V480F60,
    H640V480F67,
    H640V480F72,
    H640V480F75,
    H800V600F56,
    H800V600F60,
    H800V600F72,
    H800V600F75,
    H832V624F75,
    H1024V768F87,
    H1024V768F60,
    H1024V768F70,
    H1024V768F75,
    H1280V1024F75,
    H1152V870F75,
}

impl EstablishedTiming {
    /// The modes in the order of their bits: the first sixteen belong to the
    /// bits of a word, the lowest bit first, and the last one to the top bit
    /// of the byte that follows the word.
    pub open spec fn catalogue() -> Seq<EstablishedTiming> {
        seq![
            EstablishedTiming::H720V400F70,
            EstablishedTiming::H720V400F88,
            EstablishedTiming::H640V480F60,
            EstablishedTiming::H640V480F67,
            EstablishedTiming::H640V480F72,
            EstablishedTiming::H640V480F75,
            EstablishedTiming::H800V600F56,
            EstablishedTiming::H800V600F60,
            EstablishedTiming::H800V600F72,
            EstablishedTiming::H800V600F75,
            EstablishedTiming::H832V624F75,
            EstablishedTiming::H1024V768F87,
            EstablishedTiming::H1024V768F60,
            EstablishedTiming::H1024V768F70,
            EstablishedTiming::H1024V768F75,
            EstablishedTiming::H1280V1024F75,
            EstablishedTiming::H1152V870F75,
        ]
    }

    /// The modes that the lowest `count` bits of `bits` select among those
    /// of the catalogue from place `from` on, in the catalogue's order.
    pub open spec fn chosen(bits: int, from: int, count: nat) -> Seq<EstablishedTiming>
        decreases count,
    {
        if count == 0 {
            Seq::empty()
        } else {
            let rest = Self::chosen(bits / 2, from + 1, (count - 1) as nat);
            if bits % 2 == 1 {
                seq![Self::catalogue()[from]] + rest
            } else {
                rest
            }
        }
    }

    /// The place of a mode in the catalogue.
    pub open spec fn place(self) -> int {
        match self {
            EstablishedTiming::H720V400F70 => 0,
            EstablishedTiming::H720V400F88 => 1,
            EstablishedTiming::H640V480F60 => 2,
            EstablishedTiming::H640V480F67 => 3,
            EstablishedTiming::H640V480F72 => 4,
            EstablishedTiming::H640V480F75 => 5,
            EstablishedTiming::H800V600F56 => 6,
            EstablishedTiming::H800V600F60 => 7,
            EstablishedTiming::H800V600F72 => 8,
            EstablishedTiming::H800V600F75 => 9,
            EstablishedTiming::H832V624F75 => 10,
            EstablishedTiming::H1024V768F87 => 11,
            EstablishedTiming::H1024V768F60 => 12,
            EstablishedTiming::H1024V768F70 => 13,
            EstablishedTiming::H1024V768F75 => 14,
            EstablishedTiming::H1280V1024F75 => 15,
            EstablishedTiming::H1152V870F75 => 16,
        }
    }

    /// True where the modes stand in the order of the catalogue, none of
    /// them twice.
    pub open spec fn ascending(modes: Seq<EstablishedTiming>) -> bool {
        forall|i: int, j: int|
            0 <= i < j < modes.len() ==> (#[trigger] modes[i]).place() < (#[trigger] modes[j]).place()
    }

    /// The modes that a word and the byte after it declare.
    pub open spec fn spec_from_bits(word: u16, last: u8) -> Seq<EstablishedTiming> {
        Self::chosen(word as int, 0, 16) + (if last >= 128 {
            seq![EstablishedTiming::H1152V870F75]
        } else {
            Seq::empty()
        })
    }

    /// The modes chosen from some places of the catalogue belong to those
    /// places and stand in their order.
    pub proof fn lemma_chosen_ascending(bits: int, from: int, count: nat)
        requires
            0 <= from,
            from + count <= 17,
        ensures
            Self::ascending(Self::chosen(bits, from, count)),
            Self::chosen(bits, from, count).len() <= count,
            forall|i: int|
                0 <= i < Self::chosen(bits, from, count).len() ==> from <= (
                #[trigger] Self::chosen(bits, from, count)[i]).place() < from + count,
        decreases count,
    {
        if count > 0 {
            Self::lemma_chosen_ascending(bits / 2, from + 1, (count - 1) as nat);
            assert(Self::catalogue()[from].place() == from);
        }
    }

    /// No mode is declared twice: the modes that a word and a byte declare
    /// stand in the order of the catalogue.
    pub proof fn lemma_from_bits_ascending(word: u16, last: u8)
        ensures
            Self::ascending(Self::spec_from_bits(word, last)),
            Self::spec_from_bits(word, last).no_duplicates(),
            Self::spec_from_bits(word, last).len() <= 17,
    {
        Self::lemma_chosen_ascending(word as int, 0, 16);
        let modes = Self::spec_from_bits(word, last);
        assert forall|i: int, j: int| 0 <= i < j < modes.len() implies modes[i] != modes[j] by {
            assert(modes[i].place() < modes[j].place());
        }
    }

    /// The mode at a place of the catalogue, where the catalogue has that
    /// place.
    pub fn nth(place: usize) -> (mode: Option<EstablishedTiming>)
        ensures
            mode == (if place < 17 {
                Some(Self::catalogue()[place as int])
            } else {
                None
            }),
    {
        match place {
            0 => Some(EstablishedTiming::H720V400F70),
            1 => Some(EstablishedTiming::H720V400F88),
            2 => Some(EstablishedTiming::H640V480F60),
            3 => Some(EstablishedTiming::H640V480F67),
            4 => Some(EstablishedTiming::H640V480F72),
            5 => Some(EstablishedTiming::H640V480F75),
            6 => Some(EstablishedTiming::H800V600F56),
            7 => Some(EstablishedTiming::H800V600F60),
            8 => Some(EstablishedTiming::H800V600F72),
            9 => Some(EstablishedTiming::H800V600F75),
            10 => Some(EstablishedTiming::H832V624F75),
            11 => Some(EstablishedTiming::H1024V768F87),
            12 => Some(EstablishedTiming::H1024V768F60),
            13 => Some(EstablishedTiming::H1024V768F70),
            14 => Some(EstablishedTiming::H1024V768F75),
            15 => Some(EstablishedTiming::H1280V1024F75),
            16 => Some(EstablishedTiming::H1152V870F75),
            _ => None,
        }
    }

    /// Lists the modes that a word and the byte after it declare.
    pub fn from_bits(word: u16, last: u8) -> (modes: Vec<EstablishedTiming>)
        ensures
            modes@ == Self::spec_from_bits(word, last),
    {
        let mut modes: Vec<EstablishedTiming> = Vec::new();
        let mut bits: u16 = word;
        let mut place: usize = 0;
        while place < 16
            invariant
                place <= 16,
                modes@ + Self::chosen(bits as int, place as int, (16 - place) as nat)
                    == Self::chosen(word as int, 0, 16),
            decreases 16 - place,
        {
            let ghost before = modes@;
            let ghost rest = Self::chosen(bits as int / 2, place as int + 1, (15 - place) as nat);
            if bits % 2 == 1 {
                if let Some(mode) = Self::nth(place) {
                    modes.push(mode);
                    assert(modes@ + rest =~= before + (seq![mode] + rest));
                }
            }
            bits = bits / 2;
            place = place + 1;
        }
        assert(modes@ + Self::chosen(bits as int, 16, 0) =~= modes@);
        if last >= 128 {
            let ghost before = modes@;
            modes.push(EstablishedTiming::H1152V870F75);
            assert(modes@ =~= before + seq![EstablishedTiming::H1152V870F75]);
        } else {
            assert(modes@ + Seq::<EstablishedTiming>::empty() =~= modes@);
        }
        modes
    }
}

/// The shape of the picture: width to height.
#[derive(Debug, Clone, Copy, PartialEq, Eq, Hash, Structural)]
pub enum AspectRatio {
    SixteenToTen,
    FourToThree,
    FiveToFour,
    SixteenToNine,
}

impl AspectRatio {
    /// The ratio that a two-bit selector names.
    pub open spec fn spec_of_selector(selector: int) -> AspectRatio {
        if selector == 0 {
            AspectRatio::SixteenToTen
        } else if selector == 1 {
            AspectRatio::FourToThree
        } else if selector == 2 {
            AspectRatio::FiveToFour
        } else {
            AspectRatio::SixteenToNine
        }
    }

    /// Width and height of the ratio, in lowest terms but for 16 to 10.
    pub open spec fn spec_terms(self) -> (u8, u8) {
        match self {
            AspectRatio::SixteenToTen => (16u8, 10u8),
            AspectRatio::FourToThree => (4u8, 3u8),
            AspectRatio::FiveToFour => (5u8, 4u8),
            AspectRatio::SixteenToNine => (16u8, 9u8),
        }
    }

    pub fn terms(&self) -> (t: (u8, u8))
        ensures
            t == self.spec_terms(),
    {
        match self {
            AspectRatio::SixteenToTen => (16u8, 10u8),
            AspectRatio::FourToThree => (4u8, 3u8),
            AspectRatio::FiveToFour => (5u8, 4u8),
            AspectRatio::SixteenToNine => (16u8, 9u8),
        }
    }
}

/// A mode given by its width, its shape and its refresh rate; the rest
/// follows from the general timing formula.
#[derive(Debug, Clone, Copy, PartialEq, Eq, Structural)]
pub struct StandardTiming {
    /// In pixels.
    pub horizontal_resolution: u16,
    pub aspect_ratio: AspectRatio,
    /// In Hz.
    pub refresh_rate: u8,
}

impl StandardTiming {
    /// The mode that two bytes encode. The pair (1, 1) fills an unused
    /// place and encodes none.
    pub open spec fn spec_from_pair(low: u8, high: u8) -> Option<StandardTiming> {
        if low == 1 && high == 1 {
            None
        } else {
            Some(
                StandardTiming {
                    horizontal_resolution: ((low as int + 31) * 8) as u16,
                    aspect_ratio: AspectRatio::spec_of_selector(high as int / 64),
                    refresh_rate: (high as int % 64 + 60) as u8,
                },
            )
        }
    }

    /// The modes that the first `count` byte pairs of `b` encode, in their
    /// order.
    pub open spec fn entries(b: Seq<u8>, count: nat) -> Seq<StandardTiming>
        decreases count,
    {
        if count == 0 {
            Seq::empty()
        } else {
            let before = Self::entries(b, (count - 1) as nat);
            match Self::spec_from_pair(b[2 * count - 2], b[2 * count - 1]) {
                Some(t) => before.push(t),
                None => before,
            }
        }
    }

    /// The modes of the first `count` pairs depend on the bytes of those
    /// pairs alone.
    pub proof fn lemma_entries_same(a: Seq<u8>, b: Seq<u8>, count: nat)
        requires
            forall|i: int| 0 <= i < 2 * count ==> a[i] == b[i],
        ensures
            Self::entries(a, count) == Self::entries(b, count),
        decreases count,
    {
        if count > 0 {
            Self::lemma_entries_same(a, b, (count - 1) as nat);
        }
    }

    pub fn from_pair(low: u8, high: u8) -> (mode: Option<StandardTiming>)
        ensures
            mode == Self::spec_from_pair(low, high),
    {
        if low == 1 && high == 1 {
            None
        } else {
            let selector = high / 64;
            Some(
                StandardTiming {
                    horizontal_resolution: (low as u16 + 31) * 8,
                    aspect_ratio: if selector == 0 {
                        AspectRatio::SixteenToTen
                    } else if selector == 1 {
                        AspectRatio::FourToThree
                    } else if selector == 2 {
                        AspectRatio::FiveToFour
                    } else {
                        AspectRatio::SixteenToNine
                    },
                    refresh_rate: high % 64 + 60,
                },
            )
        }
    }

    /// Adds to `modes` what the byte pairs of `b` encode. A last byte
    /// without a partner is passed over.
    pub fn collect(b: &[u8], modes: &mut Vec<StandardTiming>)
        ensures
            final(modes)@ == old(modes)@ + Self::entries(b@, (b@.len() / 2) as nat),
    {
        let pairs = b.len() / 2;
        let mut done: usize = 0;
        assert(modes@ =~= old(modes)@ + Self::entries(b@, 0));
        while done < pairs
            invariant
                done <= pairs,
                pairs == b@.len() / 2,
                2 * pairs <= b@.len() <= usize::MAX,
                modes@ == old(modes)@ + Self::entries(b@, done as nat),
            decreases pairs - done,
        {
            let ghost before = Self::entries(b@, done as nat);
            if let Some(mode) = Self::from_pair(b[2 * done], b[2 * done + 1]) {
                modes.push(mode);
                assert(modes@ =~= old(modes)@ + before.push(mode));
            }
            done = done + 1;
        }
    }
}

/// The modes that a display accepts.
#[derive(Debug, Clone, PartialEq, Eq)]
pub struct Timings {
    pub established_timings: Vec<EstablishedTiming>,
    pub standard_timings: Vec<StandardTiming>,
    /// The first one is the mode that the display prefers.
    pub detailed_timings: Vec<DetailedTiming>,
}

/// What a `Timings` holds, as sequences.
pub struct TimingsView {
    pub established_timings: Seq<EstablishedTiming>,
    pub standard_timings: Seq<StandardTiming>,
    pub detailed_timings: Seq<DetailedTiming>,
}

impl View for Timings {
    type V = TimingsView;

    open spec fn view(&self) -> TimingsView {
        TimingsView {
            established_timings: self.established_timings@,
            standard_timings: self.standard_timings@,
            detailed_timings: self.detailed_timings@,
        }
    }
}

impl Timings {
    /// The timing tables that the first nineteen bytes of `b` encode: three
    /// bytes of established modes and eight pairs of standard ones. They
    /// hold no detailed timing.
    #[verifier::opaque]
    pub open spec fn of(b: Seq<u8>) -> TimingsView {
        TimingsView {
            established_timings: EstablishedTiming::spec_from_bits(le16(b), b[2]),
            standard_timings: StandardTiming::entries(b.skip(3), 8),
            detailed_timings: Seq::empty(),
        }
    }

    pub fn parse<T: Read>(r: &mut Reader<T>) -> (res: Result<Timings, DecodeError>)
        ensures
            final(r).follows(old(r)),
            match res {
                Ok(t) => final(r).since(old(r)).len() == 19 && t@ == Self::of(final(r).since(old(r))),
                Err(e) => final(r).stopped(old(r), e, 19),
            },
    {
        proof {
            reveal(Timings::of);
        }
        let b = r.take(19)?;
        let word = b[0] as u16 + 256 * (b[1] as u16);
        let established_timings = EstablishedTiming::from_bits(word, b[2]);
        let mut standard_timings: Vec<StandardTiming> = Vec::new();
        let pairs = slice_subrange(b.as_slice(), 3, 19);
        StandardTiming::collect(pairs, &mut standard_timings);
        proof {
            assert(pairs@ =~= b@.skip(3));
            assert(standard_timings@ =~= StandardTiming::entries(b@.skip(3), 8));
        }
        Ok(Timings { established_timings, standard_timings, detailed_timings: Vec::new() })
    }
}

} // verus!
