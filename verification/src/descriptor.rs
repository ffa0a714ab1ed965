use vstd::prelude::*;
use crate::color::WhitePoint;
use crate::error::{ensure, fails_as, unsettled, DecodeError};
use crate::reader::{le16, lemma_no_step, lemma_steps, Read, Reader};
use crate::timings::StandardTiming;

verus! {

/// A second way to derive timings from a rate, where a display has one.
#[derive(Debug, PartialEq, Eq)]
pub enum SecondaryTiming {
    /// The display has none.
    Absent,
    /// The general timing formula with parameters of the display's own.
    /// `c` and `j` count halves.
    GTF {
        /// The horizontal rate from which the parameters hold, in Hz.
        start_horizontal_freq: u32,
        c: u8,
        m: u16,
        k: u8,
        j: u8,
    },
    /// A way that this library does not know, with the selector that named
    /// it and its seven bytes as they stand.
    Other(u8, [u8; 7]),
}

/// What a `SecondaryTiming` holds, its bytes as a sequence.
pub enum SecondaryTimingView {
    Absent,
    GTF { start_horizontal_freq: u32, c: u8, m: u16, k: u8, j: u8 },
    Other(u8, Seq<u8>),
}

impl View for SecondaryTiming {
    type V = SecondaryTimingView;

    open spec fn view(&self) -> SecondaryTimingView {
        match *self {
            SecondaryTiming::Absent => SecondaryTimingView::Absent,
            SecondaryTiming::GTF { start_horizontal_freq, c, m, k, j } => SecondaryTimingView::GTF {
                start_horizontal_freq,
                c,
                m,
                k,
                j,
            },
            SecondaryTiming::Other(selector, data) => SecondaryTimingView::Other(selector, data@),
        }
    }
}

impl Clone for SecondaryTiming {
    fn clone(&self) -> (res: Self)
        ensures
            res@ == self@,
    {
        match self {
            SecondaryTiming::Absent => SecondaryTiming::Absent,
            SecondaryTiming::GTF { start_horizontal_freq, c, m, k, j } => SecondaryTiming::GTF {
                start_horizontal_freq: *start_horizontal_freq,
                c: *c,
                m: *m,
                k: *k,
                j: *j,
            },
            SecondaryTiming::Other(selector, data) => SecondaryTiming::Other(*selector, *data),
        }
    }
}

/// What a slot says of the display where it holds no timing.
#[derive(Debug, PartialEq, Eq)]
pub enum MonitorDescriptor {
    SerialNumber(String),
    OtherString(String),
    /// The rates that the display can follow. Each pair holds the lowest
    /// and the highest.
    RangeLimits {
        /// In Hz.
        vertical_rate: (u8, u8),
        /// In Hz.
        horizontal_rate: (u32, u32),
        /// The highest pixel clock, in Hz.
        pixel_clock: u32,
        secondary_timing: SecondaryTiming,
    },
    MonitorName(String),
    /// A tag that the format leaves open, with its thirteen bytes.
    Undefined(u8, [u8; 13]),
    /// A tag that the format leaves to the maker, with its thirteen bytes.
    ManufacturerDefined(u8, [u8; 13]),
}

/// What a `MonitorDescriptor` holds, its texts and bytes as sequences.
pub enum MonitorDescriptorView {
    SerialNumber(Seq<char>),
    OtherString(Seq<char>),
    RangeLimits {
        vertical_rate: (u8, u8),
        horizontal_rate: (u32, u32),
        pixel_clock: u32,
        secondary_timing: SecondaryTimingView,
    },
    MonitorName(Seq<char>),
    Undefined(u8, Seq<u8>),
    ManufacturerDefined(u8, Seq<u8>),
}

impl View for MonitorDescriptor {
    type V = MonitorDescriptorView;

    open spec fn view(&self) -> MonitorDescriptorView {
        match *self {
            MonitorDescriptor::SerialNumber(text) => MonitorDescriptorView::SerialNumber(text@),
            MonitorDescriptor::OtherString(text) => MonitorDescriptorView::OtherString(text@),
            MonitorDescriptor::RangeLimits {
                vertical_rate,
                horizontal_rate,
                pixel_clock,
                secondary_timing,
            } => MonitorDescriptorView::RangeLimits {
                vertical_rate,
                horizontal_rate,
                pixel_clock,
                secondary_timing: secondary_timing@,
            },
            MonitorDescriptor::MonitorName(text) => MonitorDescriptorView::MonitorName(text@),
            MonitorDescriptor::Undefined(tag, data) => MonitorDescriptorView::Undefined(tag, data@),
            MonitorDescriptor::ManufacturerDefined(tag, data) => {
                MonitorDescriptorView::ManufacturerDefined(tag, data@)
            },
        }
    }
}

impl Clone for MonitorDescriptor {
    fn clone(&self) -> (res: Self)
        ensures
            res@ == self@,
    {
        match self {
            MonitorDescriptor::SerialNumber(text) => MonitorDescriptor::SerialNumber(text.clone()),
            MonitorDescriptor::OtherString(text) => MonitorDescriptor::OtherString(text.clone()),
            MonitorDescriptor::RangeLimits {
                vertical_rate,
                horizontal_rate,
                pixel_clock,
                secondary_timing,
            } => MonitorDescriptor::RangeLimits {
                vertical_rate: *vertical_rate,
                horizontal_rate: *horizontal_rate,
                pixel_clock: *pixel_clock,
                secondary_timing: secondary_timing.clone(),
            },
            MonitorDescriptor::MonitorName(text) => MonitorDescriptor::MonitorName(text.clone()),
            MonitorDescriptor::Undefined(tag, data) => MonitorDescriptor::Undefined(*tag, *data),
            MonitorDescriptor::ManufacturerDefined(tag, data) => {
                MonitorDescriptor::ManufacturerDefined(*tag, *data)
            },
        }
    }
}

/// The byte that ends a text before its thirteenth place.
pub const LINE_FEED: u8 = 0x0a;

/// The byte that fills a descriptor after its last meaningful byte.
pub const BLANK: u8 = 0x20;

/// What a byte that the format demands at a place does to a decoding:
/// nothing is decided before the byte is there, a wrong byte is an error,
/// and the right one lets the decoding go on to `then`.
pub open spec fn expect_byte<V>(d: Seq<u8>, at: int, byte: u8, then: Result<V, DecodeError>) -> Result<
    V,
    DecodeError,
> {
    if d.len() < at + 1 {
        Err(DecodeError::UnexpectedEndOfData)
    } else if d[at] != byte {
        Err(DecodeError::MalformedDescriptor)
    } else {
        then
    }
}

/// The same for two blanks that the format demands at a place. They are
/// read as one word, so that nothing is decided before both are there.
pub open spec fn expect_blanks<V>(d: Seq<u8>, at: int, then: Result<V, DecodeError>) -> Result<
    V,
    DecodeError,
> {
    if d.len() < at + 2 {
        Err(DecodeError::UnexpectedEndOfData)
    } else if d[at] != BLANK || d[at + 1] != BLANK {
        Err(DecodeError::MalformedDescriptor)
    } else {
        then
    }
}

/// Reads one byte and holds it to what the format demands.
pub fn read_expected<T: Read>(r: &mut Reader<T>, byte: u8) -> (res: Result<(), DecodeError>)
    ensures
        final(r).follows(old(r)),
        final(r).since(old(r)).len() > 0 ==> unsettled(
            expect_byte(final(r).since(old(r)).drop_last(), 0, byte, Ok::<(), DecodeError>(())),
        ),
        final(r).since(old(r)).len() <= 1,
        res matches Err(e) ==> e.from_source() ==> final(r).stopped(old(r), e, 1),
        match res {
            Ok(()) => final(r).since(old(r)) == seq![byte],
            Err(e) => fails_as(e, expect_byte(final(r).since(old(r)), 0, byte, Ok::<(), DecodeError>(()))),
        },
{
    let found = r.read_u8()?;
    ensure(found == byte, DecodeError::MalformedDescriptor)
}

/// Reads one word and holds it to the two blanks that the format demands.
pub fn read_blanks<T: Read>(r: &mut Reader<T>) -> (res: Result<(), DecodeError>)
    ensures
        final(r).follows(old(r)),
        final(r).since(old(r)).len() > 0 ==> unsettled(
            expect_blanks(final(r).since(old(r)).drop_last(), 0, Ok::<(), DecodeError>(())),
        ),
        final(r).since(old(r)).len() <= 2,
        res matches Err(e) ==> e.from_source() ==> final(r).stopped(old(r), e, 2),
        match res {
            Ok(()) => final(r).since(old(r)) == seq![BLANK, BLANK],
            Err(e) => fails_as(e, expect_blanks(final(r).since(old(r)), 0, Ok::<(), DecodeError>(()))),
        },
{
    let found = r.read_u16()?;
    proof {
        if found == 0x2020 {
            assert(r.mark().since(old(r).mark()) =~= seq![BLANK, BLANK]);
        }
    }
    ensure(found == 0x2020, DecodeError::MalformedDescriptor)
}

/// Reads thirteen data bytes as they stand.
pub fn parse_raw<T: Read>(r: &mut Reader<T>) -> (res: Result<[u8; 13], DecodeError>)
    ensures
        final(r).follows(old(r)),
        match res {
            Ok(data) => data@ == final(r).since(old(r)),
            Err(e) => final(r).stopped(old(r), e, 13),
        },
{
    let b = r.take(13)?;
    let data = [b[0], b[1], b[2], b[3], b[4], b[5], b[6], b[7], b[8], b[9], b[10], b[11], b[12]];
    proof {
        assert(data@ =~= b@);
    }
    Ok(data)
}

/// `String::push` of the standard library puts the character at the end of
/// the text and leaves the rest as it was.
pub assume_specification[ String::push ](s: &mut String, ch: char)
    ensures
        final(s)@ == old(s)@.push(ch),
;

/// The characters of some bytes: each byte is the code of its character.
pub open spec fn text_of(bytes: Seq<u8>) -> Seq<char> {
    bytes.map_values(|b: u8| b as char)
}

/// The first place from `from` on at which the text of `d` ends: the place
/// of a line feed, the thirteenth place, or the end of `d`.
pub open spec fn line_end(d: Seq<u8>, from: int) -> int
    decreases 13 - from,
{
    if from >= 13 || from >= d.len() || d[from] == LINE_FEED {
        from
    } else {
        line_end(d, from + 1)
    }
}

/// The first place from `from` on at which the blanks of `d` end: the place
/// of a byte that is no blank, the thirteenth place, or the end of `d`.
pub open spec fn blanks_end(d: Seq<u8>, from: int) -> int
    decreases 13 - from,
{
    if from >= 13 || from >= d.len() || d[from] != BLANK {
        from
    } else {
        blanks_end(d, from + 1)
    }
}

/// What the thirteen data bytes of a text descriptor, read in order, come
/// to. The text runs up to the first line feed, or fills all thirteen
/// places. Every byte after the line feed has to be a blank.
pub open spec fn decode_text(d: Seq<u8>) -> Result<Seq<char>, DecodeError> {
    let end = line_end(d, 0);
    if end >= 13 {
        Ok(text_of(d.take(13)))
    } else if end >= d.len() {
        Err(DecodeError::UnexpectedEndOfData)
    } else {
        let stop = blanks_end(d, end + 1);
        if stop >= 13 {
            Ok(text_of(d.take(end)))
        } else if stop >= d.len() {
            Err(DecodeError::UnexpectedEndOfData)
        } else {
            Err(DecodeError::MalformedDescriptor)
        }
    }
}

/// Where no byte from `from` up to `end` is a line feed, and the text can
/// go no further than `end`, the text ends at `end`.
pub proof fn lemma_line_end(d: Seq<u8>, from: int, end: int)
    requires
        0 <= from <= end <= 13,
        end <= d.len(),
        forall|j: int| from <= j < end ==> d[j] != LINE_FEED,
        end == 13 || end == d.len() || d[end] == LINE_FEED,
    ensures
        line_end(d, from) == end,
    decreases end - from,
{
    if from < end {
        lemma_line_end(d, from + 1, end);
    }
}

/// Where every byte from `from` up to `end` is a blank, and the blanks can
/// go no further than `end`, they end at `end`.
pub proof fn lemma_blanks_end(d: Seq<u8>, from: int, end: int)
    requires
        0 <= from <= end <= 13,
        end <= d.len(),
        forall|j: int| from <= j < end ==> d[j] == BLANK,
        end == 13 || end == d.len() || d[end] != BLANK,
    ensures
        blanks_end(d, from) == end,
    decreases end - from,
{
    if from < end {
        lemma_blanks_end(d, from + 1, end);
    }
}

/// A text descriptor is not decided before its last byte: without it, the
/// line feed or a blank behind it is still waited for. `end` is the place
/// of the line feed, or the number of the bytes where they hold none.
pub proof fn lemma_text_waits(d: Seq<u8>, end: int)
    requires
        0 < d.len() <= 13,
        0 <= end <= d.len(),
        forall|j: int| 0 <= j < end && j < d.len() - 1 ==> d[j] != LINE_FEED,
        end < d.len() - 1 ==> d[end] == LINE_FEED,
        forall|j: int| end < j < d.len() - 1 ==> d[j] == BLANK,
    ensures
        unsettled(decode_text(d.drop_last())),
{
    let p = d.drop_last();
    let e = if end < p.len() { end } else { p.len() as int };
    lemma_line_end(p, 0, e);
    if e < p.len() {
        lemma_blanks_end(p, e + 1, p.len() as int);
    }
}

/// Reads the thirteen data bytes of a text descriptor.
pub fn parse_text<T: Read>(r: &mut Reader<T>) -> (res: Result<String, DecodeError>)
    ensures
        final(r).follows(old(r)),
        final(r).since(old(r)).len() > 0 ==> unsettled(
            decode_text(final(r).since(old(r)).drop_last()),
        ),
        final(r).since(old(r)).len() <= 13,
        res matches Err(e) ==> e.from_source() ==> final(r).stopped(old(r), e, 13),
        match res {
            Ok(text) => final(r).since(old(r)).len() == 13 && decode_text(final(r).since(old(r)))
                == Ok::<Seq<char>, DecodeError>(text@),
            Err(e) => fails_as(e, decode_text(final(r).since(old(r)))),
        },
{
    let ghost start = r.mark();
    let mut text = String::new();
    proof {
        lemma_no_step(start);
    }
    let mut n: usize = 0;
    let mut ended = false;
    while n < 13 && !ended
        invariant
            start == old(r).mark(),
            r.mark().follows(start),
            r.mark().since(start).len() == n,
            n <= 13,
            ended ==> n >= 1 && r.mark().since(start)[n - 1] == LINE_FEED,
            forall|j: int|
                0 <= j < n - (if ended { 1int } else { 0int }) ==> r.mark().since(start)[j] != LINE_FEED,
            text@ == text_of(
                r.mark().since(start).take(n - (if ended { 1int } else { 0int })),
            ),
        decreases 13 - n + (if ended { 0int } else { 1int }),
    {
        let ghost before = r.mark();
        let next = r.read_u8();
        proof {
            lemma_steps(start, before, r.mark());
        }
        let byte = match next {
            Ok(b) => b,
            Err(e) => {
                proof {
                    lemma_line_end(r.mark().since(start), 0, n as int);
                    if n > 0 {
                        lemma_text_waits(r.mark().since(start), n as int);
                    }
                }
                return Err(e);
            },
        };
        if byte == LINE_FEED {
            ended = true;
            proof {
                assert(r.mark().since(start).take(n as int) =~= before.since(start).take(n as int));
            }
        } else {
            text.push(byte as char);
            proof {
                assert(text@ =~= text_of(r.mark().since(start).take(n + 1)));
            }
        }
        n = n + 1;
    }
    let ghost end: int = n - (if ended { 1int } else { 0int });
    if !ended {
        proof {
            lemma_line_end(r.mark().since(start), 0, 13);
            lemma_text_waits(r.mark().since(start), 13);
        }
        return Ok(text);
    }
    while n < 13
        invariant
            start == old(r).mark(),
            r.mark().follows(start),
            r.mark().since(start).len() == n,
            n <= 13,
            0 <= end < n,
            r.mark().since(start)[end] == LINE_FEED,
            forall|j: int| 0 <= j < end ==> r.mark().since(start)[j] != LINE_FEED,
            forall|j: int| end < j < n ==> r.mark().since(start)[j] == BLANK,
            text@ == text_of(r.mark().since(start).take(end)),
        decreases 13 - n,
    {
        let ghost before = r.mark();
        let next = r.read_u8();
        proof {
            lemma_steps(start, before, r.mark());
            let d = r.mark().since(start);
            let was = before.since(start);
            assert(d.take(end) =~= was.take(end));
            assert(forall|j: int| 0 <= j < n ==> d[j] == was[j]);
            lemma_line_end(d, 0, end);
        }
        let byte = match next {
            Ok(b) => b,
            Err(e) => {
                proof {
                    lemma_blanks_end(r.mark().since(start), end + 1, n as int);
                    lemma_text_waits(r.mark().since(start), end);
                }
                return Err(e);
            },
        };
        if byte != BLANK {
            proof {
                lemma_blanks_end(r.mark().since(start), end + 1, n as int);
                lemma_text_waits(r.mark().since(start), end);
            }
            return Err(DecodeError::MalformedDescriptor);
        }
        n = n + 1;
    }
    proof {
        lemma_line_end(r.mark().since(start), 0, end);
        lemma_blanks_end(r.mark().since(start), end + 1, 13);
        lemma_text_waits(r.mark().since(start), end);
    }
    Ok(text)
}

/// The range limits that thirteen data bytes encode, but for the secondary
/// timing, which is given: the lowest and highest vertical rate, the lowest
/// and highest horizontal rate in kHz, and the highest pixel clock in units
/// of 10 MHz.
pub open spec fn limits_of(d: Seq<u8>, secondary_timing: SecondaryTimingView) -> MonitorDescriptorView {
    MonitorDescriptorView::RangeLimits {
        vertical_rate: (d[0], d[1]),
        horizontal_rate: ((d[2] as int * 1000) as u32, (d[3] as int * 1000) as u32),
        pixel_clock: (d[4] as int * 10000000) as u32,
        secondary_timing,
    }
}

/// The parameters of the general timing formula that the last six data
/// bytes encode: the start rate in units of 2 kHz, then `c`, `m` as a word,
/// `k` and `j`.
pub open spec fn formula_of(d: Seq<u8>) -> SecondaryTimingView {
    SecondaryTimingView::GTF {
        start_horizontal_freq: (d[7] as int * 2000) as u32,
        c: d[8],
        m: le16(d.subrange(9, 11)),
        k: d[11],
        j: d[12],
    }
}

/// What the thirteen data bytes of a range limits descriptor, read in
/// order, come to. The sixth byte selects the secondary timing. With 0
/// there is none, and a line feed and six blanks have to follow. With 2 a
/// zero byte has to follow, and then the parameters of the formula. Any
/// other selector is kept with the seven bytes after it.
pub open spec fn decode_range_limits(d: Seq<u8>) -> Result<MonitorDescriptorView, DecodeError> {
    if d.len() < 6 {
        Err(DecodeError::UnexpectedEndOfData)
    } else if d[5] == 0 {
        expect_byte(
            d,
            6,
            LINE_FEED,
            expect_blanks(
                d,
                7,
                expect_blanks(
                    d,
                    9,
                    expect_blanks(d, 11, Ok(limits_of(d, SecondaryTimingView::Absent))),
                ),
            ),
        )
    } else if d[5] == 2 {
        expect_byte(
            d,
            6,
            0,
            if d.len() < 13 {
                Err(DecodeError::UnexpectedEndOfData)
            } else {
                Ok(limits_of(d, formula_of(d)))
            },
        )
    } else if d.len() < 13 {
        Err(DecodeError::UnexpectedEndOfData)
    } else {
        Ok(limits_of(d, SecondaryTimingView::Other(d[5], d.subrange(6, 13))))
    }
}

/// Reads what follows the selector of a secondary timing.
fn parse_secondary_timing<T: Read>(r: &mut Reader<T>, head: Ghost<Seq<u8>>, selector: u8) -> (res:
    Result<SecondaryTiming, DecodeError>)
    requires
        head@.len() == 6,
        head@[5] == selector,
    ensures
        final(r).follows(old(r)),
        final(r).since(old(r)).len() > 0 ==> unsettled(
            decode_range_limits((head@ + final(r).since(old(r))).drop_last()),
        ),
        final(r).since(old(r)).len() <= 7,
        res matches Err(e) ==> e.from_source() ==> final(r).stopped(old(r), e, 7),
        match res {
            Ok(secondary) => final(r).since(old(r)).len() == 7 && decode_range_limits(
                head@ + final(r).since(old(r)),
            ) == Ok::<MonitorDescriptorView, DecodeError>(
                limits_of(head@ + final(r).since(old(r)), secondary@),
            ),
            Err(e) => fails_as(e, decode_range_limits(head@ + final(r).since(old(r)))),
        },
{
    let ghost t0 = r.mark();
    if selector == 0 {
        read_expected(r, LINE_FEED)?;
        let ghost t1 = r.mark();
        let first = read_blanks(r);
        proof {
            lemma_steps(t0, t1, r.mark());
        }
        first?;
        let ghost t2 = r.mark();
        let second = read_blanks(r);
        proof {
            lemma_steps(t0, t2, r.mark());
        }
        second?;
        let ghost t3 = r.mark();
        let third = read_blanks(r);
        proof {
            lemma_steps(t0, t3, r.mark());
        }
        third?;
        Ok(SecondaryTiming::Absent)
    } else if selector == 2 {
        read_expected(r, 0)?;
        let ghost t1 = r.mark();
        let rest = r.take(6);
        proof {
            lemma_steps(t0, t1, r.mark());
        }
        let p = rest?;
        proof {
            let d = head@ + r.mark().since(t0);
            assert(d.subrange(9, 11) =~= seq![p@[2], p@[3]]);
        }
        Ok(
            SecondaryTiming::GTF {
                start_horizontal_freq: p[0] as u32 * 2000,
                c: p[1],
                m: p[2] as u16 + 256 * (p[3] as u16),
                k: p[4],
                j: p[5],
            },
        )
    } else {
        let b = r.take(7)?;
        let data = [b[0], b[1], b[2], b[3], b[4], b[5], b[6]];
        proof {
            let d = head@ + r.mark().since(t0);
            assert(data@ =~= d.subrange(6, 13));
        }
        Ok(SecondaryTiming::Other(selector, data))
    }
}

/// Reads the thirteen data bytes of a range limits descriptor.
pub fn parse_range_limits<T: Read>(r: &mut Reader<T>) -> (res: Result<MonitorDescriptor, DecodeError>)
    ensures
        final(r).follows(old(r)),
        final(r).since(old(r)).len() > 0 ==> unsettled(
            decode_range_limits(final(r).since(old(r)).drop_last()),
        ),
        final(r).since(old(r)).len() <= 13,
        res matches Err(e) ==> e.from_source() ==> final(r).stopped(old(r), e, 13),
        match res {
            Ok(limits) => final(r).since(old(r)).len() == 13 && decode_range_limits(
                final(r).since(old(r)),
            ) == Ok::<MonitorDescriptorView, DecodeError>(limits@),
            Err(e) => fails_as(e, decode_range_limits(final(r).since(old(r)))),
        },
{
    let ghost t0 = r.mark();
    let head = r.take(6)?;
    let ghost t1 = r.mark();
    let secondary = parse_secondary_timing(r, Ghost(head@), head[5]);
    proof {
        lemma_steps(t0, t1, r.mark());
    }
    let secondary_timing = secondary?;
    Ok(
        MonitorDescriptor::RangeLimits {
            vertical_rate: (head[0], head[1]),
            horizontal_rate: (head[2] as u32 * 1000, head[3] as u32 * 1000),
            pixel_clock: head[4] as u32 * 10000000,
            secondary_timing,
        },
    )
}

/// What the thirteen data bytes of a descriptor of further standard
/// timings, read in order, come to: six byte pairs and a line feed.
pub open spec fn decode_standard_timings(d: Seq<u8>) -> Result<Seq<StandardTiming>, DecodeError> {
    if d.len() < 12 {
        Err(DecodeError::UnexpectedEndOfData)
    } else {
        expect_byte(d, 12, LINE_FEED, Ok(StandardTiming::entries(d, 6)))
    }
}

/// Reads the thirteen data bytes of a descriptor of further standard
/// timings.
pub fn parse_standard_timings<T: Read>(r: &mut Reader<T>) -> (res: Result<
    Vec<StandardTiming>,
    DecodeError,
>)
    ensures
        final(r).follows(old(r)),
        final(r).since(old(r)).len() > 0 ==> unsettled(
            decode_standard_timings(final(r).since(old(r)).drop_last()),
        ),
        final(r).since(old(r)).len() <= 13,
        res matches Err(e) ==> e.from_source() ==> final(r).stopped(old(r), e, 13),
        match res {
            Ok(modes) => final(r).since(old(r)).len() == 13 && decode_standard_timings(
                final(r).since(old(r)),
            ) == Ok::<Seq<StandardTiming>, DecodeError>(modes@),
            Err(e) => fails_as(e, decode_standard_timings(final(r).since(old(r)))),
        },
{
    let ghost t0 = r.mark();
    let b = r.take(12)?;
    let mut modes: Vec<StandardTiming> = Vec::new();
    StandardTiming::collect(b.as_slice(), &mut modes);
    let ghost t1 = r.mark();
    let end = read_expected(r, LINE_FEED);
    proof {
        lemma_steps(t0, t1, r.mark());
        StandardTiming::lemma_entries_same(b@, r.mark().since(t0), 6);
        assert(modes@ =~= StandardTiming::entries(b@, 6));
    }
    end?;
    Ok(modes)
}

/// The white points that the first ten data bytes encode: two of five
/// bytes each, or the first alone where its index is 0.
pub open spec fn white_points_of(d: Seq<u8>) -> Seq<WhitePoint> {
    if d[0] == 0 {
        seq![WhitePoint::of(d.subrange(0, 5))]
    } else {
        seq![WhitePoint::of(d.subrange(0, 5)), WhitePoint::of(d.subrange(5, 10))]
    }
}

/// What the thirteen data bytes of a white point descriptor, read in
/// order, come to: ten bytes of white points, a line feed and two blanks.
pub open spec fn decode_white_points(d: Seq<u8>) -> Result<Seq<WhitePoint>, DecodeError> {
    if d.len() < 10 {
        Err(DecodeError::UnexpectedEndOfData)
    } else {
        expect_byte(d, 10, LINE_FEED, expect_blanks(d, 11, Ok(white_points_of(d))))
    }
}

/// Reads the thirteen data bytes of a white point descriptor.
pub fn parse_white_points<T: Read>(r: &mut Reader<T>) -> (res: Result<Vec<WhitePoint>, DecodeError>)
    ensures
        final(r).follows(old(r)),
        final(r).since(old(r)).len() > 0 ==> unsettled(
            decode_white_points(final(r).since(old(r)).drop_last()),
        ),
        final(r).since(old(r)).len() <= 13,
        res matches Err(e) ==> e.from_source() ==> final(r).stopped(old(r), e, 13),
        match res {
            Ok(points) => final(r).since(old(r)).len() == 13 && decode_white_points(
                final(r).since(old(r)),
            ) == Ok::<Seq<WhitePoint>, DecodeError>(points@),
            Err(e) => fails_as(e, decode_white_points(final(r).since(old(r)))),
        },
{
    let ghost t0 = r.mark();
    let b = r.take(10)?;
    let mut points: Vec<WhitePoint> = Vec::new();
    points.push(WhitePoint::from_bytes(b[0], b[1], b[2], b[3], b[4]));
    if b[0] != 0 {
        points.push(WhitePoint::from_bytes(b[5], b[6], b[7], b[8], b[9]));
    }
    proof {
        assert(points@ =~= white_points_of(b@));
    }
    let ghost t1 = r.mark();
    let end = read_expected(r, LINE_FEED);
    proof {
        lemma_steps(t0, t1, r.mark());
        let d = r.mark().since(t0);
        assert(d.subrange(0, 5) =~= b@.subrange(0, 5));
        assert(d.subrange(5, 10) =~= b@.subrange(5, 10));
    }
    end?;
    let ghost t2 = r.mark();
    let guard = read_blanks(r);
    proof {
        lemma_steps(t0, t2, r.mark());
        let d = r.mark().since(t0);
        assert(d.subrange(0, 5) =~= b@.subrange(0, 5));
        assert(d.subrange(5, 10) =~= b@.subrange(5, 10));
    }
    guard?;
    Ok(points)
}

} // verus!
