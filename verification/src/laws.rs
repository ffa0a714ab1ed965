use vstd::prelude::*;
use crate::descriptor::{
    blanks_end, decode_range_limits, decode_standard_timings, decode_text, decode_white_points,
    lemma_blanks_end, lemma_line_end, line_end, MonitorDescriptorView, BLANK, LINE_FEED,
};
use crate::slot::{Gathered, MonitorDescriptors, Slot, SlotView};
use crate::detailed::DetailedTiming;
use crate::edid::{EDIDView, EDID};
use crate::error::{fails_as, unsettled, DecodeError};
use crate::reader::{le16, window, Mark};
use crate::color::ColorCharacteristics;
use crate::edid::Fields;
use crate::product::ProductInformation;
use crate::timings::{EstablishedTiming, StandardTiming, Timings};

verus! {

/// The header is right where it is the eight bytes that open every block,
/// and nowhere else.
pub proof fn lemma_header_is_magic(h: Seq<u8>)
    requires
        h.len() == 8,
    ensures
        EDID::decode_header(h) is Ok <==> h == EDID::magic(),
        EDID::decode_header(h) is Err ==> EDID::decode_header(h) == Err::<(), DecodeError>(
            DecodeError::HeaderInvalid,
        ),
{
    assert(h.skip(4)[0] == h[4]);
    assert(h.skip(4)[1] == h[5]);
    assert(h.skip(4)[2] == h[6]);
    assert(h.skip(4)[3] == h[7]);
    if EDID::decode_header(h) is Ok {
        assert(h =~= EDID::magic());
    }
}

/// A block that does not open with the eight bytes of the header is
/// refused for its header, whatever follows them: the result is that of
/// its first eight bytes alone.
pub proof fn lemma_wrong_header_is_refused(s: Seq<u8>)
    requires
        s.len() >= 8,
        s.take(8) != EDID::magic(),
    ensures
        EDID::decode(s) == Err::<crate::edid::EDIDView, DecodeError>(DecodeError::HeaderInvalid),
        EDID::decode(s.take(8)) == EDID::decode(s),
{
    let h = s.take(8);
    assert(window(s, 0, 8) =~= h);
    assert(window(h, 0, 8) =~= h);
    lemma_header_is_magic(h);
}

/// A slot that opens with a zero pixel clock is never read as a timing: it
/// is what its tag says.
pub proof fn lemma_zero_clock_is_descriptor(s: Seq<u8>)
    requires
        s.len() >= 3,
        s[0] == 0,
        s[1] == 0,
    ensures
        Slot::decode(s) == Slot::decode_descriptor(s.skip(3)),
        !(Slot::decode(s) matches Ok(SlotView::Timing(_))),
{
    reveal(Slot::decode);
    reveal(DetailedTiming::decode);
}

/// In the first slot a zero pixel clock is an error: a block whose header
/// is right and whose first slot opens with one has no preferred timing.
pub proof fn lemma_zero_clock_in_first_slot(s: Seq<u8>)
    requires
        s.len() >= 57,
        s.take(8) == EDID::magic(),
        s[54] == 0,
        s[55] == 0,
    ensures
        MonitorDescriptors::decode_first(window(s, 54, 18)) == Err::<DetailedTiming, DecodeError>(
            DecodeError::MissingPreferredTiming,
        ),
        EDID::decode(s) == Err::<crate::edid::EDIDView, DecodeError>(
            DecodeError::MissingPreferredTiming,
        ),
{
    reveal(MonitorDescriptors::decode);
    reveal(DetailedTiming::decode);
    let h = window(s, 0, 8);
    assert(h =~= s.take(8));
    lemma_header_is_magic(h);
    assert(window(window(s, 54, 72), 0, 18) =~= window(s, 54, 18));
}

/// The byte pair (1, 1) stands for no standard timing: a list of pairs
/// yields the same timings with such a pair as without it.
pub proof fn lemma_filler_pair_adds_nothing(b: Seq<u8>, count: nat, k: int)
    requires
        0 <= k < count,
        b.len() >= 2 * count,
        b[2 * k] == 1,
        b[2 * k + 1] == 1,
    ensures
        StandardTiming::spec_from_pair(1, 1) == None::<StandardTiming>,
        StandardTiming::entries(b, count) == StandardTiming::entries(
            b.subrange(0, 2 * k) + b.subrange(2 * k + 2, b.len() as int),
            (count - 1) as nat,
        ),
    decreases count,
{
    let without = b.subrange(0, 2 * k) + b.subrange(2 * k + 2, b.len() as int);
    if k == count - 1 {
        StandardTiming::lemma_entries_same(b, without, (count - 1) as nat);
    } else {
        lemma_filler_pair_adds_nothing(b.take(2 * (count - 1)), (count - 1) as nat, k);
        let shorter = b.take(2 * (count - 1));
        let shorter_without = shorter.subrange(0, 2 * k) + shorter.subrange(
            2 * k + 2,
            shorter.len() as int,
        );
        StandardTiming::lemma_entries_same(b, shorter, (count - 1) as nat);
        StandardTiming::lemma_entries_same(without, shorter_without, (count - 2) as nat);
        assert(without[2 * (count - 1) - 2] == b[2 * count - 2]);
        assert(without[2 * (count - 1) - 1] == b[2 * count - 1]);
    }
}

/// In a text descriptor whose text ends with a line feed before the
/// thirteenth place, a byte other than a blank between the line feed and
/// the thirteenth place is an error.
pub proof fn lemma_text_needs_blanks(d: Seq<u8>, end: int, k: int)
    requires
        d.len() >= 13,
        0 <= end < k < 13,
        d[end] == LINE_FEED,
        forall|j: int| 0 <= j < end ==> d[j] != LINE_FEED,
        d[k] != BLANK,
    ensures
        decode_text(d) == Err::<Seq<char>, DecodeError>(DecodeError::MalformedDescriptor),
{
    lemma_line_end(d, 0, end);
    let stop = choose|stop: int| end < stop <= k && d[stop] != BLANK && forall|j: int|
        end < j < stop ==> d[j] == BLANK;
    lemma_first_other(d, end + 1, k);
    lemma_blanks_end(d, end + 1, stop);
}

/// Before a byte that is no blank there is a first such byte.
proof fn lemma_first_other(d: Seq<u8>, from: int, k: int)
    requires
        0 <= from <= k < d.len(),
        d[k] != BLANK,
    ensures
        exists|stop: int|
            from - 1 < stop <= k && d[stop] != BLANK && forall|j: int|
                from - 1 < j < stop ==> d[j] == BLANK,
    decreases k - from,
{
    if d[from] != BLANK {
        assert(from - 1 < from <= k && d[from] != BLANK && forall|j: int|
            from - 1 < j < from ==> d[j] == BLANK);
    } else {
        lemma_first_other(d, from + 1, k);
        let stop = choose|stop: int| from < stop <= k && d[stop] != BLANK && forall|j: int|
            from < j < stop ==> d[j] == BLANK;
        assert(from - 1 < stop <= k && d[stop] != BLANK && forall|j: int|
            from - 1 < j < stop ==> d[j] == BLANK);
    }
}

/// The same of the three text descriptors as slots: with tag 0xfc, 0xfe
/// or 0xff, a byte other than a blank behind the line feed makes the slot
/// malformed.
pub proof fn lemma_text_slot_needs_blanks(s: Seq<u8>, end: int, k: int)
    requires
        s.len() >= 18,
        s[0] == 0,
        s[1] == 0,
        s[3] == 0xfc || s[3] == 0xfe || s[3] == 0xff,
        0 <= end < k < 13,
        s[5 + end] == LINE_FEED,
        forall|j: int| 0 <= j < end ==> #[trigger] s[5 + j] != LINE_FEED,
        s[5 + k] != BLANK,
    ensures
        Slot::decode(s) == Err::<SlotView, DecodeError>(DecodeError::MalformedDescriptor),
{
    lemma_zero_clock_is_descriptor(s);
    let d = s.skip(3).skip(2);
    assert forall|j: int| 0 <= j < end implies d[j] != LINE_FEED by {
        assert(d[j] == s[5 + j]);
    }
    assert(d[end] == s[5 + end]);
    assert(d[k] == s[5 + k]);
    lemma_text_needs_blanks(d, end, k);
}

/// A timing whose blanking is shorter than front porch and sync pulse
/// together, on either axis, is refused: no back porch is made up for it.
pub proof fn lemma_short_blanking_is_refused(s: Seq<u8>)
    requires
        s.len() >= 12,
        le16(s) != 0,
        DetailedTiming::blanking(s).0 < DetailedTiming::front_porch(s).0
            + DetailedTiming::sync_length(s).0 || DetailedTiming::blanking(s).1
            < DetailedTiming::front_porch(s).1 + DetailedTiming::sync_length(s).1,
    ensures
        DetailedTiming::decode(s) == Err::<Option<DetailedTiming>, DecodeError>(
            DecodeError::MalformedTimingGeometry,
        ),
        Slot::decode(s) == Err::<SlotView, DecodeError>(DecodeError::MalformedTimingGeometry),
        MonitorDescriptors::decode_first(s) == Err::<DetailedTiming, DecodeError>(
            DecodeError::MalformedTimingGeometry,
        ),
{
    reveal(Slot::decode);
    reveal(DetailedTiming::decode);
}

/// In a timing that is accepted, front porch, sync pulse and back porch
/// make up the blanking exactly, on both axes.
pub proof fn lemma_porches_fill_blanking(s: Seq<u8>)
    requires
        DetailedTiming::decode(s) matches Ok(Some(_)),
    ensures
        ({
            let t = DetailedTiming::decode(s)->Ok_0->Some_0;
            &&& t.front_porch.0 + t.sync_length.0 + t.back_porch.0 == DetailedTiming::blanking(s).0
            &&& t.front_porch.1 + t.sync_length.1 + t.back_porch.1 == DetailedTiming::blanking(s).1
        }),
{
    reveal(DetailedTiming::decode);
}

/// The end of a text that was found within the bytes at hand is its end
/// whatever bytes follow.
pub proof fn lemma_line_end_settled(a: Seq<u8>, b: Seq<u8>, from: int)
    requires
        a.is_prefix_of(b),
        0 <= from,
        line_end(a, from) >= 13 || line_end(a, from) < a.len(),
    ensures
        line_end(b, from) == line_end(a, from),
    decreases 13 - from,
{
    if from < 13 && from < a.len() && a[from] != LINE_FEED {
        lemma_line_end_settled(a, b, from + 1);
    }
}

/// The end of the blanks that was found within the bytes at hand is their
/// end whatever bytes follow.
pub proof fn lemma_blanks_end_settled(a: Seq<u8>, b: Seq<u8>, from: int)
    requires
        a.is_prefix_of(b),
        0 <= from,
        blanks_end(a, from) >= 13 || blanks_end(a, from) < a.len(),
    ensures
        blanks_end(b, from) == blanks_end(a, from),
    decreases 13 - from,
{
    if from < 13 && from < a.len() && a[from] == BLANK {
        lemma_blanks_end_settled(a, b, from + 1);
    }
}

/// The end of a text lies at or behind the place from which it is sought,
/// and within the bytes and the thirteen places where that place does.
pub proof fn lemma_line_end_bounds(d: Seq<u8>, from: int)
    ensures
        line_end(d, from) >= from,
        from <= 13 ==> line_end(d, from) <= 13,
        from <= d.len() ==> line_end(d, from) <= d.len(),
    decreases 13 - from,
{
    if !(from >= 13 || from >= d.len() || d[from] == LINE_FEED) {
        lemma_line_end_bounds(d, from + 1);
    }
}

/// A text descriptor that the bytes at hand decide is decided for good.
pub proof fn lemma_text_settled(a: Seq<u8>, b: Seq<u8>)
    requires
        a.is_prefix_of(b),
        decode_text(a) != Err::<Seq<char>, DecodeError>(DecodeError::UnexpectedEndOfData),
    ensures
        decode_text(b) == decode_text(a),
{
    let end = line_end(a, 0);
    lemma_line_end_bounds(a, 0);
    lemma_line_end_settled(a, b, 0);
    if end >= 13 {
        assert(a.take(13) =~= b.take(13));
    } else {
        lemma_blanks_end_settled(a, b, end + 1);
        assert(a.take(end) =~= b.take(end));
    }
}

/// A range limits descriptor that the bytes at hand decide is decided for
/// good.
pub proof fn lemma_range_limits_settled(a: Seq<u8>, b: Seq<u8>)
    requires
        a.is_prefix_of(b),
        decode_range_limits(a) != Err::<MonitorDescriptorView, DecodeError>(
            DecodeError::UnexpectedEndOfData,
        ),
    ensures
        decode_range_limits(b) == decode_range_limits(a),
{
    if a.len() >= 13 {
        assert(a.subrange(6, 13) =~= b.subrange(6, 13));
        assert(a.subrange(9, 11) =~= b.subrange(9, 11));
    }
}

/// A descriptor of standard timings that the bytes at hand decide is
/// decided for good.
pub proof fn lemma_standard_timings_settled(a: Seq<u8>, b: Seq<u8>)
    requires
        a.is_prefix_of(b),
        decode_standard_timings(a) != Err::<Seq<StandardTiming>, DecodeError>(
            DecodeError::UnexpectedEndOfData,
        ),
    ensures
        decode_standard_timings(b) == decode_standard_timings(a),
{
    StandardTiming::lemma_entries_same(a, b, 6);
}

/// A white point descriptor that the bytes at hand decide is decided for
/// good.
pub proof fn lemma_white_points_settled(a: Seq<u8>, b: Seq<u8>)
    requires
        a.is_prefix_of(b),
        decode_white_points(a) != Err::<Seq<crate::color::WhitePoint>, DecodeError>(
            DecodeError::UnexpectedEndOfData,
        ),
    ensures
        decode_white_points(b) == decode_white_points(a),
{
    assert(a.subrange(0, 5) =~= b.subrange(0, 5));
    assert(a.subrange(5, 10) =~= b.subrange(5, 10));
}

/// A descriptor that the bytes at hand decide is decided for good.
pub proof fn lemma_descriptor_settled(a: Seq<u8>, b: Seq<u8>)
    requires
        a.is_prefix_of(b),
        Slot::decode_descriptor(a) != Err::<SlotView, DecodeError>(DecodeError::UnexpectedEndOfData),
    ensures
        Slot::decode_descriptor(b) == Slot::decode_descriptor(a),
{
    let da = a.skip(2);
    let db = b.skip(2);
    assert(da.is_prefix_of(db)) by {
        assert(da =~= db.subrange(0, da.len() as int));
    }
    let tag = a[0];
    if tag <= 0xf9 {
        assert(da.take(13) =~= db.take(13));
    } else if tag == 0xfa {
        lemma_standard_timings_settled(da, db);
    } else if tag == 0xfb {
        lemma_white_points_settled(da, db);
    } else if tag == 0xfd {
        lemma_range_limits_settled(da, db);
    } else {
        lemma_text_settled(da, db);
    }
}

/// A slot read as a timing that the bytes at hand decide is decided for
/// good.
pub proof fn lemma_timing_settled(a: Seq<u8>, b: Seq<u8>)
    requires
        a.is_prefix_of(b),
        DetailedTiming::decode(a) != Err::<Option<DetailedTiming>, DecodeError>(
            DecodeError::UnexpectedEndOfData,
        ),
    ensures
        DetailedTiming::decode(b) == DetailedTiming::decode(a),
{
    reveal(DetailedTiming::decode);
}

/// A slot that the bytes at hand decide is decided for good.
pub proof fn lemma_slot_settled(a: Seq<u8>, b: Seq<u8>)
    requires
        a.is_prefix_of(b),
        Slot::decode(a) != Err::<SlotView, DecodeError>(DecodeError::UnexpectedEndOfData),
    ensures
        Slot::decode(b) == Slot::decode(a),
{
    reveal(Slot::decode);
    lemma_timing_settled(a, b);
    if DetailedTiming::decode(a) == Ok::<Option<DetailedTiming>, DecodeError>(None) {
        reveal(DetailedTiming::decode);
        assert(a.skip(3).is_prefix_of(b.skip(3))) by {
            assert(a.skip(3) =~= b.skip(3).subrange(0, a.len() - 3));
        }
        lemma_descriptor_settled(a.skip(3), b.skip(3));
    }
}

/// A part of the bytes at hand lies at the front of the same part of more
/// bytes, and is that part where it is whole.
pub proof fn lemma_window_grows(a: Seq<u8>, b: Seq<u8>, at: int, n: int)
    requires
        a.is_prefix_of(b),
        0 <= at,
        0 <= n,
    ensures
        window(a, at, n).is_prefix_of(window(b, at, n)),
        a.len() >= at + n ==> window(b, at, n) == window(a, at, n),
{
    let wa = window(a, at, n);
    let wb = window(b, at, n);
    assert(wa =~= wb.subrange(0, wa.len() as int));
    if a.len() >= at + n {
        assert(wa =~= wb);
    }
}

/// Four slots that the bytes at hand decide are decided for good.
pub proof fn lemma_slots_settled(a: Seq<u8>, b: Seq<u8>)
    requires
        a.is_prefix_of(b),
        MonitorDescriptors::decode(a) != Err::<Gathered, DecodeError>(
            DecodeError::UnexpectedEndOfData,
        ),
    ensures
        MonitorDescriptors::decode(b) == MonitorDescriptors::decode(a),
{
    reveal(MonitorDescriptors::decode);
    lemma_window_grows(a, b, 0, 18);
    lemma_window_grows(a, b, 18, 18);
    lemma_window_grows(a, b, 36, 18);
    lemma_window_grows(a, b, 54, 18);
    if DetailedTiming::decode(window(a, 0, 18)) != Err::<Option<DetailedTiming>, DecodeError>(
        DecodeError::UnexpectedEndOfData,
    ) {
        lemma_timing_settled(window(a, 0, 18), window(b, 0, 18));
        if MonitorDescriptors::decode_first(window(a, 0, 18)) is Ok {
            lemma_slot_settled(window(a, 18, 18), window(b, 18, 18));
            if Slot::decode(window(a, 18, 18)) is Ok {
                lemma_slot_settled(window(a, 36, 18), window(b, 36, 18));
                if Slot::decode(window(a, 36, 18)) is Ok {
                    lemma_slot_settled(window(a, 54, 18), window(b, 54, 18));
                }
            }
        }
    }
}

/// What is decided stays decided: where the bytes at hand give a record or
/// an error other than the want of more bytes, any bytes behind them change
/// nothing. So no byte behind the one that decides is looked at.
pub proof fn lemma_decided_for_good(a: Seq<u8>, b: Seq<u8>)
    requires
        a.is_prefix_of(b),
        EDID::decode(a) != Err::<EDIDView, DecodeError>(DecodeError::UnexpectedEndOfData),
    ensures
        EDID::decode(b) == EDID::decode(a),
{
    lemma_window_grows(a, b, 0, 8);
    lemma_window_grows(a, b, 54, 72);
    let ha = window(a, 0, 8);
    let hb = window(b, 0, 8);
    if ha.len() >= 8 {
        assert(ha.skip(4) =~= hb.skip(4));
    }
    if EDID::decode_header(ha) is Ok {
        lemma_slots_settled(window(a, 54, 72), window(b, 54, 72));
        if a.len() >= 127 {
            assert(a.subrange(8, 54) =~= b.subrange(8, 54));
        }
    }
}

/// Where the bytes at hand without the last one decide nothing, no shorter
/// beginning of them decides anything: the last byte is the first with
/// which the result stands.
pub proof fn lemma_last_byte_decides(a: Seq<u8>, n: int)
    requires
        a.len() > 0,
        unsettled(EDID::decode(a.drop_last())),
        0 <= n < a.len(),
    ensures
        unsettled(EDID::decode(a.take(n))),
{
    if !unsettled(EDID::decode(a.take(n))) {
        assert(a.take(n).is_prefix_of(a.drop_last())) by {
            assert(a.take(n) =~= a.drop_last().subrange(0, n));
        }
        lemma_decided_for_good(a.take(n), a.drop_last());
    }
}

/// A slot yields white points whose coordinates are below one.
pub proof fn lemma_slot_white_points(s: Seq<u8>)
    requires
        Slot::decode(s) matches Ok(SlotView::WhitePoints(_)),
    ensures
        ({
            let points = Slot::decode(s)->Ok_0->WhitePoints_0;
            forall|i: int| 0 <= i < points.len() ==> (#[trigger] points[i]).wf()
        }),
{
    reveal(Slot::decode);
    reveal(DetailedTiming::decode);
}

/// The yield of four slots begins with the preferred timing, holds at most
/// one timing or descriptor for each slot, and only white points whose
/// coordinates are below one.
pub proof fn lemma_slots_yield(s: Seq<u8>)
    requires
        MonitorDescriptors::decode(s) is Ok,
    ensures
        ({
            let g = MonitorDescriptors::decode(s)->Ok_0;
            &&& g.detailed_timings.len() >= 1
            &&& g.detailed_timings.len() + g.descriptors.len() <= 4
            &&& forall|i: int| 0 <= i < g.white_points.len() ==> (#[trigger] g.white_points[i]).wf()
        }),
{
    reveal(MonitorDescriptors::decode);
    let second = Slot::decode(window(s, 18, 18));
    let third = Slot::decode(window(s, 36, 18));
    let fourth = Slot::decode(window(s, 54, 18));
    if second matches Ok(SlotView::WhitePoints(_)) {
        lemma_slot_white_points(window(s, 18, 18));
    }
    if third matches Ok(SlotView::WhitePoints(_)) {
        lemma_slot_white_points(window(s, 36, 18));
    }
    if fourth matches Ok(SlotView::WhitePoints(_)) {
        lemma_slot_white_points(window(s, 54, 18));
    }
}

/// Every record that comes of decoding holds together.
pub proof fn lemma_record_holds_together(s: Seq<u8>)
    requires
        EDID::decode(s) is Ok,
    ensures
        EDID::decode(s)->Ok_0.wf(),
{
    reveal(Fields::of);
    reveal(ProductInformation::of);
    reveal(ColorCharacteristics::of);
    reveal(Timings::of);
    lemma_slots_yield(window(s, 54, 72));
    let tables = s.subrange(8, 54).subrange(27, 46);
    EstablishedTiming::lemma_from_bits_ascending(le16(tables), tables[2]);
}

/// True of a way to decode in which what is decided stays decided,
/// whatever bytes follow.
pub open spec fn settles<V>(d: spec_fn(Seq<u8>) -> Result<V, DecodeError>) -> bool {
    forall|a: Seq<u8>, b: Seq<u8>|
        a.is_prefix_of(b) && !unsettled(#[trigger] d(a)) ==> #[trigger] d(b) == d(a)
}

/// True where `res` is what a function that reads as `d` decodes returned
/// on taking a reader from `before` to `after`: the result is what the
/// bytes taken decode to, or the failure of the source where they decide
/// nothing; nothing was decided before the last byte taken; and an error
/// of the source came only once the buffer was used up.
pub open spec fn read_as<V>(
    d: spec_fn(Seq<u8>) -> Result<V, DecodeError>,
    before: Mark,
    after: Mark,
    res: Result<V, DecodeError>,
) -> bool {
    &&& after.follows(before)
    &&& after.since(before).len() > 0 ==> unsettled(d(after.since(before).drop_last()))
    &&& match res {
        Ok(v) => d(after.since(before)) == Ok::<V, DecodeError>(v),
        Err(e) => fails_as(e, d(after.since(before))),
    }
    &&& res matches Err(e) ==> e.from_source() ==> before.buffered.len() <= after.since(
        before,
    ).len()
}

/// The buffer comes first, and it is enough where it decides: a function
/// that reads as `d` decodes returns, on a reader whose buffer decides,
/// what the buffer decodes to, whatever source the reader has.
pub proof fn lemma_buffer_decides<V>(
    d: spec_fn(Seq<u8>) -> Result<V, DecodeError>,
    before: Mark,
    after: Mark,
    res: Result<V, DecodeError>,
)
    requires
        settles(d),
        read_as(d, before, after, res),
        !unsettled(d(before.buffered)),
    ensures
        res == d(before.buffered),
        after.since(before).is_prefix_of(before.buffered),
{
    reveal(Mark::follows);
    let buffered = before.buffered;
    let taken = after.since(before);
    if taken.len() > buffered.len() {
        assert(buffered.is_prefix_of(taken.drop_last())) by {
            assert(buffered =~= taken.drop_last().subrange(0, buffered.len() as int));
        }
        assert(d(taken.drop_last()) == d(buffered));
    } else if res matches Err(e) && e.from_source() {
        assert(taken =~= buffered);
    } else {
        assert(taken.is_prefix_of(buffered));
        assert(d(buffered) == d(taken));
    }
}

/// How a slot is decoded as a timing, as a function of its bytes.
pub open spec fn timing_decoder() -> spec_fn(Seq<u8>) -> Result<Option<DetailedTiming>, DecodeError> {
    |s: Seq<u8>| DetailedTiming::decode(s)
}

/// How a slot is decoded, as a function of its bytes.
pub open spec fn slot_decoder() -> spec_fn(Seq<u8>) -> Result<SlotView, DecodeError> {
    |s: Seq<u8>| Slot::decode(s)
}

/// How the four slots are decoded, as a function of their bytes.
pub open spec fn slots_decoder() -> spec_fn(Seq<u8>) -> Result<Gathered, DecodeError> {
    |s: Seq<u8>| MonitorDescriptors::decode(s)
}

/// How a block is decoded, as a function of its bytes.
pub open spec fn block_decoder() -> spec_fn(Seq<u8>) -> Result<EDIDView, DecodeError> {
    |s: Seq<u8>| EDID::decode(s)
}

/// In each of the four ways to decode, what is decided stays decided.
pub proof fn lemma_decoders_settle()
    ensures
        settles(timing_decoder()),
        settles(slot_decoder()),
        settles(slots_decoder()),
        settles(block_decoder()),
{
    assert forall|a: Seq<u8>, b: Seq<u8>|
        a.is_prefix_of(b) && !unsettled(#[trigger] timing_decoder()(a)) implies #[trigger] timing_decoder()(
        b,
    ) == timing_decoder()(a) by {
        lemma_timing_settled(a, b);
    }
    assert forall|a: Seq<u8>, b: Seq<u8>|
        a.is_prefix_of(b) && !unsettled(#[trigger] slot_decoder()(a)) implies #[trigger] slot_decoder()(
        b,
    ) == slot_decoder()(a) by {
        lemma_slot_settled(a, b);
    }
    assert forall|a: Seq<u8>, b: Seq<u8>|
        a.is_prefix_of(b) && !unsettled(#[trigger] slots_decoder()(a)) implies #[trigger] slots_decoder()(
        b,
    ) == slots_decoder()(a) by {
        lemma_slots_settled(a, b);
    }
    assert forall|a: Seq<u8>, b: Seq<u8>|
        a.is_prefix_of(b) && !unsettled(#[trigger] block_decoder()(a)) implies #[trigger] block_decoder()(
        b,
    ) == block_decoder()(a) by {
        lemma_decided_for_good(a, b);
    }
}

} // verus!
