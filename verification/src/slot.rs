use vstd::prelude::*;
use crate::color::WhitePoint;
use crate::descriptor::{
    decode_range_limits, decode_standard_timings, decode_text, decode_white_points, parse_range_limits,
    parse_raw, parse_standard_timings, parse_text, parse_white_points, MonitorDescriptor,
    MonitorDescriptorView,
};
use crate::detailed::DetailedTiming;
use crate::error::{fails_as, unsettled, DecodeError};
use crate::reader::{lemma_behind, lemma_steps, window, Read, Reader};
use crate::timings::StandardTiming;

verus! {

/// What one eighteen-byte slot holds.
#[derive(Debug, Clone, PartialEq, Eq)]
pub enum Slot {
    Timing(DetailedTiming),
    Descriptor(MonitorDescriptor),
    /// Standard timings beyond those of the timing tables.
    StandardTimings(Vec<StandardTiming>),
    WhitePoints(Vec<WhitePoint>),
    /// Nothing: the slot is not used.
    Padding,
}

/// What a `Slot` holds, with sequences for its lists.
pub enum SlotView {
    Timing(DetailedTiming),
    Descriptor(MonitorDescriptorView),
    StandardTimings(Seq<StandardTiming>),
    WhitePoints(Seq<WhitePoint>),
    Padding,
}

impl View for Slot {
    type V = SlotView;

    open spec fn view(&self) -> SlotView {
        match *self {
            Slot::Timing(timing) => SlotView::Timing(timing),
            Slot::Descriptor(descriptor) => SlotView::Descriptor(descriptor@),
            Slot::StandardTimings(modes) => SlotView::StandardTimings(modes@),
            Slot::WhitePoints(points) => SlotView::WhitePoints(points@),
            Slot::Padding => SlotView::Padding,
        }
    }
}

impl Slot {
    /// The descriptor that a tag makes of a text.
    pub open spec fn text_descriptor(tag: u8, text: Seq<char>) -> MonitorDescriptorView {
        if tag == 0xfc {
            MonitorDescriptorView::MonitorName(text)
        } else if tag == 0xfe {
            MonitorDescriptorView::OtherString(text)
        } else {
            MonitorDescriptorView::SerialNumber(text)
        }
    }

    /// What the fifteen bytes of a slot after its zero pixel clock and the
    /// byte behind it, read in order, come to. The first is the tag, the
    /// second means nothing, and the tag says how to read the thirteen data
    /// bytes. Tags up to 0x0f belong to the maker, 0x10 marks a slot that
    /// is not used, and the tags from 0x11 to 0xf9 are not defined: all of
    /// these take their thirteen bytes as they stand.
    pub open spec fn decode_descriptor(s: Seq<u8>) -> Result<SlotView, DecodeError> {
        if s.len() < 2 {
            Err(DecodeError::UnexpectedEndOfData)
        } else {
            let tag = s[0];
            let d = s.skip(2);
            if tag <= 0xf9 {
                if d.len() < 13 {
                    Err(DecodeError::UnexpectedEndOfData)
                } else if tag <= 0x0f {
                    Ok(SlotView::Descriptor(MonitorDescriptorView::ManufacturerDefined(tag, d.take(13))))
                } else if tag == 0x10 {
                    Ok(SlotView::Padding)
                } else {
                    Ok(SlotView::Descriptor(MonitorDescriptorView::Undefined(tag, d.take(13))))
                }
            } else if tag == 0xfa {
                match decode_standard_timings(d) {
                    Ok(modes) => Ok(SlotView::StandardTimings(modes)),
                    Err(e) => Err(e),
                }
            } else if tag == 0xfb {
                match decode_white_points(d) {
                    Ok(points) => Ok(SlotView::WhitePoints(points)),
                    Err(e) => Err(e),
                }
            } else if tag == 0xfd {
                match decode_range_limits(d) {
                    Ok(limits) => Ok(SlotView::Descriptor(limits)),
                    Err(e) => Err(e),
                }
            } else {
                match decode_text(d) {
                    Ok(text) => Ok(SlotView::Descriptor(Self::text_descriptor(tag, text))),
                    Err(e) => Err(e),
                }
            }
        }
    }

    /// What the eighteen bytes of a slot, read in order, come to: a timing
    /// where the pixel clock is not zero, and otherwise what the tag says.
    #[verifier::opaque]
    pub open spec fn decode(s: Seq<u8>) -> Result<SlotView, DecodeError> {
        match DetailedTiming::decode(s) {
            Err(e) => Err(e),
            Ok(Some(timing)) => Ok(SlotView::Timing(timing)),
            Ok(None) => Self::decode_descriptor(s.skip(3)),
        }
    }

    /// Reads the fifteen bytes of a slot that follow its zero pixel clock
    /// and the byte behind it.
    pub fn parse_descriptor<T: Read>(r: &mut Reader<T>) -> (res: Result<Slot, DecodeError>)
        ensures
            final(r).follows(old(r)),
            final(r).since(old(r)).len() > 0 ==> unsettled(
                Self::decode_descriptor(final(r).since(old(r)).drop_last()),
            ),
            final(r).since(old(r)).len() <= 15,
            res matches Err(e) ==> e.from_source() ==> final(r).stopped(old(r), e, 15),
            res matches Err(e) ==> e != DecodeError::HeaderInvalid,
            match res {
                Ok(slot) => final(r).since(old(r)).len() == 15 && Self::decode_descriptor(
                    final(r).since(old(r)),
                ) == Ok::<SlotView, DecodeError>(slot@),
                Err(e) => fails_as(e, Self::decode_descriptor(final(r).since(old(r)))),
            },
    {
        let ghost t0 = r.mark();
        let head = r.take(2)?;
        let tag = head[0];
        let ghost t1 = r.mark();
        let found = if tag <= 0xf9 {
            match parse_raw(r) {
                Ok(data) => if tag <= 0x0f {
                    Ok(Slot::Descriptor(MonitorDescriptor::ManufacturerDefined(tag, data)))
                } else if tag == 0x10 {
                    Ok(Slot::Padding)
                } else {
                    Ok(Slot::Descriptor(MonitorDescriptor::Undefined(tag, data)))
                },
                Err(e) => Err(e),
            }
        } else if tag == 0xfa {
            match parse_standard_timings(r) {
                Ok(modes) => Ok(Slot::StandardTimings(modes)),
                Err(e) => Err(e),
            }
        } else if tag == 0xfb {
            match parse_white_points(r) {
                Ok(points) => Ok(Slot::WhitePoints(points)),
                Err(e) => Err(e),
            }
        } else if tag == 0xfd {
            match parse_range_limits(r) {
                Ok(limits) => Ok(Slot::Descriptor(limits)),
                Err(e) => Err(e),
            }
        } else {
            match parse_text(r) {
                Ok(text) => if tag == 0xfc {
                    Ok(Slot::Descriptor(MonitorDescriptor::MonitorName(text)))
                } else if tag == 0xfe {
                    Ok(Slot::Descriptor(MonitorDescriptor::OtherString(text)))
                } else {
                    Ok(Slot::Descriptor(MonitorDescriptor::SerialNumber(text)))
                },
                Err(e) => Err(e),
            }
        };
        proof {
            lemma_steps(t0, t1, r.mark());
            lemma_behind(t0, t1, r.mark());
            let data = r.mark().since(t1);
            if data.len() == 13 {
                assert(data.take(13) =~= data);
            }
        }
        found
    }

    /// Reads one slot.
    pub fn parse<T: Read>(r: &mut Reader<T>) -> (res: Result<Slot, DecodeError>)
        ensures
            final(r).follows(old(r)),
            final(r).since(old(r)).len() > 0 ==> unsettled(
                Self::decode(final(r).since(old(r)).drop_last()),
            ),
            final(r).since(old(r)).len() <= 18,
            res matches Err(e) ==> e.from_source() ==> final(r).stopped(old(r), e, 18),
            res matches Err(e) ==> e != DecodeError::HeaderInvalid,
            match res {
                Ok(slot) => final(r).since(old(r)).len() == 18 && Self::decode(final(r).since(old(r)))
                    == Ok::<SlotView, DecodeError>(slot@),
                Err(e) => fails_as(e, Self::decode(final(r).since(old(r)))),
            },
    {
        proof {
            reveal(Slot::decode);
        }
        let ghost t0 = r.mark();
        match DetailedTiming::parse(r)? {
            Some(timing) => Ok(Slot::Timing(timing)),
            None => {
                let ghost t1 = r.mark();
                let found = Self::parse_descriptor(r);
                proof {
                    lemma_steps(t0, t1, r.mark());
                    lemma_behind(t0, t1, r.mark());
                    let head = t1.since(t0);
                    let s = r.mark().since(t0);
                    let p = s.drop_last();
                    DetailedTiming::lemma_no_timing(head);
                    DetailedTiming::lemma_no_timing(s);
                    DetailedTiming::lemma_no_timing(p);
                    assert(s[0] == head[0]);
                    assert(s[1] == head[1]);
                    if r.mark().since(t1).len() > 0 {
                        assert(p[0] == head[0]);
                        assert(p[1] == head[1]);
                    }
                }
                found
            },
        }
    }
}

/// What the descriptors of some slots hold, as values: each descriptor by
/// its view.
pub open spec fn views_of(descriptors: Seq<MonitorDescriptor>) -> Seq<MonitorDescriptorView> {
    descriptors.map_values(|d: MonitorDescriptor| d@)
}

/// The descriptors of a block, in the order of their slots.
#[derive(Debug, Clone, PartialEq, Eq)]
pub struct MonitorDescriptors(pub Vec<MonitorDescriptor>);

impl View for MonitorDescriptors {
    type V = Seq<MonitorDescriptorView>;

    open spec fn view(&self) -> Seq<MonitorDescriptorView> {
        views_of(self.0@)
    }
}

/// What the slots of a block have yielded, each list in the order of the
/// slots.
pub struct Gathered {
    pub descriptors: Seq<MonitorDescriptorView>,
    pub detailed_timings: Seq<DetailedTiming>,
    pub standard_timings: Seq<StandardTiming>,
    pub white_points: Seq<WhitePoint>,
}

impl Gathered {
    /// The yield of the first slot, which holds the preferred timing.
    pub open spec fn first(timing: DetailedTiming) -> Gathered {
        Gathered {
            descriptors: Seq::empty(),
            detailed_timings: seq![timing],
            standard_timings: Seq::empty(),
            white_points: Seq::empty(),
        }
    }

    /// The yield with that of one more slot: what the slot holds goes to
    /// the end of the list of its kind, and an unused slot adds nothing.
    pub open spec fn with(self, slot: SlotView) -> Gathered {
        match slot {
            SlotView::Timing(timing) => Gathered {
                detailed_timings: self.detailed_timings.push(timing),
                ..self
            },
            SlotView::Descriptor(descriptor) => Gathered {
                descriptors: self.descriptors.push(descriptor),
                ..self
            },
            SlotView::StandardTimings(modes) => Gathered {
                standard_timings: self.standard_timings + modes,
                ..self
            },
            SlotView::WhitePoints(points) => Gathered {
                white_points: self.white_points + points,
                ..self
            },
            SlotView::Padding => self,
        }
    }
}

impl MonitorDescriptors {
    /// What the first slot, read in order, comes to: it has to hold a
    /// timing.
    pub open spec fn decode_first(s: Seq<u8>) -> Result<DetailedTiming, DecodeError> {
        match DetailedTiming::decode(s) {
            Err(e) => Err(e),
            Ok(None) => Err(DecodeError::MissingPreferredTiming),
            Ok(Some(timing)) => Ok(timing),
        }
    }

    /// What the four slots of a block, read in order, come to. Each slot
    /// is eighteen bytes; the first error ends the reading.
    #[verifier::opaque]
    pub open spec fn decode(s: Seq<u8>) -> Result<Gathered, DecodeError> {
        match Self::decode_first(window(s, 0, 18)) {
            Err(e) => Err(e),
            Ok(timing) => match Slot::decode(window(s, 18, 18)) {
                Err(e) => Err(e),
                Ok(second) => match Slot::decode(window(s, 36, 18)) {
                    Err(e) => Err(e),
                    Ok(third) => match Slot::decode(window(s, 54, 18)) {
                        Err(e) => Err(e),
                        Ok(fourth) => Ok(
                            Gathered::first(timing).with(second).with(third).with(fourth),
                        ),
                    },
                },
            },
        }
    }

    /// Puts what a slot holds at the end of the list of its kind.
    pub fn gather(
        slot: Slot,
        descriptors: &mut Vec<MonitorDescriptor>,
        detailed_timings: &mut Vec<DetailedTiming>,
        standard_timings: &mut Vec<StandardTiming>,
        white_points: &mut Vec<WhitePoint>,
    )
        ensures
            (Gathered {
                descriptors: views_of(final(descriptors)@),
                detailed_timings: final(detailed_timings)@,
                standard_timings: final(standard_timings)@,
                white_points: final(white_points)@,
            }) == (Gathered {
                descriptors: views_of(old(descriptors)@),
                detailed_timings: old(detailed_timings)@,
                standard_timings: old(standard_timings)@,
                white_points: old(white_points)@,
            }).with(slot@),
    {
        match slot {
            Slot::Timing(timing) => {
                detailed_timings.push(timing);
            },
            Slot::Descriptor(descriptor) => {
                descriptors.push(descriptor);
                proof {
                    assert(views_of(descriptors@) =~= views_of(old(descriptors)@).push(descriptor@));
                }
            },
            Slot::StandardTimings(modes) => {
                let mut modes = modes;
                standard_timings.append(&mut modes);
            },
            Slot::WhitePoints(points) => {
                let mut points = points;
                white_points.append(&mut points);
            },
            Slot::Padding => {},
        }
    }

    /// Reads the four slots of a block. Returned are the descriptors, the
    /// detailed timings, the standard timings and the white points that
    /// they hold.
    pub fn parse<T: Read>(r: &mut Reader<T>) -> (res: Result<
        (MonitorDescriptors, Vec<DetailedTiming>, Vec<StandardTiming>, Vec<WhitePoint>),
        DecodeError,
    >)
        ensures
            final(r).follows(old(r)),
            final(r).since(old(r)).len() > 0 ==> unsettled(
                Self::decode(final(r).since(old(r)).drop_last()),
            ),
            final(r).since(old(r)).len() <= 72,
            res matches Err(e) ==> e.from_source() ==> final(r).stopped(old(r), e, 72),
            res matches Err(e) ==> e != DecodeError::HeaderInvalid,
            match res {
                Ok(found) => final(r).since(old(r)).len() == 72 && Self::decode(final(r).since(old(r)))
                    == Ok::<Gathered, DecodeError>(
                    Gathered {
                        descriptors: found.0@,
                        detailed_timings: found.1@,
                        standard_timings: found.2@,
                        white_points: found.3@,
                    },
                ),
                Err(e) => fails_as(e, Self::decode(final(r).since(old(r)))),
            },
    {
        proof {
            reveal(MonitorDescriptors::decode);
        }
        let ghost t0 = r.mark();
        let preferred = DetailedTiming::parse(r);
        proof {
            let s = r.mark().since(t0);
            assert(window(s, 0, 18) =~= s);
            if s.len() > 0 {
                assert(window(s.drop_last(), 0, 18) =~= s.drop_last());
            }
        }
        let timing = match preferred? {
            Some(timing) => timing,
            None => {
                return Err(DecodeError::MissingPreferredTiming);
            },
        };
        let mut descriptors: Vec<MonitorDescriptor> = Vec::new();
        let mut detailed_timings: Vec<DetailedTiming> = Vec::new();
        let mut standard_timings: Vec<StandardTiming> = Vec::new();
        let mut white_points: Vec<WhitePoint> = Vec::new();
        detailed_timings.push(timing);
        proof {
            assert(views_of(descriptors@) =~= Seq::empty());
            assert(detailed_timings@ =~= seq![timing]);
        }
        let ghost t1 = r.mark();
        let ghost first = t1.since(t0);

        let found = Slot::parse(r);
        proof {
            lemma_steps(t0, t1, r.mark());
            let s = r.mark().since(t0);
            let p = s.drop_last();
            assert(window(s, 0, 18) =~= first);
            assert(window(s, 18, 18) =~= r.mark().since(t1));
            if r.mark().since(t1).len() > 0 {
                assert(window(p, 0, 18) =~= first);
                assert(window(p, 18, 18) =~= r.mark().since(t1).drop_last());
            } else {
                assert(window(p, 0, 18) =~= first.drop_last());
            }
        }
        let slot = found?;
        Self::gather(
            slot,
            &mut descriptors,
            &mut detailed_timings,
            &mut standard_timings,
            &mut white_points,
        );
        let ghost t2 = r.mark();
        let ghost second = t2.since(t1);

        let found = Slot::parse(r);
        proof {
            lemma_steps(t0, t2, r.mark());
            let s = r.mark().since(t0);
            let p = s.drop_last();
            assert(window(s, 0, 18) =~= first);
            assert(window(s, 18, 18) =~= second);
            assert(window(s, 36, 18) =~= r.mark().since(t2));
            assert(window(p, 0, 18) =~= first);
            if r.mark().since(t2).len() > 0 {
                assert(window(p, 18, 18) =~= second);
                assert(window(p, 36, 18) =~= r.mark().since(t2).drop_last());
            } else {
                assert(window(p, 18, 18) =~= second.drop_last());
            }
        }
        let slot = found?;
        Self::gather(
            slot,
            &mut descriptors,
            &mut detailed_timings,
            &mut standard_timings,
            &mut white_points,
        );
        let ghost t3 = r.mark();
        let ghost third = t3.since(t2);

        let found = Slot::parse(r);
        proof {
            lemma_steps(t0, t3, r.mark());
            let s = r.mark().since(t0);
            let p = s.drop_last();
            assert(window(s, 0, 18) =~= first);
            assert(window(s, 18, 18) =~= second);
            assert(window(s, 36, 18) =~= third);
            assert(window(s, 54, 18) =~= r.mark().since(t3));
            assert(window(p, 0, 18) =~= first);
            assert(window(p, 18, 18) =~= second);
            if r.mark().since(t3).len() > 0 {
                assert(window(p, 36, 18) =~= third);
                assert(window(p, 54, 18) =~= r.mark().since(t3).drop_last());
            } else {
                assert(window(p, 36, 18) =~= third.drop_last());
            }
        }
        let slot = found?;
        Self::gather(
            slot,
            &mut descriptors,
            &mut detailed_timings,
            &mut standard_timings,
            &mut white_points,
        );
        Ok((MonitorDescriptors(descriptors), detailed_timings, standard_timings, white_points))
    }
}

} // verus!
