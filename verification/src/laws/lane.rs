//! Laws of the way that MIDI events take through a split.
use vstd::prelude::*;

use crate::lane::{filtered, gated_all, shifted, LaneView};
use crate::laws::midi::kinds_are_status_ranges;
use crate::midi::MidiEvent;
use crate::modulation::ModulatorView;
use crate::remap::remapped_events;

verus! {

proof fn lemma_filtered(range: Option<(u8, u8)>, events: Seq<MidiEvent>, keep: spec_fn(MidiEvent) -> bool)
    requires
        forall|e: MidiEvent|
            #[trigger] keep(e) <==> (range is None || e.1[0] < 0x80 || e.1[0] > 0x9F || (range->0).0 <= e.1[1] <= (
            range->0).1),
    ensures
        filtered(range, events) == events.filter(keep),
    decreases events.len(),
{
    reveal(Seq::filter);
    if events.len() > 0 {
        let last = events.last();
        lemma_filtered(range, events.drop_last(), keep);
        kinds_are_status_ranges(last.1);
        assert(keep(last) <==> (range is None || last.1[0] < 0x80 || last.1[0] > 0x9F || (range->0).0 <= last.1[1] <= (
        range->0).1));
    }
}

/// A split hears every event of a buffer, in order and unchanged, but for the notes outside its
/// range; ends of the range are inside. Where notes are remapped, what it hears is remapped.
pub proof fn splits_hear_their_range<P, F>(l: LaneView<P, F>, events: Seq<MidiEvent>)
    ensures
        ({
            let inside = events.filter(
                |e: MidiEvent|
                    l.range is None || e.1[0] < 0x80 || e.1[0] > 0x9F || (l.range->0).0 <= e.1[1] <= (l.range->0).1,
            );
            &&& l.remapper is None ==> l.incoming(events) == inside
            &&& l.remapper is Some ==> l.incoming(events) == remapped_events(l.remapper->0, inside)
        }),
{
    let keep = |e: MidiEvent|
        l.range is None || e.1[0] < 0x80 || e.1[0] > 0x9F || (l.range->0).0 <= e.1[1] <= (l.range->0).1;
    lemma_filtered(l.range, events, keep);
}

proof fn lemma_shifted(events: Seq<MidiEvent>, by: int, keep: spec_fn(MidiEvent) -> bool)
    requires
        by != 0,
        forall|e: MidiEvent|
            #[trigger] keep(e) <==> (e.1[0] < 0x80 || e.1[0] > 0x9F || 0 <= e.1[1] + by <= 127),
    ensures
        ({
            let kept = events.filter(keep);
            let after = shifted(events, by);
            &&& after.len() == kept.len()
            &&& forall|i: int|
                0 <= i < kept.len() ==> {
                    let e = #[trigger] kept[i];
                    let s = after[i];
                    &&& s.0 == e.0
                    &&& s.1[0] == e.1[0]
                    &&& s.1[2] == e.1[2]
                    &&& s.1[1] == if 0x80 <= e.1[0] <= 0x9F {
                        e.1[1] + by
                    } else {
                        e.1[1] as int
                    }
                }
        }),
    decreases events.len(),
{
    reveal(Seq::filter);
    if events.len() > 0 {
        let last = events.last();
        let front = events.drop_last();
        lemma_shifted(front, by, keep);
        kinds_are_status_ranges(last.1);
        assert(keep(last) <==> (last.1[0] < 0x80 || last.1[0] > 0x9F || 0 <= last.1[1] + by <= 127));
        let kept = events.filter(keep);
        let after = shifted(events, by);
        let earlier = front.filter(keep);
        assert forall|i: int| 0 <= i < kept.len() implies {
            let e = #[trigger] kept[i];
            let s = after[i];
            &&& s.0 == e.0
            &&& s.1[0] == e.1[0]
            &&& s.1[2] == e.1[2]
            &&& s.1[1] == if 0x80 <= e.1[0] <= 0x9F {
                e.1[1] + by
            } else {
                e.1[1] as int
            }
        } by {
            if i < earlier.len() {
                assert(kept[i] == earlier[i]);
                assert(after[i] == shifted(front, by)[i]);
            }
        }
    }
}

/// The plugins of a split get what its pattern player gives, in order, with every note moved by the
/// transposition and nothing else touched; a note that would leave 0 to 127 is dropped. Without
/// transposition they get exactly what the player gives.
pub proof fn plugins_get_transposed_notes<P, F>(l: LaneView<P, F>, frames: u64, length: u64)
    ensures
        ({
            let m = l.delivered(frames, length);
            let given = l.pattern.advanced(frames, length).output_events;
            let by = l.transpose as int;
            let kept = given.filter(
                |e: MidiEvent| e.1[0] < 0x80 || e.1[0] > 0x9F || 0 <= e.1[1] + by <= 127,
            );
            &&& m == (LaneView {
                pattern: l.pattern.advanced(frames, length),
                effective_events: m.effective_events,
                ..l
            })
            &&& by == 0 ==> m.effective_events == given
            &&& by != 0 ==> {
                &&& m.effective_events.len() == kept.len()
                &&& forall|i: int|
                    0 <= i < kept.len() ==> {
                        let e = #[trigger] kept[i];
                        let s = m.effective_events[i];
                        &&& s.0 == e.0
                        &&& s.1[0] == e.1[0]
                        &&& s.1[2] == e.1[2]
                        &&& s.1[1] == if 0x80 <= e.1[0] <= 0x9F {
                            e.1[1] + by
                        } else {
                            e.1[1] as int
                        }
                    }
            }
        }),
{
    let given = l.pattern.advanced(frames, length).output_events;
    let by = l.transpose as int;
    let keep = |e: MidiEvent| e.1[0] < 0x80 || e.1[0] > 0x9F || 0 <= e.1[1] + by <= 127;
    if by != 0 {
        lemma_shifted(given, by, keep);
    }
}

/// What a split receives goes to its player and changes nothing else of it.
pub proof fn received_events_reach_the_player<P, F>(l: LaneView<P, F>, events: Seq<MidiEvent>)
    ensures
        l.received(events) == (LaneView { pattern: l.pattern.heard(l.incoming(events)), ..l }),
{
}

/// Every envelope of a list hears every event; the list keeps its order.
pub proof fn every_envelope_hears<F>(mods: Seq<ModulatorView<F>>, events: Seq<MidiEvent>, i: int)
    requires
        0 <= i < mods.len(),
    ensures
        gated_all(mods, events).len() == mods.len(),
        gated_all(mods, events)[i] == mods[i].gated(events),
{
}

} // verus!
