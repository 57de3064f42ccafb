use vstd::prelude::*;

verus! {

/// What reaches the tracer of a traced process, in the order it happens.
#[derive(Copy, Clone, PartialEq, Eq, Structural, Debug)]
pub enum ControlEvent {
    /// The program made an allocation; `id` tells the allocations apart.
    Allocate { id: u64 },
    /// The stop signal or call: tracing pauses.
    Stop,
    /// The next signal: tracing resumes into a new log segment.
    Resume,
    /// The kill signal: the segment is closed and tracing ends for good.
    Kill,
    /// The process exits, by whatever path.
    Exit,
}

/// What the tracer does in answer to an event.
#[derive(Copy, Clone, PartialEq, Eq, Structural, Debug)]
pub enum TracerAction {
    /// Writes the allocation to the current segment.
    Record,
    /// Closes the current segment, if one is open, and opens a new one.
    Rotate,
    /// Flushes and closes the current segment, if one is open.
    Close,
    /// Does nothing.
    Ignore,
}

/// The tracer's mutable state.
#[derive(Copy, Clone, PartialEq, Eq, Structural, Debug)]
pub struct TracerState {
    /// Allocations are being written.
    pub recording: bool,
    /// The tracer was killed or the process exited: nothing more is written.
    pub ended: bool,
}

/// The state of a fresh tracer, recording unless disabled at start.
pub open spec fn initial(start_recording: bool) -> TracerState {
    TracerState { recording: start_recording, ended: false }
}

/// The state after one event.
pub open spec fn next_state(s: TracerState, e: ControlEvent) -> TracerState {
    if s.ended {
        s
    } else {
        match e {
            ControlEvent::Allocate { .. } => s,
            ControlEvent::Stop => TracerState { recording: false, ended: false },
            ControlEvent::Resume => TracerState { recording: true, ended: false },
            ControlEvent::Kill => TracerState { recording: false, ended: true },
            ControlEvent::Exit => TracerState { recording: false, ended: true },
        }
    }
}

/// The action taken on one event.
pub open spec fn action_of(s: TracerState, e: ControlEvent) -> TracerAction {
    if s.ended {
        TracerAction::Ignore
    } else {
        match e {
            ControlEvent::Allocate { .. } => if s.recording {
                TracerAction::Record
            } else {
                TracerAction::Ignore
            },
            ControlEvent::Stop => TracerAction::Ignore,
            ControlEvent::Resume => TracerAction::Rotate,
            ControlEvent::Kill => TracerAction::Close,
            ControlEvent::Exit => TracerAction::Close,
        }
    }
}

/// Creates the tracer of a process.
pub fn new_tracer(start_recording: bool) -> (r: TracerState)
    ensures
        r == initial(start_recording),
{
    TracerState { recording: start_recording, ended: false }
}

/// Applies one event to the tracer and says what to do about it. Once the
/// tracer has ended every event is ignored, so the segment is closed once.
pub fn step(state: &mut TracerState, event: ControlEvent) -> (action: TracerAction)
    ensures
        *final(state) == next_state(*old(state), event),
        action == action_of(*old(state), event),
{
    if state.ended {
        return TracerAction::Ignore;
    }
    match event {
        ControlEvent::Allocate { .. } => {
            if state.recording {
                TracerAction::Record
            } else {
                TracerAction::Ignore
            }
        },
        ControlEvent::Stop => {
            state.recording = false;
            TracerAction::Ignore
        },
        ControlEvent::Resume => {
            state.recording = true;
            TracerAction::Rotate
        },
        ControlEvent::Kill | ControlEvent::Exit => {
            state.recording = false;
            state.ended = true;
            TracerAction::Close
        },
    }
}

/// The state after a sequence of events.
pub open spec fn state_after(start_recording: bool, events: Seq<ControlEvent>) -> TracerState
    decreases events.len(),
{
    if events.len() == 0 {
        initial(start_recording)
    } else {
        next_state(state_after(start_recording, events.drop_last()), events.last())
    }
}

/// The segments written after a sequence of events, each the list of the
/// allocations written to it. A tracer that starts recording has a segment
/// open from the start.
pub open spec fn segments_of(start_recording: bool, events: Seq<ControlEvent>) -> Seq<Seq<u64>>
    decreases events.len(),
{
    if events.len() == 0 {
        if start_recording {
            seq![Seq::empty()]
        } else {
            Seq::empty()
        }
    } else {
        let before = events.drop_last();
        let segs = segments_of(start_recording, before);
        let s = state_after(start_recording, before);
        match action_of(s, events.last()) {
            TracerAction::Record => if segs.len() > 0 {
                segs.update(segs.len() - 1, segs.last().push(events.last()->id))
            } else {
                segs
            },
            TracerAction::Rotate => segs.push(Seq::empty()),
            _ => segs,
        }
    }
}

/// The number of resume events that arrive before the tracer ends.
pub open spec fn live_resumes(start_recording: bool, events: Seq<ControlEvent>) -> nat
    decreases events.len(),
{
    if events.len() == 0 {
        0
    } else {
        let before = events.drop_last();
        live_resumes(start_recording, before) + (if events.last() is Resume && !state_after(
            start_recording,
            before,
        ).ended {
            1nat
        } else {
            0nat
        })
    }
}

/// The allocations made while the tracer was recording, in call order.
pub open spec fn recorded(start_recording: bool, events: Seq<ControlEvent>) -> Seq<u64>
    decreases events.len(),
{
    if events.len() == 0 {
        Seq::empty()
    } else {
        let before = events.drop_last();
        if action_of(state_after(start_recording, before), events.last()) is Record {
            recorded(start_recording, before).push(events.last()->id)
        } else {
            recorded(start_recording, before)
        }
    }
}

/// The number of times the tracer closes its segment for good.
pub open spec fn closes(start_recording: bool, events: Seq<ControlEvent>) -> nat
    decreases events.len(),
{
    if events.len() == 0 {
        0
    } else {
        let before = events.drop_last();
        closes(start_recording, before) + (if action_of(
            state_after(start_recording, before),
            events.last(),
        ) is Close {
            1nat
        } else {
            0nat
        })
    }
}

/// Start/stop cycling: a tracer that starts paused writes one segment per
/// resume event (one more if it starts recording), and its segments, read
/// one after another, hold exactly the allocations made while it was
/// recording, in call order.
pub proof fn lemma_segment_per_resume(start_recording: bool, events: Seq<ControlEvent>)
    ensures
        segments_of(start_recording, events).len() == (if start_recording {
            1nat
        } else {
            0nat
        }) + live_resumes(start_recording, events),
        segments_of(start_recording, events).flatten_alt() == recorded(start_recording, events),
        state_after(start_recording, events).recording ==> segments_of(
            start_recording,
            events,
        ).len() > 0,
    decreases events.len(),
{
    if events.len() == 0 {
        let segs = segments_of(start_recording, events);
        if start_recording {
            assert(segs.drop_last() =~= Seq::<Seq<u64>>::empty());
            assert(segs.drop_last().flatten_alt() =~= Seq::<u64>::empty());
            assert(segs.flatten_alt() =~= Seq::<u64>::empty() + segs.last());
            assert(segs.flatten_alt() =~= Seq::<u64>::empty());
        }
    } else {
        let before = events.drop_last();
        lemma_segment_per_resume(start_recording, before);
        let segs = segments_of(start_recording, before);
        let st = state_after(start_recording, before);
        match action_of(st, events.last()) {
            TracerAction::Record => {
                let t = segs.last().push(events.last()->id);
                let after = segs.update(segs.len() - 1, t);
                assert(after.drop_last() =~= segs.drop_last());
                assert(after.flatten_alt() =~= segs.flatten_alt().push(events.last()->id));
            },
            TracerAction::Rotate => {
                let after = segs.push(Seq::empty());
                assert(after.drop_last() =~= segs);
                assert(after.flatten_alt() =~= segs.flatten_alt());
            },
            _ => {},
        }
    }
}

/// Whatever path ends the process, the tracer closes its segment at most
/// once, and exactly once where a kill or an exit arrived.
pub proof fn lemma_closed_once(start_recording: bool, events: Seq<ControlEvent>)
    ensures
        closes(start_recording, events) == (if state_after(start_recording, events).ended {
            1nat
        } else {
            0nat
        }),
        state_after(start_recording, events).ended <==> exists|i: int|
            0 <= i < events.len() && (#[trigger] events[i] is Kill || events[i] is Exit),
    decreases events.len(),
{
    if events.len() > 0 {
        let before = events.drop_last();
        lemma_closed_once(start_recording, before);
        let n = events.len() - 1;
        if state_after(start_recording, before).ended {
            let i = choose|i: int|
                0 <= i < before.len() && (#[trigger] before[i] is Kill || before[i] is Exit);
            assert(events[i] == before[i]);
        } else if events.last() is Kill || events.last() is Exit {
            assert(events[n] is Kill || events[n] is Exit);
        } else {
            assert forall|i: int| 0 <= i < events.len() implies !(#[trigger] events[i] is Kill
                || events[i] is Exit) by {
                if i < n {
                    assert(events[i] == before[i]);
                }
            }
        }
    }
}

/// After a kill or an exit nothing more is written: the segments and the
/// recorded allocations are those that stood when it arrived, so a killed
/// process's log holds only the allocations made before the kill.
pub proof fn lemma_nothing_after_end(start_recording: bool, events: Seq<ControlEvent>, i: int)
    requires
        0 <= i < events.len(),
        events[i] is Kill || events[i] is Exit,
    ensures
        recorded(start_recording, events) == recorded(start_recording, events.subrange(0, i)),
        segments_of(start_recording, events) == segments_of(
            start_recording,
            events.subrange(0, i),
        ),
    decreases events.len(),
{
    let before = events.drop_last();
    if events.len() == i + 1 {
        assert(before =~= events.subrange(0, i));
    } else {
        assert(before[i] == events[i]);
        lemma_nothing_after_end(start_recording, before, i);
        lemma_closed_once(start_recording, before);
        assert(before.subrange(0, i) =~= events.subrange(0, i));
    }
}

/// What each segment holds.
pub open spec fn segment_views(v: Seq<Vec<u64>>) -> Seq<Seq<u64>> {
    v.map_values(|s: Vec<u64>| s@)
}

/// Runs a tracer over a sequence of events and returns the segments it
/// writes, each with the allocations written to it in order.
pub fn run(start_recording: bool, events: &Vec<ControlEvent>) -> (r: Vec<Vec<u64>>)
    ensures
        segment_views(r@) == segments_of(start_recording, events@),
{
    let mut state = new_tracer(start_recording);
    let mut segments: Vec<Vec<u64>> = Vec::new();
    if start_recording {
        segments.push(Vec::new());
    }
    assert(segment_views(segments@) =~= segments_of(start_recording, events@.subrange(0, 0)));
    let mut i: usize = 0;
    while i < events.len()
        invariant
            i <= events@.len(),
            state == state_after(start_recording, events@.subrange(0, i as int)),
            segment_views(segments@) == segments_of(start_recording, events@.subrange(0, i as int)),
        decreases events@.len() - i,
    {
        let ghost before = events@.subrange(0, i as int);
        let ghost segs = segment_views(segments@);
        assert(events@.subrange(0, i + 1).drop_last() == before);
        let event = events[i];
        let action = step(&mut state, event);
        match action {
            TracerAction::Record => {
                if segments.len() > 0 {
                    let mut last = segments.pop().unwrap();
                    match event {
                        ControlEvent::Allocate { id } => last.push(id),
                        _ => {},
                    }
                    segments.push(last);
                    assert(segment_views(segments@) =~= segs.update(
                        segs.len() - 1,
                        segs.last().push(event->id),
                    ));
                }
            },
            TracerAction::Rotate => {
                segments.push(Vec::new());
                assert(segment_views(segments@) =~= segs.push(Seq::empty()));
            },
            _ => {},
        }
        i = i + 1;
    }
    assert(events@.subrange(0, events@.len() as int) == events@);
    segments
}

} // verus!
