use vstd::prelude::*;

verus! {

/// Number of MIDI note numbers (0 to 127).
pub const NOTE_COUNT: usize = 128;

/// A note event as the engine consumes it. `velocity` is the 7-bit MIDI
/// velocity; a note-on with velocity 0 counts as a note-off.
#[derive(Clone, Copy, Debug, PartialEq, Eq, Structural)]
pub enum NoteEvent {
    NoteOn { note: u8, velocity: u8 },
    NoteOff { note: u8 },
}

impl NoteEvent {
    pub open spec fn note_spec(self) -> u8 {
        match self {
            NoteEvent::NoteOn { note, .. } => note,
            NoteEvent::NoteOff { note } => note,
        }
    }

    /// Whether the note is held once this event has been applied.
    pub open spec fn sounds_spec(self) -> bool {
        match self {
            NoteEvent::NoteOn { velocity, .. } => velocity > 0,
            NoteEvent::NoteOff { .. } => false,
        }
    }

    pub fn note(&self) -> (r: u8)
        ensures
            r == self.note_spec(),
    {
        match self {
            NoteEvent::NoteOn { note, .. } => *note,
            NoteEvent::NoteOff { note } => *note,
        }
    }

    pub fn sounds(&self) -> (r: bool)
        ensures
            r == self.sounds_spec(),
    {
        match self {
            NoteEvent::NoteOn { velocity, .. } => *velocity > 0,
            NoteEvent::NoteOff { .. } => false,
        }
    }
}

/// The held flags after one event.
pub open spec fn after_event(held: Seq<bool>, e: NoteEvent) -> Seq<bool> {
    held.update(e.note_spec() as int, e.sounds_spec())
}

/// The held flags after a sequence of events, taken in order.
pub open spec fn after_events(held: Seq<bool>, events: Seq<NoteEvent>) -> Seq<bool>
    decreases events.len(),
{
    if events.len() == 0 {
        held
    } else {
        after_event(after_events(held, events.drop_last()), events.last())
    }
}

/// Every event names a note in 0..128.
pub open spec fn events_in_range(events: Seq<NoteEvent>) -> bool {
    forall|i: int| 0 <= i < events.len() ==> (#[trigger] events[i]).note_spec() < NOTE_COUNT
}

/// The notes held in `held` below `n`, in ascending order.
pub open spec fn held_below(held: Seq<bool>, n: nat) -> Seq<u8>
    decreases n,
{
    if n == 0 {
        seq![]
    } else if held[n - 1] {
        held_below(held, (n - 1) as nat).push((n - 1) as u8)
    } else {
        held_below(held, (n - 1) as nat)
    }
}

/// Which of the 128 MIDI notes are currently held.
pub struct NoteState {
    held: Vec<bool>,
}

impl View for NoteState {
    type V = Seq<bool>;

    closed spec fn view(&self) -> Seq<bool> {
        self.held@
    }
}

impl NoteState {
    pub open spec fn wf(&self) -> bool {
        self@.len() == NOTE_COUNT
    }

    /// A state with no note held.
    pub fn new() -> (r: NoteState)
        ensures
            r.wf(),
            forall|i: int| 0 <= i < NOTE_COUNT ==> !#[trigger] r@[i],
    {
        let mut held: Vec<bool> = Vec::new();
        let mut i: usize = 0;
        while i < NOTE_COUNT
            invariant
                i <= NOTE_COUNT,
                held@.len() == i,
                forall|j: int| 0 <= j < i ==> !#[trigger] held@[j],
            decreases NOTE_COUNT - i,
        {
            held.push(false);
            i = i + 1;
        }
        NoteState { held }
    }

    /// Releases every note.
    pub fn reset(&mut self)
        requires
            old(self).wf(),
        ensures
            final(self).wf(),
            forall|i: int| 0 <= i < NOTE_COUNT ==> !#[trigger] final(self)@[i],
    {
        let mut i: usize = 0;
        while i < NOTE_COUNT
            invariant
                i <= NOTE_COUNT,
                self.wf(),
                forall|j: int| 0 <= j < i ==> !#[trigger] self@[j],
            decreases NOTE_COUNT - i,
        {
            self.held.set(i, false);
            i = i + 1;
        }
    }

    pub fn is_held(&self, note: u8) -> (r: bool)
        requires
            self.wf(),
            note < NOTE_COUNT,
        ensures
            r == self@[note as int],
    {
        self.held[note as usize]
    }

    /// Applies one note-on or note-off.
    pub fn apply(&mut self, e: NoteEvent)
        requires
            old(self).wf(),
            e.note_spec() < NOTE_COUNT,
        ensures
            final(self).wf(),
            final(self)@ == after_event(old(self)@, e),
    {
        let note = e.note();
        let on = e.sounds();
        self.held.set(note as usize, on);
    }

    /// Applies a block's events in order.
    pub fn apply_all(&mut self, events: &Vec<NoteEvent>)
        requires
            old(self).wf(),
            events_in_range(events@),
        ensures
            final(self).wf(),
            final(self)@ == after_events(old(self)@, events@),
    {
        let ghost start = self@;
        let mut i: usize = 0;
        while i < events.len()
            invariant
                i <= events@.len(),
                self.wf(),
                events_in_range(events@),
                self@ == after_events(start, events@.take(i as int)),
            decreases events@.len() - i,
        {
            let e = events[i];
            assert(events@.take(i + 1).drop_last() == events@.take(i as int));
            self.apply(e);
            i = i + 1;
        }
        assert(events@.take(i as int) == events@);
    }

    /// The held notes in ascending order.
    pub fn held_notes(&self) -> (r: Vec<u8>)
        requires
            self.wf(),
        ensures
            r@ == held_below(self@, NOTE_COUNT as nat),
    {
        let mut r: Vec<u8> = Vec::new();
        let mut i: usize = 0;
        while i < NOTE_COUNT
            invariant
                i <= NOTE_COUNT,
                self.wf(),
                r@ == held_below(self@, i as nat),
            decreases NOTE_COUNT - i,
        {
            if self.held[i] {
                r.push(i as u8);
            }
            i = i + 1;
        }
        r
    }
}

/// A note pressed and released within one block ends the block released,
/// whatever its state before.
pub proof fn lemma_release_after_press(held: Seq<bool>, note: u8, velocity: u8)
    requires
        held.len() == NOTE_COUNT,
        note < NOTE_COUNT,
    ensures
        !after_events(
            held,
            seq![NoteEvent::NoteOn { note, velocity }, NoteEvent::NoteOff { note }],
        )[note as int],
{
    let evs = seq![NoteEvent::NoteOn { note, velocity }, NoteEvent::NoteOff { note }];
    assert(evs.drop_last().drop_last() == Seq::<NoteEvent>::empty());
    reveal_with_fuel(after_events, 3);
}

/// Whether every event names a note in 0..128, the condition under which a
/// block's events can be applied.
pub fn events_valid(events: &Vec<NoteEvent>) -> (r: bool)
    ensures
        r == events_in_range(events@),
{
    let mut i: usize = 0;
    while i < events.len()
        invariant
            i <= events@.len(),
            forall|j: int| 0 <= j < i ==> (#[trigger] events@[j]).note_spec() < NOTE_COUNT,
        decreases events@.len() - i,
    {
        if events[i].note() as usize >= NOTE_COUNT {
            return false;
        }
        i = i + 1;
    }
    true
}

proof fn lemma_after_events_len(held: Seq<bool>, events: Seq<NoteEvent>)
    requires
        held.len() == NOTE_COUNT,
        events_in_range(events),
    ensures
        after_events(held, events).len() == NOTE_COUNT,
    decreases events.len(),
{
    if events.len() > 0 {
        lemma_after_events_len(held, events.drop_last());
    }
}

/// A note that no event of the block names keeps its state.
pub proof fn lemma_untouched_note_kept(held: Seq<bool>, events: Seq<NoteEvent>, note: u8)
    requires
        held.len() == NOTE_COUNT,
        events_in_range(events),
        note < NOTE_COUNT,
        forall|j: int| 0 <= j < events.len() ==> (#[trigger] events[j]).note_spec() != note,
    ensures
        after_events(held, events)[note as int] == held[note as int],
    decreases events.len(),
{
    if events.len() > 0 {
        let rest = events.drop_last();
        assert forall|j: int| 0 <= j < rest.len() implies (#[trigger] rest[j]).note_spec()
            != note by {
            assert(rest[j] == events[j]);
        }
        lemma_after_events_len(held, rest);
        lemma_untouched_note_kept(held, rest, note);
    }
}

/// Events are applied in order: a note ends the block as the last event
/// that names it leaves it (held after a note-on with positive velocity,
/// released otherwise).
pub proof fn lemma_last_event_decides(
    held: Seq<bool>,
    events: Seq<NoteEvent>,
    note: u8,
    k: int,
)
    requires
        held.len() == NOTE_COUNT,
        events_in_range(events),
        0 <= k < events.len(),
        events[k].note_spec() == note,
        forall|j: int| k < j < events.len() ==> (#[trigger] events[j]).note_spec() != note,
    ensures
        after_events(held, events)[note as int] == events[k].sounds_spec(),
    decreases events.len(),
{
    let rest = events.drop_last();
    assert forall|j: int| 0 <= j < rest.len() implies (#[trigger] rest[j]).note_spec()
        < NOTE_COUNT by {
        assert(rest[j] == events[j]);
    }
    lemma_after_events_len(held, rest);
    if k < events.len() - 1 {
        assert forall|j: int| k < j < rest.len() implies (#[trigger] rest[j]).note_spec()
            != note by {
            assert(rest[j] == events[j]);
        }
        lemma_last_event_decides(held, rest, note, k);
    }
}

} // verus!
