use vstd::prelude::*;

use crate::notes::{held_below, NoteState, NOTE_COUNT};

verus! {

/// Number of pitch classes in an octave.
pub const PITCH_CLASS_COUNT: u8 = 12;

/// The lowest note of a piano (A0): pitch class 0 is A.
pub const PITCH_CLASS_ANCHOR: u8 = 21;

/// `(note - 21) mod 12`, taken as a non-negative residue so that notes below
/// the anchor fold onto the same twelve classes instead of underflowing.
pub open spec fn pitch_class_of(note: int) -> int {
    (note - PITCH_CLASS_ANCHOR) % (PITCH_CLASS_COUNT as int)
}

/// How held notes become envelope targets.
#[derive(Clone, Copy, Debug, PartialEq, Eq, Structural)]
pub enum Strategy {
    /// Each held note is a target at its own frequency.
    Exact,
    /// Each held pitch class contributes the harmonic series of its lowest
    /// note from the anchor up.
    HarmonicClone,
}

/// The pitch classes of `notes`, each at its first occurrence, in order.
pub open spec fn first_classes(notes: Seq<u8>) -> Seq<u8>
    decreases notes.len(),
{
    if notes.len() == 0 {
        seq![]
    } else {
        let prev = first_classes(notes.drop_last());
        let c = pitch_class_of(notes.last() as int) as u8;
        if prev.contains(c) {
            prev
        } else {
            prev.push(c)
        }
    }
}

/// The notes whose frequencies feed the envelope under `strategy`.
pub open spec fn target_notes(held: Seq<bool>, strategy: Strategy) -> Seq<u8> {
    let notes = held_below(held, NOTE_COUNT as nat);
    match strategy {
        Strategy::Exact => notes,
        Strategy::HarmonicClone => first_classes(notes).map_values(
            |c: u8| (c + PITCH_CLASS_ANCHOR) as u8,
        ),
    }
}

/// The pitch class of `note`, 0 for A up to 11 for G#.
pub fn pitch_class(note: u8) -> (r: u8)
    ensures
        r == pitch_class_of(note as int),
        r < PITCH_CLASS_COUNT,
{
    let r = ((note as u16 + 3) % 12) as u8;
    assert((note as int + 3) % 12 == (note as int - 21) % 12) by (nonlinear_arith);
    r
}

/// Picks the strategy from the host's "use exact notes" switch.
pub fn strategy_for(use_exact: bool) -> (r: Strategy)
    ensures
        r == (if use_exact { Strategy::Exact } else { Strategy::HarmonicClone }),
{
    if use_exact {
        Strategy::Exact
    } else {
        Strategy::HarmonicClone
    }
}

/// The notes whose frequencies feed the envelope this block: every held note
/// in ascending order under `Exact`; under `HarmonicClone` one note per held
/// pitch class, the class's lowest note from the anchor (21 to 32), in the
/// order in which the classes first occur among the held notes.
pub fn target_notes_of(state: &NoteState, strategy: Strategy) -> (r: Vec<u8>)
    requires
        state.wf(),
    ensures
        r@ == target_notes(state@, strategy),
{
    let notes = state.held_notes();
    match strategy {
        Strategy::Exact => notes,
        Strategy::HarmonicClone => {
            let mut seen: Vec<bool> = Vec::new();
            let mut k: u8 = 0;
            while k < PITCH_CLASS_COUNT
                invariant
                    k <= PITCH_CLASS_COUNT,
                    seen@.len() == k,
                    forall|j: int| 0 <= j < k ==> !#[trigger] seen@[j],
                decreases PITCH_CLASS_COUNT - k,
            {
                seen.push(false);
                k = k + 1;
            }
            let mut r: Vec<u8> = Vec::new();
            let mut i: usize = 0;
            while i < notes.len()
                invariant
                    i <= notes@.len(),
                    seen@.len() == PITCH_CLASS_COUNT,
                    forall|j: int|
                        0 <= j < PITCH_CLASS_COUNT ==> (#[trigger] seen@[j] <==> first_classes(
                            notes@.take(i as int),
                        ).contains(j as u8)),
                    forall|j: int|
                        0 <= j < first_classes(notes@.take(i as int)).len()
                            ==> #[trigger] first_classes(notes@.take(i as int))[j]
                            < PITCH_CLASS_COUNT,
                    r@ == first_classes(notes@.take(i as int)).map_values(
                        |c: u8| (c + PITCH_CLASS_ANCHOR) as u8,
                    ),
                decreases notes@.len() - i,
            {
                let ghost prev = first_classes(notes@.take(i as int));
                assert(notes@.take(i + 1).drop_last() == notes@.take(i as int));
                assert(notes@.take(i + 1).last() == notes@[i as int]);
                let c = pitch_class(notes[i]);
                if !seen[c as usize] {
                    seen.set(c as usize, true);
                    r.push(c + PITCH_CLASS_ANCHOR);
                    assert(first_classes(notes@.take(i + 1)) == prev.push(c));
                    assert forall|j: int| 0 <= j < PITCH_CLASS_COUNT implies (#[trigger] seen@[j]
                        <==> prev.push(c).contains(j as u8)) by {
                        if j == c as int {
                            assert(prev.push(c)[prev.len() as int] == c);
                        } else {
                            if prev.push(c).contains(j as u8) {
                                let w = choose|w: int|
                                    0 <= w < prev.push(c).len() && prev.push(c)[w] == j as u8;
                                assert(prev[w] == j as u8);
                            }
                            if prev.contains(j as u8) {
                                let w = choose|w: int| 0 <= w < prev.len() && prev[w] == j as u8;
                                assert(prev.push(c)[w] == j as u8);
                            }
                        }
                    }
                    assert(r@ == prev.push(c).map_values(|c: u8| (c + PITCH_CLASS_ANCHOR) as u8));
                } else {
                    assert(first_classes(notes@.take(i + 1)) == prev);
                }
                i = i + 1;
            }
            assert(notes@.take(i as int) == notes@);
            r
        },
    }
}

proof fn lemma_none_held_below(held: Seq<bool>, n: nat)
    requires
        n <= held.len(),
        forall|i: int| 0 <= i < held.len() ==> !#[trigger] held[i],
    ensures
        held_below(held, n) == Seq::<u8>::empty(),
    decreases n,
{
    if n > 0 {
        lemma_none_held_below(held, (n - 1) as nat);
    }
}

/// With no note held, neither strategy yields any target note, so the
/// envelope stays empty.
pub proof fn lemma_silence_has_no_targets(held: Seq<bool>, strategy: Strategy)
    requires
        held.len() == NOTE_COUNT,
        forall|i: int| 0 <= i < NOTE_COUNT ==> !#[trigger] held[i],
    ensures
        target_notes(held, strategy).len() == 0,
{
    lemma_none_held_below(held, NOTE_COUNT as nat);
    assert(first_classes(Seq::<u8>::empty()) == Seq::<u8>::empty());
}

proof fn lemma_first_classes_distinct(notes: Seq<u8>)
    ensures
        forall|i: int|
            0 <= i < first_classes(notes).len() ==> #[trigger] first_classes(notes)[i]
                < PITCH_CLASS_COUNT,
        forall|i: int, j: int|
            0 <= i < j < first_classes(notes).len() ==> first_classes(notes)[i]
                != first_classes(notes)[j],
    decreases notes.len(),
{
    if notes.len() > 0 {
        lemma_first_classes_distinct(notes.drop_last());
        let prev = first_classes(notes.drop_last());
        let c = pitch_class_of(notes.last() as int) as u8;
        if !prev.contains(c) {
            assert forall|i: int, j: int|
                0 <= i < j < prev.push(c).len() implies prev.push(c)[i] != prev.push(c)[j] by {
                if j == prev.len() {
                    assert(prev[i] == prev.push(c)[i]);
                }
            }
        }
    }
}

proof fn lemma_held_below_members(held: Seq<bool>, n: nat)
    requires
        n <= held.len(),
        n <= 256,
    ensures
        forall|k: int|
            0 <= k < n ==> (held[k] <==> #[trigger] held_below(held, n).contains(k as u8)),
        forall|i: int|
            0 <= i < held_below(held, n).len() ==> #[trigger] held_below(held, n)[i] < n,
        forall|i: int, j: int|
            0 <= i < j < held_below(held, n).len() ==> held_below(held, n)[i] < held_below(
                held,
                n,
            )[j],
    decreases n,
{
    if n > 0 {
        let m = (n - 1) as nat;
        lemma_held_below_members(held, m);
        let prev = held_below(held, m);
        let cur = held_below(held, n);
        assert forall|k: int| 0 <= k < n implies (held[k] <==> #[trigger] cur.contains(
            k as u8,
        )) by {
            if held[m as int] {
                assert(cur == prev.push(m as u8));
                assert(cur[prev.len() as int] == m as u8);
                if k < m {
                    if prev.contains(k as u8) {
                        let w = choose|w: int| 0 <= w < prev.len() && prev[w] == k as u8;
                        assert(cur[w] == k as u8);
                    }
                    if cur.contains(k as u8) {
                        let w = choose|w: int| 0 <= w < cur.len() && cur[w] == k as u8;
                        if w < prev.len() {
                            assert(prev[w] == k as u8);
                        }
                    }
                }
            } else {
                if k == m && prev.contains(k as u8) {
                    let w = choose|w: int| 0 <= w < prev.len() && prev[w] == k as u8;
                    assert(prev[w] < m);
                }
            }
        }
    }
}

/// Under `Exact` the targets are the held notes, each once, in ascending
/// order.
pub proof fn lemma_exact_targets_are_held(held: Seq<bool>)
    requires
        held.len() == NOTE_COUNT,
    ensures
        forall|k: int|
            0 <= k < NOTE_COUNT ==> (held[k] <==> #[trigger] target_notes(
                held,
                Strategy::Exact,
            ).contains(k as u8)),
        forall|i: int, j: int|
            0 <= i < j < target_notes(held, Strategy::Exact).len() ==> target_notes(
                held,
                Strategy::Exact,
            )[i] < target_notes(held, Strategy::Exact)[j],
{
    lemma_held_below_members(held, NOTE_COUNT as nat);
}

/// Under `HarmonicClone` each pitch class contributes at most once: the
/// targets are distinct notes of the lowest octave from the anchor (21 to 32).
pub proof fn lemma_clone_targets_distinct(held: Seq<bool>)
    requires
        held.len() == NOTE_COUNT,
    ensures
        target_notes(held, Strategy::HarmonicClone).len() <= PITCH_CLASS_COUNT,
        forall|i: int|
            0 <= i < target_notes(held, Strategy::HarmonicClone).len() ==> PITCH_CLASS_ANCHOR
                <= #[trigger] target_notes(held, Strategy::HarmonicClone)[i]
                < PITCH_CLASS_ANCHOR + PITCH_CLASS_COUNT,
        forall|i: int, j: int|
            0 <= i < j < target_notes(held, Strategy::HarmonicClone).len() ==> target_notes(
                held,
                Strategy::HarmonicClone,
            )[i] != target_notes(held, Strategy::HarmonicClone)[j],
{
    let fc = first_classes(held_below(held, NOTE_COUNT as nat));
    lemma_first_classes_distinct(held_below(held, NOTE_COUNT as nat));
    let wide = fc.map_values(|c: u8| c as int);
    assert forall|i: int, j: int| 0 <= i < j < wide.len() implies wide[i] != wide[j] by {
        assert(fc[i] != fc[j]);
    }
    wide.unique_seq_to_set();
    vstd::set_lib::lemma_int_range(0, PITCH_CLASS_COUNT as int);
    assert(wide.to_set().subset_of(vstd::set_lib::set_int_range(0, PITCH_CLASS_COUNT as int)))
        by {
        assert forall|x: int| wide.to_set().contains(x) implies 0 <= x < PITCH_CLASS_COUNT by {
            let w = choose|w: int| 0 <= w < wide.len() && wide[w] == x;
            assert(fc[w] < PITCH_CLASS_COUNT);
        }
    }
    vstd::set_lib::lemma_len_subset(
        wide.to_set(),
        vstd::set_lib::set_int_range(0, PITCH_CLASS_COUNT as int),
    );
}

} // verus!
