use pitch_quantizer::bins::{
    clamp_bin, fill_routes, mirrored_bins, next_bin, route, target_bin,
};
use pitch_quantizer::notes::{events_valid, NoteEvent, NoteState, NOTE_COUNT};
use pitch_quantizer::targets::{pitch_class, strategy_for, target_notes_of, Strategy};

fn state_with(notes: &[u8]) -> NoteState {
    let mut s = NoteState::new();
    for &n in notes {
        s.apply(NoteEvent::NoteOn { note: n, velocity: 100 });
    }
    s
}

#[test]
fn new_state_holds_nothing() {
    let s = NoteState::new();
    for n in 0..NOTE_COUNT as u8 {
        assert!(!s.is_held(n));
    }
    assert!(s.held_notes().is_empty());
}

#[test]
fn note_on_and_off() {
    let mut s = NoteState::new();
    s.apply(NoteEvent::NoteOn { note: 60, velocity: 90 });
    assert!(s.is_held(60));
    s.apply(NoteEvent::NoteOff { note: 60 });
    assert!(!s.is_held(60));
}

#[test]
fn zero_velocity_note_on_releases() {
    let mut s = state_with(&[64]);
    s.apply(NoteEvent::NoteOn { note: 64, velocity: 0 });
    assert!(!s.is_held(64));
}

#[test]
fn press_then_release_in_one_block_nets_off() {
    let mut s = NoteState::new();
    s.apply_all(&vec![
        NoteEvent::NoteOn { note: 67, velocity: 80 },
        NoteEvent::NoteOn { note: 72, velocity: 80 },
        NoteEvent::NoteOff { note: 67 },
    ]);
    assert!(!s.is_held(67));
    assert!(s.is_held(72));
    assert_eq!(s.held_notes(), vec![72]);
}

#[test]
fn reset_releases_all() {
    let mut s = state_with(&[0, 21, 127]);
    assert_eq!(s.held_notes(), vec![0, 21, 127]);
    s.reset();
    assert!(s.held_notes().is_empty());
}

#[test]
fn pitch_classes_fold_from_a0() {
    assert_eq!(pitch_class(21), 0);
    assert_eq!(pitch_class(33), 0);
    assert_eq!(pitch_class(69), 0);
    assert_eq!(pitch_class(60), 3);
    assert_eq!(pitch_class(32), 11);
    // notes below the anchor fold onto the same classes
    assert_eq!(pitch_class(20), 11);
    assert_eq!(pitch_class(0), 3);
    assert_eq!(pitch_class(127), 10);
}

#[test]
fn strategy_from_switch() {
    assert_eq!(strategy_for(true), Strategy::Exact);
    assert_eq!(strategy_for(false), Strategy::HarmonicClone);
}

#[test]
fn exact_targets_are_held_notes() {
    let s = state_with(&[72, 60, 64]);
    assert_eq!(target_notes_of(&s, Strategy::Exact), vec![60, 64, 72]);
}

#[test]
fn clone_targets_one_per_pitch_class() {
    // 45 and 57 are both A; 60 and 72 are both C; 64 is E.
    let s = state_with(&[72, 45, 60, 57, 64]);
    assert_eq!(target_notes_of(&s, Strategy::HarmonicClone), vec![21, 24, 28]);
}

#[test]
fn clone_targets_keep_first_occurrence_order() {
    // 23 is B (class 2), 30 is F# (class 9), 35 is B again.
    let s = state_with(&[35, 30, 23]);
    assert_eq!(target_notes_of(&s, Strategy::HarmonicClone), vec![23, 30]);
}

#[test]
fn silence_has_no_targets() {
    let s = NoteState::new();
    assert!(target_notes_of(&s, Strategy::Exact).is_empty());
    assert!(target_notes_of(&s, Strategy::HarmonicClone).is_empty());
}

#[test]
fn repeated_target_selection_is_identical() {
    let s = state_with(&[40, 52, 61]);
    for strategy in [Strategy::Exact, Strategy::HarmonicClone] {
        let a = target_notes_of(&s, strategy);
        let b = target_notes_of(&s, strategy);
        assert_eq!(a, b);
    }
}

#[test]
fn clamp_and_target_bins() {
    assert_eq!(clamp_bin(-3, 10), 0);
    assert_eq!(clamp_bin(4, 10), 4);
    assert_eq!(clamp_bin(10, 10), 9);
    assert_eq!(clamp_bin(i64::MAX, 10), 9);
    assert_eq!(target_bin(5, -2, 10), 3);
    assert_eq!(target_bin(5, -9, 10), 0);
    assert_eq!(target_bin(5, 7, 10), 9);
    assert_eq!(target_bin(usize::MAX, i64::MAX, 10), 9);
    assert_eq!(target_bin(3, i64::MIN, 10), 0);
}

#[test]
fn next_bin_stops_at_last() {
    assert_eq!(next_bin(0, 8192), 1);
    assert_eq!(next_bin(8190, 8192), 8191);
    assert_eq!(next_bin(8191, 8192), 8191);
}

#[test]
fn routes_skip_dc_bin() {
    assert_eq!(route(0, 0, 8), None);
    assert_eq!(route(3, -5, 8), None);
    assert_eq!(route(3, 2, 8), Some(5));
    assert_eq!(route(6, 4, 8), Some(7));
}

#[test]
fn fill_routes_for_every_bin() {
    let offsets: Vec<i64> = vec![0, 0, -1, 3, -4, 2];
    let mut routes = vec![Some(42); offsets.len()];
    fill_routes(&offsets, &mut routes);
    assert_eq!(routes, vec![None, Some(1), Some(1), Some(5), None, Some(5)]);
    assert!(routes.iter().all(|r| *r != Some(0)));
}

#[test]
fn fill_routes_ignores_previous_contents() {
    let offsets: Vec<i64> = vec![1, -1, 0, 5];
    let mut a = vec![None; 4];
    let mut b = vec![Some(3); 4];
    fill_routes(&offsets, &mut a);
    fill_routes(&offsets, &mut b);
    assert_eq!(a, b);
    assert_eq!(a, vec![Some(1), None, Some(2), Some(3)]);
}

#[test]
fn mirrored_bins_skip_out_of_range() {
    assert_eq!(mirrored_bins(10, 1, 20), (Some(9), Some(11)));
    assert_eq!(mirrored_bins(10, 10, 20), (Some(0), None));
    assert_eq!(mirrored_bins(10, 11, 20), (None, None));
    assert_eq!(mirrored_bins(0, 1, 20), (None, Some(1)));
    assert_eq!(mirrored_bins(19, 1, 20), (Some(18), None));
}

#[test]
fn event_note_numbers_checked() {
    assert!(events_valid(&vec![]));
    assert!(events_valid(&vec![
        NoteEvent::NoteOn { note: 127, velocity: 1 },
        NoteEvent::NoteOff { note: 0 },
    ]));
    assert!(!events_valid(&vec![
        NoteEvent::NoteOn { note: 60, velocity: 1 },
        NoteEvent::NoteOff { note: 128 },
    ]));
    assert!(!events_valid(&vec![NoteEvent::NoteOn { note: 200, velocity: 0 }]));
}

#[test]
fn last_event_for_a_note_decides() {
    let mut s = state_with(&[50]);
    s.apply_all(&vec![
        NoteEvent::NoteOff { note: 50 },
        NoteEvent::NoteOn { note: 50, velocity: 10 },
        NoteEvent::NoteOn { note: 51, velocity: 0 },
    ]);
    assert!(s.is_held(50));
    assert!(!s.is_held(51));
}
