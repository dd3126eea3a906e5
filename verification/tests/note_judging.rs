use ch_rzl::notes::{
    calculate_combo, step_note, HoldEndClock, NoteClock, NoteFlags, NoteStep, HOLD_NOTE,
};

fn fresh() -> NoteFlags {
    NoteFlags { is_hit: false, is_play_hit: false, is_play_hold_end_hit: false }
}

fn at(reached: bool) -> NoteClock {
    NoteClock { reached, before: !reached, hold_end: None }
}

fn hold_at(reached: bool, end_reached: bool) -> NoteClock {
    NoteClock {
        reached,
        before: !reached,
        hold_end: Some(HoldEndClock { before_end: !end_reached, reached_end: end_reached }),
    }
}

#[test]
fn combo_values() {
    let expected: [(u32, u32); 12] = [
        (0, 0),
        (1, 1),
        (5, 5),
        (6, 7),
        (7, 9),
        (8, 11),
        (9, 14),
        (10, 17),
        (11, 20),
        (12, 24),
        (13, 28),
        (100, 376),
    ];
    for (hits, combo) in expected {
        assert_eq!(calculate_combo(hits), combo, "hits {}", hits);
    }
}

#[test]
fn combo_grows_with_hits() {
    let mut prev = calculate_combo(0);
    for hits in 1..2000u32 {
        let c = calculate_combo(hits);
        assert!(c > prev);
        assert!(c >= hits);
        prev = c;
    }
}

#[test]
fn tap_note_fires_once_when_reached() {
    let s1 = step_note(fresh(), 0, at(true));
    assert_eq!(
        s1,
        NoteStep {
            flags: NoteFlags { is_hit: true, is_play_hit: true, is_play_hold_end_hit: false },
            play_hit: true,
            hold_end_effect: false,
            hits: 1,
        }
    );
    let s2 = step_note(s1.flags, 0, at(true));
    assert_eq!(s2.flags, s1.flags);
    assert!(!s2.play_hit);
    assert_eq!(s2.hits, 1);
}

#[test]
fn note_before_playhead_counts_nothing() {
    let s = step_note(fresh(), 0, at(false));
    assert_eq!(
        s,
        NoteStep { flags: fresh(), play_hit: false, hold_end_effect: false, hits: 0 }
    );
}

#[test]
fn rewinding_rearms_the_note() {
    let s1 = step_note(fresh(), 1, at(true));
    let back = step_note(s1.flags, 1, at(false));
    assert_eq!(back.flags, fresh());
    assert_eq!(back.hits, 0);
    let again = step_note(back.flags, 1, at(true));
    assert!(again.play_hit);
}

#[test]
fn hold_note_end_effect_and_hits() {
    let s1 = step_note(fresh(), HOLD_NOTE, hold_at(true, false));
    assert!(s1.play_hit);
    assert!(!s1.hold_end_effect);
    assert_eq!(s1.hits, 1);
    let s2 = step_note(s1.flags, HOLD_NOTE, hold_at(true, true));
    assert!(!s2.play_hit);
    assert!(s2.hold_end_effect);
    assert_eq!(s2.hits, 2);
    let s3 = step_note(s2.flags, HOLD_NOTE, hold_at(true, true));
    assert!(!s3.hold_end_effect);
    assert_eq!(s3.flags, s2.flags);
    assert_eq!(s3.hits, 2);
    // seeking back inside the hold re-arms only the end effect
    let s4 = step_note(s3.flags, HOLD_NOTE, hold_at(true, false));
    assert!(!s4.flags.is_play_hold_end_hit);
    assert!(!s4.play_hit);
    assert_eq!(s4.hits, 1);
}

#[test]
fn end_clock_ignored_for_other_note_types() {
    let s = step_note(fresh(), 0, hold_at(true, true));
    assert!(!s.hold_end_effect);
    assert_eq!(s.hits, 1);
}

#[test]
fn stepping_twice_settles_for_every_consistent_clock() {
    let bools = [false, true];
    for &h in &bools {
        for &p in &bools {
            for &e in &bools {
                for &reached in &bools {
                    for end in [None, Some(false), Some(true)] {
                        for note_type in [0u32, HOLD_NOTE] {
                            let clock = NoteClock {
                                reached,
                                before: !reached,
                                hold_end: end.map(|r| HoldEndClock {
                                    before_end: !r,
                                    reached_end: r,
                                }),
                            };
                            if !reached && end == Some(true) && note_type == HOLD_NOTE {
                                continue;
                            }
                            let flags =
                                NoteFlags { is_hit: h, is_play_hit: p, is_play_hold_end_hit: e };
                            let first = step_note(flags, note_type, clock);
                            let second = step_note(first.flags, note_type, clock);
                            assert_eq!(second.flags, first.flags);
                            assert!(!second.play_hit && !second.hold_end_effect);
                            assert_eq!(second.hits, first.hits);
                            assert!(first.hits <= 2);
                            assert_eq!(first.hits == 0, clock.before);
                        }
                    }
                }
            }
        }
    }
}
