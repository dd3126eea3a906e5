use ch_rzl::mixing::{
    mix_sfx, sfx_kind_for_note_type, sort_sfx_events, MixEvent, SfxBank, SfxEvent, SfxKind,
};

#[test]
fn drag_sound_for_types_one_and_three() {
    assert_eq!(sfx_kind_for_note_type(1), SfxKind::Drag);
    assert_eq!(sfx_kind_for_note_type(3), SfxKind::Drag);
    assert_eq!(sfx_kind_for_note_type(0), SfxKind::Hit);
    assert_eq!(sfx_kind_for_note_type(2), SfxKind::Hit);
    assert_eq!(sfx_kind_for_note_type(4), SfxKind::Hit);
    assert_eq!(sfx_kind_for_note_type(99), SfxKind::Hit);
}

fn ev(delay_ms: u64, kind: SfxKind) -> SfxEvent {
    SfxEvent { delay_ms, kind }
}

#[test]
fn sort_orders_by_delay_and_keeps_ties_in_order() {
    let events = vec![
        ev(5, SfxKind::Hit),
        ev(1, SfxKind::Drag),
        ev(5, SfxKind::Drag),
        ev(1, SfxKind::Hit),
        ev(0, SfxKind::Hit),
    ];
    let sorted = sort_sfx_events(&events);
    assert_eq!(
        sorted,
        vec![
            ev(0, SfxKind::Hit),
            ev(1, SfxKind::Drag),
            ev(1, SfxKind::Hit),
            ev(5, SfxKind::Hit),
            ev(5, SfxKind::Drag),
        ]
    );
}

#[test]
fn sort_matches_std_stable_sort() {
    let mut events = Vec::new();
    let mut x: u64 = 7;
    for i in 0..60u64 {
        x = (x * 31 + 11) % 97;
        let kind = if i % 3 == 0 { SfxKind::Drag } else { SfxKind::Hit };
        events.push(ev(x % 9, kind));
    }
    let mut expected = events.clone();
    expected.sort_by_key(|e| e.delay_ms);
    assert_eq!(sort_sfx_events(&events), expected);
}

#[test]
fn sort_of_empty_list() {
    assert!(sort_sfx_events(&Vec::new()).is_empty());
}

fn bank() -> SfxBank {
    SfxBank { hit: Some(vec![1000, 1000]), drag: None }
}

#[test]
fn mix_adds_sounds_and_clips() {
    let bgm: Vec<i16> = vec![100, 200, 32000, -32000];
    let events = vec![
        MixEvent { start_sample: 2, kind: SfxKind::Hit },
        MixEvent { start_sample: 5, kind: SfxKind::Hit },
        MixEvent { start_sample: 0, kind: SfxKind::Drag },
    ];
    let out = mix_sfx(&bgm, 6, &bank(), &events);
    assert_eq!(out, vec![100, 200, 32767, -31000, 0, 1000]);
}

#[test]
fn mix_clips_below() {
    let bgm: Vec<i16> = vec![-32000, -32000];
    let b = SfxBank { hit: None, drag: Some(vec![-1000]) };
    let events = vec![MixEvent { start_sample: 1, kind: SfxKind::Drag }];
    assert_eq!(mix_sfx(&bgm, 2, &b, &events), vec![-32000, -32768]);
}

#[test]
fn mix_overlapping_sounds_sum_before_clipping() {
    let bgm: Vec<i16> = vec![0; 4];
    let b = SfxBank { hit: Some(vec![20000, 20000]), drag: Some(vec![-30000]) };
    let events = vec![
        MixEvent { start_sample: 0, kind: SfxKind::Hit },
        MixEvent { start_sample: 1, kind: SfxKind::Hit },
        MixEvent { start_sample: 1, kind: SfxKind::Drag },
    ];
    // sample 1: 20000 + 20000 - 30000 = 10000, not clipped in between
    assert_eq!(mix_sfx(&bgm, 4, &b, &events), vec![20000, 10000, 20000, 0]);
}

#[test]
fn mix_truncates_and_pads_background() {
    let bgm: Vec<i16> = vec![1, 2, 3, 4, 5];
    let none = SfxBank { hit: None, drag: None };
    assert_eq!(mix_sfx(&bgm, 3, &none, &Vec::new()), vec![1, 2, 3]);
    assert_eq!(mix_sfx(&bgm, 7, &none, &Vec::new()), vec![1, 2, 3, 4, 5, 0, 0]);
    assert!(mix_sfx(&bgm, 0, &none, &Vec::new()).is_empty());
}

#[test]
fn mix_does_not_depend_on_event_order() {
    let bgm: Vec<i16> = vec![30000, -5, 7, 32767, 0, 0];
    let b = SfxBank { hit: Some(vec![3000, -3000, 100]), drag: Some(vec![-32768, 5]) };
    let events = vec![
        MixEvent { start_sample: 0, kind: SfxKind::Hit },
        MixEvent { start_sample: 3, kind: SfxKind::Drag },
        MixEvent { start_sample: 2, kind: SfxKind::Hit },
        MixEvent { start_sample: 9, kind: SfxKind::Hit },
    ];
    let mut reversed = events.clone();
    reversed.reverse();
    assert_eq!(mix_sfx(&bgm, 6, &b, &events), mix_sfx(&bgm, 6, &b, &reversed));
}

#[test]
fn sorted_events_stay_as_they_are() {
    let events = vec![ev(0, SfxKind::Drag), ev(3, SfxKind::Hit), ev(3, SfxKind::Drag), ev(9, SfxKind::Hit)];
    assert_eq!(sort_sfx_events(&events), events);
}

#[test]
fn mix_without_events_is_the_background() {
    let bgm: Vec<i16> = vec![i16::MIN, -1, 0, 1, i16::MAX, 12];
    let b = SfxBank { hit: Some(vec![5000]), drag: Some(vec![-5000]) };
    assert_eq!(mix_sfx(&bgm, 5, &b, &Vec::new()), bgm[..5].to_vec());
}
