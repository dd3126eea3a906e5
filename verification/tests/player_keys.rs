use ch_rzl::player::{
    on_key, plan_inputs, player_status, Action, InputPlan, Key, PlayerSettings, PlayerStatus,
    PlayerView, MAX_SPEED, MIN_SPEED, watermark_text,
};

fn view(chart_loaded: bool, chart_path_empty: bool, is_playing: bool) -> PlayerView {
    PlayerView { chart_loaded, chart_path_empty, is_playing }
}

#[test]
fn default_settings() {
    let s = PlayerSettings::new();
    assert_eq!(s, PlayerSettings { speed_value: 10, show_debug: false, recorder_watermark: false });
    assert_eq!(PlayerSettings::default(), s);
}

#[test]
fn speed_keys_step_within_bounds() {
    let v = view(true, false, false);
    let mut s = PlayerSettings::new();
    for _ in 0..30 {
        assert_eq!(on_key(&mut s, v, Key::Up), Action::ShowSpeed);
    }
    assert_eq!(s.speed_value, MAX_SPEED);
    for _ in 0..30 {
        assert_eq!(on_key(&mut s, v, Key::Down), Action::ShowSpeed);
    }
    assert_eq!(s.speed_value, MIN_SPEED);
    on_key(&mut s, v, Key::Up);
    assert_eq!(s.speed_value, 4);
}

#[test]
fn up_then_down_returns() {
    let v = view(false, true, false);
    for start in MIN_SPEED..MAX_SPEED {
        let mut s = PlayerSettings { speed_value: start, show_debug: true, recorder_watermark: false };
        on_key(&mut s, v, Key::Up);
        on_key(&mut s, v, Key::Down);
        assert_eq!(s.speed_value, start);
    }
}

#[test]
fn out_of_range_speed_is_pulled_back() {
    let v = view(false, true, false);
    let mut s = PlayerSettings { speed_value: 50, show_debug: false, recorder_watermark: false };
    on_key(&mut s, v, Key::Up);
    assert_eq!(s.speed_value, 20);
    let mut s = PlayerSettings { speed_value: -7, show_debug: false, recorder_watermark: false };
    on_key(&mut s, v, Key::Down);
    assert_eq!(s.speed_value, 3);
}

#[test]
fn debug_key_flips() {
    let v = view(false, true, false);
    let mut s = PlayerSettings::new();
    assert_eq!(on_key(&mut s, v, Key::D), Action::ShowDebug);
    assert!(s.show_debug);
    on_key(&mut s, v, Key::D);
    assert!(!s.show_debug);
}

#[test]
fn action_keys() {
    let mut s = PlayerSettings::new();
    let before = s;
    let v = view(true, false, true);
    assert_eq!(on_key(&mut s, v, Key::O), Action::SelectChartAndAudio);
    assert_eq!(on_key(&mut s, v, Key::C), Action::SelectChart);
    assert_eq!(on_key(&mut s, v, Key::B), Action::SelectAudio);
    assert_eq!(on_key(&mut s, v, Key::L), Action::ReloadChart);
    assert_eq!(on_key(&mut s, view(true, true, true), Key::L), Action::SelectChart);
    assert_eq!(on_key(&mut s, v, Key::R), Action::ToggleRevelation);
    assert_eq!(on_key(&mut s, v, Key::Escape), Action::StopPlay);
    assert_eq!(on_key(&mut s, v, Key::PageUp), Action::VolumeHigh);
    assert_eq!(on_key(&mut s, v, Key::PageDown), Action::VolumeLow);
    assert_eq!(s, before);
}

#[test]
fn space_toggles_loaded_chart() {
    let mut s = PlayerSettings::new();
    assert_eq!(on_key(&mut s, view(true, false, false), Key::Space), Action::StartPlay);
    assert_eq!(on_key(&mut s, view(true, false, true), Key::Space), Action::StopPlay);
    assert_eq!(on_key(&mut s, view(false, false, false), Key::Space), Action::Nothing);
    assert_eq!(on_key(&mut s, view(false, true, true), Key::Space), Action::Nothing);
}

#[test]
fn status_line() {
    assert_eq!(player_status(true, true), PlayerStatus::Playing);
    assert_eq!(player_status(true, false), PlayerStatus::Playing);
    assert_eq!(player_status(false, true), PlayerStatus::Loaded);
    assert_eq!(player_status(false, false), PlayerStatus::NoChart);
}

#[test]
fn render_input_plan() {
    assert_eq!(
        plan_inputs(false, true, false, true),
        InputPlan { pick_chart: false, chart_path_is_music: false }
    );
    assert_eq!(
        plan_inputs(true, false, false, true),
        InputPlan { pick_chart: true, chart_path_is_music: false }
    );
    assert_eq!(
        plan_inputs(false, false, true, true),
        InputPlan { pick_chart: true, chart_path_is_music: true }
    );
    assert_eq!(
        plan_inputs(false, false, true, false),
        InputPlan { pick_chart: true, chart_path_is_music: false }
    );
    assert_eq!(
        plan_inputs(false, false, false, true),
        InputPlan { pick_chart: true, chart_path_is_music: false }
    );
}

#[test]
fn watermark_names_player_or_recorder() {
    assert_eq!(watermark_text(false, false), "RE:CH-RZL-RUST PLAYER v0.1.0 by CHCAT1320");
    assert_eq!(watermark_text(true, false), "RE:CH-RZL-RUST RECORDER v0.1.0 by CHCAT1320");
    assert_eq!(
        watermark_text(false, true),
        "CHART REVELATION : RE:CH-RZL-RUST PLAYER VERSION 0.1.0 ALL CODE BY CHCAT1320"
    );
    assert_eq!(
        watermark_text(true, true),
        "CHART REVELATION : RE:CH-RZL-RUST RECORDER VERSION 0.1.0 ALL CODE BY CHCAT1320"
    );
}
