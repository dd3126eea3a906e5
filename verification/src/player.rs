//! The player's controls: what each key does to the settings and which
//! action it asks of the application, and the few decisions the player and
//! the offline renderer make about their inputs.
use vstd::prelude::*;
use crate::text::{chars_of, string_from_chars};

verus! {

/// The slowest and fastest note speeds the keys can select.
pub const MIN_SPEED: i32 = 3;
pub const MAX_SPEED: i32 = 20;

/// The settings the keys change (the revelation scale, a real number, is
/// kept by the application).
#[derive(Clone, Copy, Debug, PartialEq, Eq, Structural)]
pub struct PlayerSettings {
    pub speed_value: i32,
    pub show_debug: bool,
    /// The watermark names the recorder rather than the player.
    pub recorder_watermark: bool,
}

impl PlayerSettings {
    /// Speed 10, no debug overlay, player watermark.
    pub fn new() -> (s: PlayerSettings)
        ensures
            s == (PlayerSettings { speed_value: 10, show_debug: false, recorder_watermark: false }),
    {
        PlayerSettings { speed_value: 10, show_debug: false, recorder_watermark: false }
    }
}

impl Default for PlayerSettings {
    fn default() -> (s: PlayerSettings)
        ensures
            s == (PlayerSettings { speed_value: 10, show_debug: false, recorder_watermark: false }),
    {
        PlayerSettings::new()
    }
}

/// The keys the player reacts to.
#[derive(Clone, Copy, Debug, PartialEq, Eq, Structural)]
pub enum Key {
    O,
    C,
    B,
    L,
    Up,
    Down,
    R,
    D,
    Escape,
    Space,
    PageUp,
    PageDown,
}

/// What the application has to do after a key.
#[derive(Clone, Copy, Debug, PartialEq, Eq, Structural)]
pub enum Action {
    Nothing,
    SelectChartAndAudio,
    SelectChart,
    SelectAudio,
    ReloadChart,
    /// Report the new speed.
    ShowSpeed,
    /// Switch the revelation scale between normal and zoomed out.
    ToggleRevelation,
    /// Report the new debug setting.
    ShowDebug,
    StopPlay,
    StartPlay,
    /// Background music at 80 percent.
    VolumeHigh,
    /// Background music at 30 percent.
    VolumeLow,
}

/// What the application tells the controls about itself.
#[derive(Clone, Copy, Debug, PartialEq, Eq, Structural)]
pub struct PlayerView {
    pub chart_loaded: bool,
    pub chart_path_empty: bool,
    pub is_playing: bool,
}

pub open spec fn spec_on_key(s: PlayerSettings, view: PlayerView, key: Key) -> (
    PlayerSettings,
    Action,
) {
    match key {
        Key::O => (s, Action::SelectChartAndAudio),
        Key::C => (s, Action::SelectChart),
        Key::B => (s, Action::SelectAudio),
        Key::L => (s, if view.chart_path_empty {
            Action::SelectChart
        } else {
            Action::ReloadChart
        }),
        Key::Up => (
            PlayerSettings {
                speed_value: if s.speed_value + 1 < MAX_SPEED {
                    (s.speed_value + 1) as i32
                } else {
                    MAX_SPEED
                },
                ..s
            },
            Action::ShowSpeed,
        ),
        Key::Down => (
            PlayerSettings {
                speed_value: if s.speed_value - 1 > MIN_SPEED {
                    (s.speed_value - 1) as i32
                } else {
                    MIN_SPEED
                },
                ..s
            },
            Action::ShowSpeed,
        ),
        Key::R => (s, Action::ToggleRevelation),
        Key::D => (PlayerSettings { show_debug: !s.show_debug, ..s }, Action::ShowDebug),
        Key::Escape => (s, Action::StopPlay),
        Key::Space => (s, if !view.chart_loaded {
            Action::Nothing
        } else if view.is_playing {
            Action::StopPlay
        } else {
            Action::StartPlay
        }),
        Key::PageUp => (s, Action::VolumeHigh),
        Key::PageDown => (s, Action::VolumeLow),
    }
}

/// The speed can be stepped without leaving `i32`.
pub open spec fn speed_steppable(s: PlayerSettings, key: Key) -> bool {
    &&& (key == Key::Up ==> s.speed_value < i32::MAX)
    &&& (key == Key::Down ==> s.speed_value > i32::MIN)
}

/// Applies one key press: Up and Down step the speed within 3..=20, D
/// flips the debug overlay, and the other keys only ask for an action.
pub fn on_key(settings: &mut PlayerSettings, view: PlayerView, key: Key) -> (a: Action)
    requires
        speed_steppable(*old(settings), key),
    ensures
        (*final(settings), a) == spec_on_key(*old(settings), view, key),
{
    match key {
        Key::O => Action::SelectChartAndAudio,
        Key::C => Action::SelectChart,
        Key::B => Action::SelectAudio,
        Key::L => {
            if view.chart_path_empty {
                Action::SelectChart
            } else {
                Action::ReloadChart
            }
        },
        Key::Up => {
            let v = settings.speed_value + 1;
            settings.speed_value = if v < MAX_SPEED {
                v
            } else {
                MAX_SPEED
            };
            Action::ShowSpeed
        },
        Key::Down => {
            let v = settings.speed_value - 1;
            settings.speed_value = if v > MIN_SPEED {
                v
            } else {
                MIN_SPEED
            };
            Action::ShowSpeed
        },
        Key::R => Action::ToggleRevelation,
        Key::D => {
            settings.show_debug = !settings.show_debug;
            Action::ShowDebug
        },
        Key::Escape => Action::StopPlay,
        Key::Space => {
            if !view.chart_loaded {
                Action::Nothing
            } else if view.is_playing {
                Action::StopPlay
            } else {
                Action::StartPlay
            }
        },
        Key::PageUp => Action::VolumeHigh,
        Key::PageDown => Action::VolumeLow,
    }
}

/// The speed keys never take the speed out of 3..=20 once it is there, and
/// one step up followed by one step down returns to where it was below the
/// top speed (and symmetrically above the bottom speed).
pub proof fn lemma_speed_keys(s: PlayerSettings, view: PlayerView)
    requires
        MIN_SPEED <= s.speed_value <= MAX_SPEED,
    ensures
        MIN_SPEED <= spec_on_key(s, view, Key::Up).0.speed_value <= MAX_SPEED,
        MIN_SPEED <= spec_on_key(s, view, Key::Down).0.speed_value <= MAX_SPEED,
        s.speed_value < MAX_SPEED ==> spec_on_key(spec_on_key(s, view, Key::Up).0, view, Key::Down).0
            == s,
        s.speed_value > MIN_SPEED ==> spec_on_key(spec_on_key(s, view, Key::Down).0, view, Key::Up).0
            == s,
{
}

/// Space toggles playback of a loaded chart: pressed twice, from either
/// state, it asks for both a stop and a start.
pub proof fn lemma_space_toggles(s: PlayerSettings, view: PlayerView)
    requires
        view.chart_loaded,
    ensures
        spec_on_key(s, view, Key::Space).1 == (if view.is_playing {
            Action::StopPlay
        } else {
            Action::StartPlay
        }),
        spec_on_key(s, PlayerView { is_playing: !view.is_playing, ..view }, Key::Space).1 != spec_on_key(
            s,
            view,
            Key::Space,
        ).1,
{
}

// ---------------------------------------------------------------------------
// Status line and render inputs
// ---------------------------------------------------------------------------

/// Which status the player shows.
#[derive(Clone, Copy, Debug, PartialEq, Eq, Structural)]
pub enum PlayerStatus {
    Playing,
    Loaded,
    NoChart,
}

pub fn player_status(is_playing: bool, chart_loaded: bool) -> (st: PlayerStatus)
    ensures
        st == (if is_playing {
            PlayerStatus::Playing
        } else if chart_loaded {
            PlayerStatus::Loaded
        } else {
            PlayerStatus::NoChart
        }),
{
    if is_playing {
        PlayerStatus::Playing
    } else if chart_loaded {
        PlayerStatus::Loaded
    } else {
        PlayerStatus::NoChart
    }
}

/// How the offline renderer completes its inputs before rendering.
#[derive(Clone, Copy, Debug, PartialEq, Eq, Structural)]
pub struct InputPlan {
    /// The chart path given is not a chart: ask for one.
    pub pick_chart: bool,
    /// The path given in the chart's place is audio and no music was given:
    /// use it as the music.
    pub chart_path_is_music: bool,
}

/// Decides how the renderer completes its inputs from whether the chart
/// path is empty, looks like a chart and looks like audio, and whether the
/// music path is empty.
pub fn plan_inputs(
    chart_empty: bool,
    chart_is_chart: bool,
    chart_is_audio: bool,
    bgm_empty: bool,
) -> (p: InputPlan)
    ensures
        p.pick_chart == (chart_empty || !chart_is_chart),
        p.chart_path_is_music == (p.pick_chart && !chart_empty && chart_is_audio && bgm_empty),
{
    let pick_chart = chart_empty || !chart_is_chart;
    InputPlan {
        pick_chart,
        chart_path_is_music: pick_chart && !chart_empty && chart_is_audio && bgm_empty,
    }
}

// ---------------------------------------------------------------------------
// Watermark
// ---------------------------------------------------------------------------

/// Which program the watermark names: the recorder renders videos, the
/// player plays charts.
pub open spec fn app_name(recorder: bool) -> Seq<char> {
    if recorder {
        "RECORDER"@
    } else {
        "PLAYER"@
    }
}

/// The watermark line: a short one normally, a long one while the chart is
/// revealed (shown at a scale other than 1).
pub open spec fn spec_watermark(recorder: bool, revealed: bool) -> Seq<char> {
    if revealed {
        "CHART REVELATION : RE:CH-RZL-RUST "@ + app_name(recorder)
            + " VERSION 0.1.0 ALL CODE BY CHCAT1320"@
    } else {
        "RE:CH-RZL-RUST "@ + app_name(recorder) + " v0.1.0 by CHCAT1320"@
    }
}

fn push_str_chars(v: &mut Vec<char>, s: &str)
    ensures
        final(v)@ == old(v)@ + s@,
{
    let cs = chars_of(s);
    let mut i: usize = 0;
    while i < cs.len()
        invariant
            i <= cs@.len(),
            cs@ == s@,
            v@ == old(v)@ + cs@.take(i as int),
        decreases cs@.len() - i,
    {
        v.push(cs[i]);
        proof {
            assert(cs@.take(i + 1) =~= cs@.take(i as int).push(cs@[i as int]));
        }
        i = i + 1;
    }
    assert(cs@.take(cs@.len() as int) =~= cs@);
}

/// The watermark drawn over the chart.
pub fn watermark_text(recorder: bool, revealed: bool) -> (s: String)
    ensures
        s@ == spec_watermark(recorder, revealed),
{
    let mut v: Vec<char> = Vec::new();
    if revealed {
        push_str_chars(&mut v, "CHART REVELATION : RE:CH-RZL-RUST ");
    } else {
        push_str_chars(&mut v, "RE:CH-RZL-RUST ");
    }
    if recorder {
        push_str_chars(&mut v, "RECORDER");
    } else {
        push_str_chars(&mut v, "PLAYER");
    }
    if revealed {
        push_str_chars(&mut v, " VERSION 0.1.0 ALL CODE BY CHCAT1320");
    } else {
        push_str_chars(&mut v, " v0.1.0 by CHCAT1320");
    }
    assert(v@ =~= spec_watermark(recorder, revealed));
    string_from_chars(&v)
}

} // verus!
