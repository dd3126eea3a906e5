use ch_rzl::cli::{parse_render_args, RenderArgs, RevelationArg, RENDER_FPS};

fn args(list: &[&str]) -> Vec<String> {
    list.iter().map(|s| s.to_string()).collect()
}

fn parse(list: &[&str]) -> Option<RenderArgs> {
    parse_render_args(&args(list))
}

#[test]
fn no_render_switch_means_player_mode() {
    assert!(parse(&["ch-rzl.exe"]).is_none());
    assert!(parse(&["ch-rzl.exe", "song.json", "--fps", "30"]).is_none());
    assert!(parse(&[]).is_none());
    assert!(parse(&["--Render"]).is_none());
}

#[test]
fn defaults_after_render_switch() {
    let r = parse(&["ch-rzl.exe", "--render"]).unwrap();
    assert_eq!(r.chart_path, "");
    assert_eq!(r.bgm_path, "");
    assert_eq!(r.output_path, "render_output.mp4");
    assert_eq!(r.fps, RENDER_FPS);
    assert_eq!(r.fps, 60);
    assert!(matches!(r.revelation, RevelationArg::NotGiven));
    assert_eq!(r.hw_encoder, None);
}

#[test]
fn positional_paths_by_extension() {
    let r = parse(&["x", "render", "music.OGG", "out.mkv", "Chart.Json", "other.json", "b.mp3"]).unwrap();
    assert_eq!(r.chart_path, "Chart.Json");
    assert_eq!(r.bgm_path, "music.OGG");
    assert_eq!(r.output_path, "out.mkv");
}

#[test]
fn arguments_before_the_switch_are_ignored() {
    let r = parse(&["a.json", "--fps", "30", "--render", "b.json"]).unwrap();
    assert_eq!(r.chart_path, "b.json");
    assert_eq!(r.fps, 60);
}

#[test]
fn fps_is_clamped() {
    assert_eq!(parse(&["--render", "--fps", "30"]).unwrap().fps, 30);
    assert_eq!(parse(&["--render", "--fps", "0"]).unwrap().fps, 1);
    assert_eq!(parse(&["--render", "--fps", "1000"]).unwrap().fps, 240);
    assert_eq!(parse(&["--render", "--fps", "+24"]).unwrap().fps, 24);
}

#[test]
fn bad_fps_value_is_skipped() {
    let r = parse(&["--render", "--fps", "fast", "a.json"]).unwrap();
    assert_eq!(r.fps, 60);
    assert_eq!(r.chart_path, "a.json");
    // the word after --fps is consumed even when it is not a number
    let r = parse(&["--render", "--fps", "song.json"]).unwrap();
    assert_eq!(r.chart_path, "");
    // too large for u32: ignored
    assert_eq!(parse(&["--render", "--fps", "4294967296"]).unwrap().fps, 60);
    // at the very end
    assert_eq!(parse(&["--render", "--fps"]).unwrap().fps, 60);
}

#[test]
fn revelation_options() {
    let r = parse(&["--render", "--rev", "0.5", "a.json"]).unwrap();
    match r.revelation {
        RevelationArg::Given(Some(v)) => assert_eq!(v, "0.5"),
        _ => panic!("revelation value expected"),
    }
    assert_eq!(r.chart_path, "a.json");
    let r = parse(&["--render", "--revelation", "--fps", "24"]).unwrap();
    assert!(matches!(r.revelation, RevelationArg::Given(None)));
    assert_eq!(r.fps, 24);
    let r = parse(&["--render", "a.json", "--revelation-scale"]).unwrap();
    assert!(matches!(r.revelation, RevelationArg::Given(None)));
    let r = parse(&["--render", "--revelation-size", "2", "--rev", "3"]).unwrap();
    match r.revelation {
        RevelationArg::Given(Some(v)) => assert_eq!(v, "3"),
        _ => panic!("last revelation value expected"),
    }
}

#[test]
fn hardware_encoder_options() {
    let r = parse(&["--render", "--hwaccel", "HEVC_QSV", "a.json"]).unwrap();
    assert_eq!(r.hw_encoder.as_deref(), Some("hevc_qsv"));
    assert_eq!(r.chart_path, "a.json");
    // an unknown name selects the default encoder and stays positional
    let r = parse(&["--render", "--hardware-accel", "a.json"]).unwrap();
    assert_eq!(r.hw_encoder.as_deref(), Some("h264_nvenc"));
    assert_eq!(r.chart_path, "a.json");
    let r = parse(&["--render", "--hardware-encoder"]).unwrap();
    assert_eq!(r.hw_encoder.as_deref(), Some("h264_nvenc"));
    let r = parse(&["--render", "--hwaccel", "--fps", "30"]).unwrap();
    assert_eq!(r.hw_encoder.as_deref(), Some("h264_nvenc"));
    assert_eq!(r.fps, 30);
    let r = parse(&["--render", "--hwaccel", "h264_amf"]).unwrap();
    assert_eq!(r.hw_encoder.as_deref(), Some("h264_amf"));
}

#[test]
fn unknown_options_are_skipped() {
    let r = parse(&["--render", "--verbose", "a.json", "--x", "b.wav"]).unwrap();
    assert_eq!(r.chart_path, "a.json");
    assert_eq!(r.bgm_path, "b.wav");
}

#[test]
fn fps_always_in_range() {
    for v in ["0", "1", "59", "240", "241", "65535", "4294967295", "x", ""] {
        let r = parse(&["--render", "--fps", v]).unwrap();
        assert!((1..=240).contains(&r.fps), "{}", v);
    }
}

const CHART: &str = "chart.RIP.eicateve.0.IN.json";
const MUSIC: &str = "RIP.eicateve.0.wav";

#[test]
fn documented_basic_command() {
    let r = parse(&["ch-rzl", "--render", CHART, MUSIC, "output.mp4"]).unwrap();
    assert_eq!(r.chart_path, CHART);
    assert_eq!(r.bgm_path, MUSIC);
    assert_eq!(r.output_path, "output.mp4");
    assert_eq!(r.fps, 60);
    assert_eq!(r.hw_encoder, None);
    assert!(matches!(r.revelation, RevelationArg::NotGiven));
}

#[test]
fn documented_output_only_command() {
    let r = parse(&["ch-rzl", "--render", "output.mp4"]).unwrap();
    assert_eq!(r.chart_path, "");
    assert_eq!(r.bgm_path, "");
    assert_eq!(r.output_path, "output.mp4");
}

#[test]
fn documented_fps_and_revelation_commands() {
    let r = parse(&["ch-rzl", "--render", CHART, MUSIC, "output.mp4", "--fps", "60"]).unwrap();
    assert_eq!(r.fps, 60);
    assert_eq!(r.output_path, "output.mp4");
    let r = parse(&["ch-rzl", "--render", CHART, MUSIC, "output.mp4", "--rev", "0.3"]).unwrap();
    match r.revelation {
        RevelationArg::Given(Some(v)) => assert_eq!(v, "0.3"),
        _ => panic!("revelation value expected"),
    }
}

#[test]
fn documented_hardware_encoder_commands() {
    let r = parse(&["ch-rzl", "--render", CHART, MUSIC, "output.mp4", "--hwaccel"]).unwrap();
    assert_eq!(r.hw_encoder.as_deref(), Some("h264_nvenc"));
    for enc in ["h264_nvenc", "h264_qsv", "h264_amf", "hevc_nvenc", "hevc_qsv", "hevc_amf"] {
        let r = parse(&["ch-rzl", "--render", CHART, MUSIC, "output.mp4", "--hwaccel", enc]).unwrap();
        assert_eq!(r.hw_encoder.as_deref(), Some(enc));
        assert_eq!(r.chart_path, CHART);
    }
}

#[test]
fn chosen_paths_have_their_kinds() {
    let cases: [&[&str]; 4] = [
        &["--render", "a.txt", "b.doc", "c"],
        &["--render", "x.JSON", "y.Wav", "z.WEBM"],
        &["--render", "song.mp3", "chart.json", "--fps", "30"],
        &["--render"],
    ];
    for list in cases {
        let r = parse(list).unwrap();
        assert!(r.chart_path.is_empty() || r.chart_path.to_lowercase().ends_with(".json"));
        assert!(r.bgm_path.is_empty() || ch_rzl::paths::looks_like_audio_path(&r.bgm_path));
        assert!(r.output_path == "render_output.mp4" || ch_rzl::paths::looks_like_video_path(&r.output_path));
    }
}
