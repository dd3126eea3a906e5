use ch_rzl::paths::{is_wav_path, looks_like_audio_path, looks_like_chart_path, looks_like_video_path};
use ch_rzl::text::{
    chars_eq, chars_eq_str, chars_of, chars_start_with, is_space_char, lower_char, lower_chars,
    parse_unsigned_from, push_decimal, string_from_chars, trim_fraction_zeros, trim_from,
};

#[test]
fn chars_round_trip() {
    let s = "谱面 chart ✓";
    let cs = chars_of(s);
    assert_eq!(cs, s.chars().collect::<Vec<char>>());
    assert_eq!(string_from_chars(&cs), s);
    assert!(chars_of("").is_empty());
}

#[test]
fn ascii_case_folding() {
    assert_eq!(lower_char('A'), 'a');
    assert_eq!(lower_char('Z'), 'z');
    assert_eq!(lower_char('a'), 'a');
    assert_eq!(lower_char('É'), 'É');
    assert_eq!(lower_char('['), '[');
    assert_eq!(lower_chars(&chars_of("MiXeD.JSON")), chars_of("mixed.json"));
}

#[test]
fn char_comparisons() {
    assert!(chars_eq(&chars_of("abc"), &chars_of("abc")));
    assert!(!chars_eq(&chars_of("abc"), &chars_of("abd")));
    assert!(!chars_eq(&chars_of("abc"), &chars_of("ab")));
    assert!(chars_eq_str(&chars_of("--fps"), "--fps"));
    assert!(!chars_eq_str(&chars_of("--fps"), "--FPS"));
    assert!(chars_start_with(&chars_of("--render"), "--"));
    assert!(chars_start_with(&chars_of("x"), ""));
    assert!(!chars_start_with(&chars_of("-"), "--"));
}

#[test]
fn white_space_like_std() {
    for c in ['\t', '\n', '\u{b}', '\u{c}', '\r', ' ', '\u{85}', '\u{a0}', '\u{1680}', '\u{2000}',
        '\u{200a}', '\u{2028}', '\u{2029}', '\u{202f}', '\u{205f}', '\u{3000}', 'a', '0', '\u{200b}',
        '\u{1f}']
    {
        assert_eq!(is_space_char(c), c.is_whitespace(), "{:?}", c);
    }
}

#[test]
fn trim_from_offset() {
    let cs = chars_of("key=  12 \t");
    assert_eq!(trim_from(&cs, 4), chars_of("12"));
    assert_eq!(trim_from(&cs, cs.len()), Vec::<char>::new());
    assert_eq!(trim_from(&chars_of("   "), 0), Vec::<char>::new());
    assert_eq!(trim_from(&chars_of("a b"), 0), chars_of("a b"));
}

#[test]
fn parse_unsigned_like_std() {
    let cases = ["0", "42", "+7", "007", "", "+", "-1", "1 2", "4294967295", "4294967296", "12a",
        "18446744073709551615", "99999999999999999999"];
    for s in cases {
        let cs = chars_of(s);
        assert_eq!(parse_unsigned_from(&cs, 0, u32::MAX as u64), s.parse::<u32>().ok().map(|v| v as u64), "{}", s);
        assert_eq!(parse_unsigned_from(&cs, 0, u64::MAX), s.parse::<u64>().ok(), "{}", s);
    }
    assert_eq!(parse_unsigned_from(&chars_of("fps=30"), 4, 1000), Some(30));
}

#[test]
fn decimal_reads_back() {
    for n in [0u64, 1, 9, 10, 99, 100, 12345, u32::MAX as u64, u64::MAX] {
        let mut s = String::from("n=");
        push_decimal(&mut s, n);
        assert_eq!(s, format!("n={}", n));
        let cs = chars_of(&s);
        assert_eq!(parse_unsigned_from(&cs, 2, u64::MAX), Some(n));
    }
}

#[test]
fn chart_paths() {
    assert!(looks_like_chart_path("song.json"));
    assert!(looks_like_chart_path("charts/Song.JSON"));
    assert!(looks_like_chart_path("C:\\charts\\a.b.json"));
    assert!(looks_like_chart_path("dir/chart.json/."));
    assert!(!looks_like_chart_path(".json"));
    assert!(!looks_like_chart_path("json"));
    assert!(!looks_like_chart_path("a.json/.."));
    assert!(!looks_like_chart_path("a.jsonx"));
    assert!(!looks_like_chart_path(""));
}

#[test]
fn audio_paths() {
    for p in ["a.wav", "b.OGG", "c.Mp3", "d.flac", "e.aac", "f.m4a", "dir.x/track.wav"] {
        assert!(looks_like_audio_path(p), "{}", p);
    }
    for p in ["a.wma", "wav", "a.wav/..", "folder.mp3/readme", ".mp3"] {
        assert!(!looks_like_audio_path(p), "{}", p);
    }
}

#[test]
fn video_paths() {
    for p in ["out.mp4", "OUT.MKV", "x/y.mov", "clip.webm"] {
        assert!(looks_like_video_path(p), "{}", p);
    }
    for p in ["out.avi", "mp4", "out.mp4.txt"] {
        assert!(!looks_like_video_path(p), "{}", p);
    }
}

#[test]
fn path_kinds_never_overlap() {
    let names = ["a.json", "a.wav", "a.mp4", "a.ogg", "a.webm", "a.m4a", "a.mov", "a.flac",
        "a.mkv", "a.aac", "a.mp3", "a.txt", ".json", "x"];
    for p in names {
        let kinds = [looks_like_chart_path(p), looks_like_audio_path(p), looks_like_video_path(p)];
        assert!(kinds.iter().filter(|k| **k).count() <= 1, "{}", p);
    }
}

#[test]
fn wav_path_suffix() {
    assert!(is_wav_path("music.wav"));
    assert!(is_wav_path("MUSIC.WAV"));
    assert!(is_wav_path(".wav"));
    assert!(!is_wav_path("music.wave"));
    assert!(!is_wav_path("wav"));
    assert!(!is_wav_path("music.ogg"));
}

#[test]
fn fraction_zeros_trimmed() {
    assert_eq!(trim_fraction_zeros("1.500000"), "1.5");
    assert_eq!(trim_fraction_zeros("2.000000"), "2");
    assert_eq!(trim_fraction_zeros("0.000000"), "0");
    assert_eq!(trim_fraction_zeros("-0.300000"), "-0.3");
    assert_eq!(trim_fraction_zeros("0.123456"), "0.123456");
    assert_eq!(trim_fraction_zeros(""), "");
    for v in [0.3f64, 1.0, 12.25, 100.0, 0.000001] {
        let s = format!("{:.6}", v);
        assert_eq!(trim_fraction_zeros(&s), s.trim_end_matches('0').trim_end_matches('.'));
    }
}
