use ch_rzl::progress::{
    centered_window_position, format_duration_secs, parse_progress_time, should_report_frame,
    stage_progress, OUTER_H, OUTER_W,
};

#[test]
fn progress_time_lines() {
    assert_eq!(parse_progress_time("out_time_ms=1500000"), Some(1_500_000));
    assert_eq!(parse_progress_time("out_time_ms= 42 \n"), Some(42));
    assert_eq!(parse_progress_time("out_time_ms=0"), Some(0));
    assert_eq!(parse_progress_time("out_time_ms=N/A"), None);
    assert_eq!(parse_progress_time("out_time_ms="), None);
    assert_eq!(parse_progress_time("out_time_us=10"), None);
    assert_eq!(parse_progress_time("progress=end"), None);
    assert_eq!(parse_progress_time(" out_time_ms=10"), None);
    assert_eq!(parse_progress_time("out_time_ms=-5"), None);
    assert_eq!(parse_progress_time("out_time_ms=18446744073709551615"), Some(u64::MAX));
    assert_eq!(parse_progress_time("out_time_ms=18446744073709551616"), None);
}

#[test]
fn stage_progress_maps_into_range() {
    assert_eq!(stage_progress(0, 100, 50), 50);
    assert_eq!(stage_progress(10, 45, 0), 10);
    assert_eq!(stage_progress(10, 45, 100), 45);
    assert_eq!(stage_progress(10, 45, 50), 27);
    assert_eq!(stage_progress(45, 95, 33), 61);
    assert_eq!(stage_progress(7, 7, 80), 7);
}

#[test]
fn frames_reported() {
    // first, every second of video, and last
    assert!(should_report_frame(0, 100, 60));
    assert!(!should_report_frame(1, 100, 60));
    assert!(should_report_frame(59, 100, 60));
    assert!(!should_report_frame(60, 100, 60));
    assert!(should_report_frame(119, 200, 60));
    assert!(should_report_frame(99, 100, 60));
    // a frame rate of 0 or 1 reports every frame
    assert!(should_report_frame(5, 10, 0));
    assert!(should_report_frame(5, 10, 1));
}

#[test]
fn window_centred_in_work_area() {
    assert_eq!((OUTER_W, OUTER_H), (466, 819));
    // 1920x1040 work area
    assert_eq!(centered_window_position(0, 0, 1920, 1040), (727, 110));
    // offset work area
    assert_eq!(centered_window_position(100, 50, 1100, 950), (367, 90));
}

#[test]
fn window_in_small_work_area() {
    // too short: top edge wins
    assert_eq!(centered_window_position(0, 20, 400, 600), (0, 20));
    // negative coordinates become 0
    assert_eq!(centered_window_position(-500, -300, 0, 0), (0, 0));
}

#[test]
fn window_inside_when_room() {
    for (l, t, r, b) in [(0, 0, 1920, 1040), (10, 10, 476, 829), (300, 0, 2000, 5000)] {
        let (x, y) = centered_window_position(l, t, r, b);
        let (x, y) = (x as i32, y as i32);
        assert!(l <= x && x + OUTER_W <= r);
        assert!(t <= y && y + OUTER_H <= b);
    }
}

#[test]
fn durations_worded() {
    assert_eq!(format_duration_secs(0), "0秒");
    assert_eq!(format_duration_secs(59), "59秒");
    assert_eq!(format_duration_secs(60), "1分0秒");
    assert_eq!(format_duration_secs(3599), "59分59秒");
    assert_eq!(format_duration_secs(3600), "1时0分0秒");
    assert_eq!(format_duration_secs(86399), "23时59分59秒");
    assert_eq!(format_duration_secs(86400), "1天0时0分0秒");
    assert_eq!(format_duration_secs(90061), "1天1时1分1秒");
}

#[test]
fn decimal_progress_lines_read_back() {
    for n in [0u64, 7, 10, 999_999, 1_234_567_890, u64::MAX] {
        assert_eq!(parse_progress_time(&format!("out_time_ms={}", n)), Some(n));
    }
}
