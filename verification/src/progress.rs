//! Progress reporting of an offline render: reading the encoder's progress
//! lines, mapping a stage's percentage into the overall bar, deciding which
//! frames are logged, placing the progress window, and wording durations.
use vstd::prelude::*;
use crate::text::{push_char, chars_of, chars_start_with, decimal, parse_unsigned, parse_unsigned_from,
    push_decimal, starts_with, trim, trim_from, is_space, lead_space, trail_space,
    lemma_decimal_digits, lemma_decimal_reads_back};

verus! {

/// A progress line `out_time_ms=<n>` (white space around `<n>` allowed)
/// reports `n`; any other line reports nothing.
pub open spec fn spec_progress_time(line: Seq<char>) -> Option<int> {
    if starts_with(line, "out_time_ms="@) {
        parse_unsigned(trim(line.skip(12)), u64::MAX as int)
    } else {
        None
    }
}

/// Reads the time an encoder progress line reports.
pub fn parse_progress_time(line: &str) -> (r: Option<u64>)
    ensures
        match r {
            Some(v) => spec_progress_time(line@) == Some(v as int),
            None => spec_progress_time(line@) is None,
        },
{
    let cs = chars_of(line);
    if !chars_start_with(&cs, "out_time_ms=") {
        return None;
    }
    proof {
        reveal_strlit("out_time_ms=");
    }
    let t = trim_from(&cs, 12);
    let r = parse_unsigned_from(&t, 0, u64::MAX);
    assert(t@.skip(0) =~= t@);
    r
}

/// Every progress line that reports a time in decimal digits reads back as
/// that time.
pub proof fn lemma_progress_time_reads_back(n: nat)
    requires
        n <= u64::MAX,
    ensures
        spec_progress_time("out_time_ms="@ + decimal(n)) == Some(n as int),
{
    reveal_strlit("out_time_ms=");
    let p = "out_time_ms="@;
    let d = decimal(n);
    let line = p + d;
    lemma_decimal_digits(n);
    assert(line.take(12) =~= p);
    assert(line.skip(12) =~= d);
    assert(!is_space(d[0]));
    assert(lead_space(d) == 0);
    assert(!is_space(d.last()));
    assert(trail_space(d) == 0);
    assert(d.skip(0) =~= d);
    assert(d.take(d.len() as int) =~= d);
    assert(trim(d) == d);
    lemma_decimal_reads_back(n, u64::MAX as int);
}

/// Where a stage that runs from `from` to `to` on the overall bar stands
/// when it is `local` percent done.
pub open spec fn spec_stage_progress(from: int, to: int, local: int) -> int {
    from + (to - from) * local / 100
}

pub fn stage_progress(from: u64, to: u64, local: u64) -> (done: u64)
    requires
        from <= to,
        local <= 100,
        to <= u64::MAX / 100,
    ensures
        done == spec_stage_progress(from as int, to as int, local as int),
        from <= done <= to,
{
    proof {
        assert((to - from) * local <= (to - from) * 100) by (nonlinear_arith)
            requires
                from <= to,
                local <= 100,
        ;
        assert((to - from) * local / 100 <= to - from) by (nonlinear_arith)
            requires
                (to - from) * local <= (to - from) * 100,
                from <= to,
        ;
        assert(0 <= (to - from) * local) by (nonlinear_arith)
            requires
                from <= to,
        ;
    }
    from + (to - from) * local / 100
}

/// A render logs its first frame, its last frame, and every frame that ends
/// a second of video.
pub open spec fn spec_report_frame(frame: int, frame_count: int, fps: int) -> bool {
    let done = frame + 1;
    let per = if fps > 1 {
        fps
    } else {
        1
    };
    frame == 0 || done == frame_count || done % per == 0
}

pub fn should_report_frame(frame: u32, frame_count: u32, fps: u32) -> (r: bool)
    requires
        frame < frame_count,
    ensures
        r == spec_report_frame(frame as int, frame_count as int, fps as int),
{
    let done = frame + 1;
    let per = if fps > 1 {
        fps
    } else {
        1
    };
    frame == 0 || done == frame_count || done % per == 0
}

// ---------------------------------------------------------------------------
// Window placement
// ---------------------------------------------------------------------------

/// The player's client area plus a frame and title-bar allowance.
pub const OUTER_W: i32 = 466;
pub const OUTER_H: i32 = 819;

pub open spec fn max0(x: int) -> int {
    if x > 0 {
        x
    } else {
        0
    }
}

/// The top-left corner that centres the window in the work area, kept
/// inside it vertically (top edge winning when the area is too short), with
/// negative coordinates moved to 0.
pub open spec fn spec_window_position(left: int, top: int, right: int, bottom: int) -> (int, int) {
    let x = left + max0(right - left - OUTER_W) / 2;
    let y0 = top + max0(bottom - top - OUTER_H) / 2;
    let max_y = bottom - OUTER_H;
    let y1 = if y0 > max_y {
        max_y
    } else {
        y0
    };
    let y = if y1 < top {
        top
    } else {
        y1
    };
    (max0(x), max0(y))
}

/// The arithmetic stays within `i32`.
pub open spec fn window_position_fits(left: int, top: int, right: int, bottom: int) -> bool {
    &&& i32::MIN <= right - left <= i32::MAX
    &&& i32::MIN <= bottom - top <= i32::MAX
    &&& i32::MIN <= right - left - OUTER_W
    &&& i32::MIN <= bottom - top - OUTER_H
    &&& i32::MIN <= bottom - OUTER_H
    &&& left + max0(right - left - OUTER_W) / 2 <= i32::MAX
    &&& top + max0(bottom - top - OUTER_H) / 2 <= i32::MAX
}

pub fn centered_window_position(left: i32, top: i32, right: i32, bottom: i32) -> (pos: (u32, u32))
    requires
        window_position_fits(left as int, top as int, right as int, bottom as int),
    ensures
        pos.0 as int == spec_window_position(left as int, top as int, right as int, bottom as int).0,
        pos.1 as int == spec_window_position(left as int, top as int, right as int, bottom as int).1,
{
    let work_w = right - left;
    let work_h = bottom - top;
    let dx = work_w - OUTER_W;
    let dy = work_h - OUTER_H;
    let x = left + (if dx > 0 {
        dx
    } else {
        0
    }) / 2;
    let mut y = top + (if dy > 0 {
        dy
    } else {
        0
    }) / 2;
    let max_y = bottom - OUTER_H;
    if y > max_y {
        y = max_y;
    }
    if y < top {
        y = top;
    }
    let px: u32 = if x > 0 {
        x as u32
    } else {
        0
    };
    let py: u32 = if y > 0 {
        y as u32
    } else {
        0
    };
    (px, py)
}

/// A centred window whose work area has room for it lies wholly inside
/// that area.
pub proof fn lemma_window_inside(left: int, top: int, right: int, bottom: int)
    requires
        0 <= left,
        0 <= top,
        right - left >= OUTER_W,
        bottom - top >= OUTER_H,
    ensures
        ({
            let (x, y) = spec_window_position(left, top, right, bottom);
            &&& left <= x
            &&& x + OUTER_W <= right
            &&& top <= y
            &&& y + OUTER_H <= bottom
        }),
{
}

// ---------------------------------------------------------------------------
// Durations
// ---------------------------------------------------------------------------

/// Days, hours, minutes and seconds of a whole number of seconds, leaving
/// out the leading units that are zero (`"0秒"` for zero).
pub open spec fn spec_duration_text(total: nat) -> Seq<char> {
    let days = total / 86400;
    let hours = (total % 86400) / 3600;
    let minutes = (total % 3600) / 60;
    let secs = total % 60;
    if days > 0 {
        decimal(days) + seq!['天'] + decimal(hours) + seq!['时'] + decimal(minutes) + seq!['分']
            + decimal(secs) + seq!['秒']
    } else if hours > 0 {
        decimal(hours) + seq!['时'] + decimal(minutes) + seq!['分'] + decimal(secs) + seq!['秒']
    } else if minutes > 0 {
        decimal(minutes) + seq!['分'] + decimal(secs) + seq!['秒']
    } else {
        decimal(secs) + seq!['秒']
    }
}

/// Words a whole number of seconds for the progress window.
pub fn format_duration_secs(total: u64) -> (s: String)
    ensures
        s@ == spec_duration_text(total as nat),
{
    let days = total / 86400;
    let mut rest = total % 86400;
    let hours = rest / 3600;
    rest = rest % 3600;
    let minutes = rest / 60;
    let secs = rest % 60;
    proof {
        assert((total % 86400) % 3600 == total % 3600) by (nonlinear_arith);
        assert((total % 3600) % 60 == total % 60) by (nonlinear_arith);
    }
    let mut s = String::new();
    if days > 0 {
        push_decimal(&mut s, days);
        push_char(&mut s, '天');
        push_decimal(&mut s, hours);
        push_char(&mut s, '时');
        push_decimal(&mut s, minutes);
        push_char(&mut s, '分');
        push_decimal(&mut s, secs);
        push_char(&mut s, '秒');
    } else if hours > 0 {
        push_decimal(&mut s, hours);
        push_char(&mut s, '时');
        push_decimal(&mut s, minutes);
        push_char(&mut s, '分');
        push_decimal(&mut s, secs);
        push_char(&mut s, '秒');
    } else if minutes > 0 {
        push_decimal(&mut s, minutes);
        push_char(&mut s, '分');
        push_decimal(&mut s, secs);
        push_char(&mut s, '秒');
    } else {
        push_decimal(&mut s, secs);
        push_char(&mut s, '秒');
    }
    assert(s@ =~= spec_duration_text(total as nat));
    s
}

/// The units of a worded duration add back up to the whole: days, hours,
/// minutes and seconds each stay below their carry.
pub proof fn lemma_duration_parts(total: nat)
    ensures
        (total / 86400) * 86400 + ((total % 86400) / 3600) * 3600 + ((total % 3600) / 60) * 60
            + total % 60 == total,
        (total % 86400) / 3600 < 24,
        (total % 3600) / 60 < 60,
        total % 60 < 60,
{
    assert((total / 86400) * 86400 + ((total % 86400) / 3600) * 3600 + ((total % 3600) / 60) * 60
        + total % 60 == total) by (nonlinear_arith);
    assert((total % 86400) / 3600 < 24) by (nonlinear_arith);
    assert((total % 3600) / 60 < 60) by (nonlinear_arith);
}

} // verus!
