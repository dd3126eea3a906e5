//! File names and extensions, read the way the player's target platform
//! reads a path: `/` and `\` both separate components, `.` components are
//! skipped, and a `..` component has no file name.
use vstd::prelude::*;
use crate::text::{chars_of, lower, lower_all, lower_char};

verus! {

pub open spec fn is_sep(c: char) -> bool {
    c == '/' || c == '\\'
}

/// Where the component ending at `end` starts: just after the last
/// separator before `end`.
pub open spec fn comp_start(p: Seq<char>, end: int) -> int
    decreases end,
{
    if end <= 0 {
        0
    } else if is_sep(p[end - 1]) {
        end
    } else {
        comp_start(p, end - 1)
    }
}

/// The component that ends at `end` starts after the last separator.
pub proof fn lemma_comp_start(p: Seq<char>, end: int)
    ensures
        end > 0 ==> 0 <= comp_start(p, end) <= end,
        end > 0 && !is_sep(p[end - 1]) ==> comp_start(p, end) < end,
        forall|j: int| comp_start(p, end) <= j < end ==> !is_sep(#[trigger] p[j]),
        comp_start(p, end) > 0 ==> is_sep(p[comp_start(p, end) - 1]),
    decreases end,
{
    if end > 0 && !is_sep(p[end - 1]) {
        lemma_comp_start(p, end - 1);
    }
}

/// The file name of `p[..end]`: its last component other than `.`; none if
/// that component is `..` or there is none.
pub open spec fn file_name_upto(p: Seq<char>, end: int) -> Option<(int, int)>
    decreases end,
{
    if end <= 0 {
        None
    } else if is_sep(p[end - 1]) {
        file_name_upto(p, end - 1)
    } else {
        let st = comp_start(p, end);
        proof {
            lemma_comp_start(p, end);
        }
        if end - st == 1 && p[st] == '.' {
            file_name_upto(p, st)
        } else if end - st == 2 && p[st] == '.' && p[st + 1] == '.' {
            None
        } else {
            Some((st, end))
        }
    }
}

/// The position of the last `.` in `p[from..to]`, if any.
pub open spec fn last_dot(p: Seq<char>, from: int, to: int) -> Option<int>
    decreases to - from,
{
    if to <= from {
        None
    } else if p[to - 1] == '.' {
        Some(to - 1)
    } else {
        last_dot(p, from, to - 1)
    }
}

/// The extension of the path `p`: what follows the last `.` of its file
/// name, unless that `.` starts the name.
pub open spec fn path_extension(p: Seq<char>) -> Option<Seq<char>> {
    match file_name_upto(p, p.len() as int) {
        Some((st, end)) => match last_dot(p, st, end) {
            Some(d) => if d > st {
                Some(p.subrange(d + 1, end))
            } else {
                None
            },
            None => None,
        },
        None => None,
    }
}

/// The path's extension, in lower case, is one of `exts`.
pub open spec fn extension_among(p: Seq<char>, exts: Seq<Seq<char>>) -> bool {
    match path_extension(p) {
        Some(e) => exts.contains(lower_all(e)),
        None => false,
    }
}

fn file_name_range(p: &Vec<char>) -> (r: Option<(usize, usize)>)
    ensures
        match r {
            Some((st, end)) => st < end <= p@.len() && file_name_upto(p@, p@.len() as int) == Some(
                (st as int, end as int),
            ),
            None => file_name_upto(p@, p@.len() as int) is None,
        },
{
    let mut end = p.len();
    while end > 0
        invariant
            end <= p@.len(),
            file_name_upto(p@, end as int) == file_name_upto(p@, p@.len() as int),
        decreases end,
    {
        if p[end - 1] == '/' || p[end - 1] == '\\' {
            end = end - 1;
        } else {
            let mut st = end - 1;
            while st > 0 && !(p[st - 1] == '/' || p[st - 1] == '\\')
                invariant
                    st < end,
                    end <= p@.len(),
                    comp_start(p@, st as int + 1) == comp_start(p@, end as int),
                    !is_sep(p@[st as int]),
                decreases st,
            {
                st = st - 1;
            }
            proof {
                lemma_comp_start(p@, end as int);
                assert(comp_start(p@, st as int + 1) == comp_start(p@, st as int));
                if st > 0 {
                    assert(is_sep(p@[st - 1]));
                    assert(comp_start(p@, st as int) == st as int);
                }
            }
            if end - st == 1 && p[st] == '.' {
                end = st;
            } else if end - st == 2 && p[st] == '.' && p[st + 1] == '.' {
                return None;
            } else {
                return Some((st, end));
            }
        }
    }
    None
}

fn last_dot_in(p: &Vec<char>, from: usize, to: usize) -> (r: Option<usize>)
    requires
        from <= to <= p@.len(),
    ensures
        match r {
            Some(d) => last_dot(p@, from as int, to as int) == Some(d as int),
            None => last_dot(p@, from as int, to as int) is None,
        },
{
    let mut t = to;
    while t > from
        invariant
            from <= t <= to,
            to <= p@.len(),
            last_dot(p@, from as int, t as int) == last_dot(p@, from as int, to as int),
        decreases t - from,
    {
        if p[t - 1] == '.' {
            return Some(t - 1);
        }
        t = t - 1;
    }
    None
}

/// The extension of `p` as a character range of `p`.
fn extension_range(p: &Vec<char>) -> (r: Option<(usize, usize)>)
    ensures
        match r {
            Some((a, b)) => a <= b <= p@.len() && path_extension(p@) == Some(
                p@.subrange(a as int, b as int),
            ),
            None => path_extension(p@) is None,
        },
{
    match file_name_range(p) {
        Some((st, end)) => match last_dot_in(p, st, end) {
            Some(d) => if d > st {
                proof {
                    lemma_last_dot_bounds(p@, st as int, end as int);
                }
                Some((d + 1, end))
            } else {
                None
            },
            None => None,
        },
        None => None,
    }
}

proof fn lemma_last_dot_bounds(p: Seq<char>, from: int, to: int)
    ensures
        last_dot(p, from, to) matches Some(d) ==> from <= d < to,
    decreases to - from,
{
    if to > from && p[to - 1] != '.' {
        lemma_last_dot_bounds(p, from, to - 1);
    }
}

/// `p[a..b]`, lower-cased, equals `lit`.
fn range_lower_eq(p: &Vec<char>, a: usize, b: usize, lit: &str) -> (r: bool)
    requires
        a <= b <= p@.len(),
    ensures
        r == (lower_all(p@.subrange(a as int, b as int)) == lit@),
{
    let l = chars_of(lit);
    if b - a != l.len() {
        return false;
    }
    let mut i: usize = 0;
    while i < l.len()
        invariant
            i <= l@.len(),
            l@ == lit@,
            b - a == l@.len(),
            a <= b <= p@.len(),
            forall|j: int| 0 <= j < i ==> lower(p@[a + j]) == l@[j],
        decreases l@.len() - i,
    {
        if lower_char(p[a + i]) != l[i] {
            assert(lower_all(p@.subrange(a as int, b as int))[i as int] != lit@[i as int]);
            return false;
        }
        i = i + 1;
    }
    assert(lower_all(p@.subrange(a as int, b as int)) =~= lit@);
    true
}

fn extension_in(p: &Vec<char>, exts: &[&str]) -> (r: bool)
    ensures
        r == extension_among(p@, exts@.map_values(|e: &str| e@)),
{
    let ghost es = exts@.map_values(|e: &str| e@);
    match extension_range(p) {
        Some((a, b)) => {
            let mut k: usize = 0;
            while k < exts.len()
                invariant
                    k <= exts@.len(),
                    a <= b <= p@.len(),
                    path_extension(p@) == Some(p@.subrange(a as int, b as int)),
                    es == exts@.map_values(|e: &str| e@),
                    forall|j: int|
                        0 <= j < k ==> es[j] != lower_all(p@.subrange(a as int, b as int)),
                decreases exts@.len() - k,
            {
                if range_lower_eq(p, a, b, exts[k]) {
                    proof {
                        assert(es[k as int] == exts@[k as int]@);
                        assert(es[k as int] == lower_all(p@.subrange(a as int, b as int)));
                    }
                    return true;
                }
                k = k + 1;
            }
            proof {
                let e = lower_all(p@.subrange(a as int, b as int));
                if es.contains(e) {
                    let j = choose|j: int| 0 <= j < es.len() && es[j] == e;
                    assert(false);
                }
            }
            false
        },
        None => false,
    }
}

pub open spec fn chart_exts() -> Seq<Seq<char>> {
    seq!["json"@]
}

pub open spec fn audio_exts() -> Seq<Seq<char>> {
    seq!["wav"@, "ogg"@, "mp3"@, "flac"@, "aac"@, "m4a"@]
}

pub open spec fn video_exts() -> Seq<Seq<char>> {
    seq!["mp4"@, "mkv"@, "mov"@, "webm"@]
}

/// A chart is a `.json` file, in any letter case.
pub fn looks_like_chart_path(path: &str) -> (r: bool)
    ensures
        r == extension_among(path@, chart_exts()),
{
    let p = chars_of(path);
    let exts: [&str; 1] = ["json"];
    let r = extension_in(&p, &exts);
    assert(exts@.map_values(|e: &str| e@) =~= chart_exts());
    r
}

/// Audio is a `.wav`, `.ogg`, `.mp3`, `.flac`, `.aac` or `.m4a` file, in any
/// letter case.
pub fn looks_like_audio_path(path: &str) -> (r: bool)
    ensures
        r == extension_among(path@, audio_exts()),
{
    let p = chars_of(path);
    let exts: [&str; 6] = ["wav", "ogg", "mp3", "flac", "aac", "m4a"];
    let r = extension_in(&p, &exts);
    assert(exts@.map_values(|e: &str| e@) =~= audio_exts());
    r
}

/// A video output is a `.mp4`, `.mkv`, `.mov` or `.webm` file, in any
/// letter case.
pub fn looks_like_video_path(path: &str) -> (r: bool)
    ensures
        r == extension_among(path@, video_exts()),
{
    let p = chars_of(path);
    let exts: [&str; 4] = ["mp4", "mkv", "mov", "webm"];
    let r = extension_in(&p, &exts);
    assert(exts@.map_values(|e: &str| e@) =~= video_exts());
    r
}

/// The path, lower-cased, ends in `.wav` (how the audio loader decides to
/// read a WAVE header).
pub fn is_wav_path(path: &str) -> (r: bool)
    ensures
        r == (path@.len() >= 4 && lower_all(path@.skip(path@.len() - 4)) == ".wav"@),
{
    let p = chars_of(path);
    if p.len() < 4 {
        return false;
    }
    let r = range_lower_eq(&p, p.len() - 4, p.len(), ".wav");
    assert(p@.subrange(p@.len() - 4, p@.len() as int) =~= path@.skip(path@.len() - 4));
    r
}

} // verus!

verus! {

/// No path is taken both for a chart and for audio, nor both for a chart
/// and for a video, nor both for audio and for a video.
pub proof fn lemma_path_kinds_disjoint(p: Seq<char>)
    ensures
        !(extension_among(p, chart_exts()) && extension_among(p, audio_exts())),
        !(extension_among(p, chart_exts()) && extension_among(p, video_exts())),
        !(extension_among(p, audio_exts()) && extension_among(p, video_exts())),
{
    reveal_strlit("json");
    reveal_strlit("wav");
    reveal_strlit("ogg");
    reveal_strlit("mp3");
    reveal_strlit("flac");
    reveal_strlit("aac");
    reveal_strlit("m4a");
    reveal_strlit("mp4");
    reveal_strlit("mkv");
    reveal_strlit("mov");
    reveal_strlit("webm");
    let c = chart_exts();
    let a = audio_exts();
    let v = video_exts();
    assert forall|x: Seq<char>| c.contains(x) implies !a.contains(x) && !v.contains(x) by {
        assert(x == "json"@);
        if a.contains(x) {
            let j = choose|j: int| 0 <= j < a.len() && a[j] == x;
            assert(a[j][0] != x[0] || a[j][1] != x[1] || a[j].len() != x.len());
        }
        if v.contains(x) {
            let j = choose|j: int| 0 <= j < v.len() && v[j] == x;
            assert(v[j][0] != x[0] || v[j].len() != x.len());
        }
    }
    assert forall|x: Seq<char>| a.contains(x) implies !v.contains(x) by {
        let i = choose|i: int| 0 <= i < a.len() && a[i] == x;
        if v.contains(x) {
            let j = choose|j: int| 0 <= j < v.len() && v[j] == x;
            assert(a[i][1] != v[j][1] || a[i][0] != v[j][0] || a[i][2] != v[j][2] || a[i].len()
                != v[j].len());
        }
    }
}

} // verus!
