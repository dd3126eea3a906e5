//! The offline renderer's command line: `--render` (or `render`) followed by
//! options and positional paths.
use vstd::prelude::*;
use crate::text::{chars_of, chars_eq_str, chars_start_with, lower_all, lower_chars, parse_unsigned,
    parse_unsigned_from, starts_with, string_from_chars};
use crate::paths::{audio_exts, chart_exts, extension_among, looks_like_audio_path,
    looks_like_chart_path, looks_like_video_path, video_exts};

verus! {

/// The frame rate used when none is given.
pub const RENDER_FPS: u32 = 60;

pub open spec fn is_render_flag(a: Seq<char>) -> bool {
    a == "--render"@ || a == "render"@
}

pub open spec fn is_fps_flag(a: Seq<char>) -> bool {
    a == "--fps"@
}

pub open spec fn is_revelation_flag(a: Seq<char>) -> bool {
    a == "--revelation"@ || a == "--revelation-size"@ || a == "--revelation-scale"@ || a == "--rev"@
}

pub open spec fn is_hwaccel_flag(a: Seq<char>) -> bool {
    a == "--hwaccel"@ || a == "--hardware-accel"@ || a == "--hardware-encoder"@
}

/// The hardware encoders that can be named after `--hwaccel`.
pub open spec fn hw_encoders() -> Seq<Seq<char>> {
    seq![
        "h264_nvenc"@,
        "hevc_nvenc"@,
        "h264_qsv"@,
        "hevc_qsv"@,
        "h264_amf"@,
        "hevc_amf"@,
    ]
}

/// The encoder `--hwaccel` selects when it names none of the above.
pub open spec fn default_hw_encoder() -> Seq<char> {
    "h264_nvenc"@
}

/// The output file used when no video path is given.
pub open spec fn default_output() -> Seq<char> {
    "render_output.mp4"@
}

/// The argument after `args[i]`, if there is one and it is not an option.
pub open spec fn value_after(args: Seq<Seq<char>>, i: int) -> Option<Seq<char>> {
    if 0 <= i + 1 < args.len() && !starts_with(args[i + 1], "--"@) {
        Some(args[i + 1])
    } else {
        None
    }
}

pub open spec fn clamp_fps(v: int) -> u32 {
    if v < 1 {
        1
    } else if v > 240 {
        240
    } else {
        v as u32
    }
}

/// What the options seen so far have set.
pub struct ArgState {
    pub fps: u32,
    /// `None` until a revelation option is seen; then the value given after
    /// the last one, if any.
    pub revelation: Option<Option<Seq<char>>>,
    pub hw_encoder: Option<Seq<char>>,
    pub positional: Seq<Seq<char>>,
}

pub open spec fn left(len: int, i: int) -> nat {
    if 0 <= i < len {
        (len - i) as nat
    } else {
        0
    }
}

/// Reads the arguments from `i` on.
pub open spec fn scan_args(args: Seq<Seq<char>>, i: int, st: ArgState) -> ArgState
    decreases left(args.len() as int, i),
{
    if i < 0 || i >= args.len() {
        st
    } else {
        let a = args[i];
        if is_fps_flag(a) {
            let fps = if i + 1 < args.len() {
                match parse_unsigned(args[i + 1], u32::MAX as int) {
                    Some(v) => clamp_fps(v),
                    None => st.fps,
                }
            } else {
                st.fps
            };
            scan_args(args, i + 2, ArgState { fps, ..st })
        } else if is_revelation_flag(a) {
            let v = value_after(args, i);
            scan_args(
                args,
                if v is Some {
                    i + 2
                } else {
                    i + 1
                },
                ArgState { revelation: Some(v), ..st },
            )
        } else if is_hwaccel_flag(a) {
            match value_after(args, i) {
                Some(e) => if hw_encoders().contains(lower_all(e)) {
                    scan_args(args, i + 2, ArgState { hw_encoder: Some(lower_all(e)), ..st })
                } else {
                    scan_args(args, i + 1, ArgState { hw_encoder: Some(default_hw_encoder()), ..st })
                },
                None => scan_args(
                    args,
                    i + 1,
                    ArgState { hw_encoder: Some(default_hw_encoder()), ..st },
                ),
            }
        } else if starts_with(a, "--"@) {
            scan_args(args, i + 1, st)
        } else {
            scan_args(args, i + 1, ArgState { positional: st.positional.push(a), ..st })
        }
    }
}

pub open spec fn initial_state() -> ArgState {
    ArgState { fps: RENDER_FPS, revelation: None, hw_encoder: None, positional: Seq::empty() }
}

/// The first argument from `i` on that asks for render mode.
pub open spec fn render_position(args: Seq<Seq<char>>, i: int) -> Option<int>
    decreases left(args.len() as int, i),
{
    if i < 0 || i >= args.len() {
        None
    } else if is_render_flag(args[i]) {
        Some(i)
    } else {
        render_position(args, i + 1)
    }
}

/// The first of `ps` whose extension is among `exts`, else `default`.
pub open spec fn first_with_extension(
    ps: Seq<Seq<char>>,
    exts: Seq<Seq<char>>,
    default: Seq<char>,
) -> Seq<char>
    decreases ps.len(),
{
    if ps.len() == 0 {
        default
    } else if extension_among(ps[0], exts) {
        ps[0]
    } else {
        first_with_extension(ps.drop_first(), exts, default)
    }
}

/// The settings of an offline render, as the command line gives them.
pub struct RenderArgsSpec {
    pub chart_path: Seq<char>,
    pub bgm_path: Seq<char>,
    pub output_path: Seq<char>,
    pub fps: u32,
    pub revelation: Option<Option<Seq<char>>>,
    pub hw_encoder: Option<Seq<char>>,
}

/// Render mode is on when some argument is `--render` or `render`; the
/// arguments after the first such one are read.
pub open spec fn spec_render_args(args: Seq<Seq<char>>) -> Option<RenderArgsSpec> {
    match render_position(args, 0) {
        None => None,
        Some(p) => {
            let st = scan_args(args, p + 1, initial_state());
            Some(
                RenderArgsSpec {
                    chart_path: first_with_extension(st.positional, chart_exts(), Seq::empty()),
                    bgm_path: first_with_extension(st.positional, audio_exts(), Seq::empty()),
                    output_path: first_with_extension(st.positional, video_exts(), default_output()),
                    fps: st.fps,
                    revelation: st.revelation,
                    hw_encoder: st.hw_encoder,
                },
            )
        },
    }
}

// ---------------------------------------------------------------------------
// Executable form
// ---------------------------------------------------------------------------

/// The revelation (zoomed-out) view requested on the command line.
pub enum RevelationArg {
    /// No revelation option: the normal view.
    NotGiven,
    /// A revelation option, with the value that followed it, if any; the
    /// caller reads the value as a positive scale (0.3 when it is missing or
    /// not a positive number).
    Given(Option<String>),
}

/// The settings of an offline render.
pub struct RenderArgs {
    pub chart_path: String,
    pub bgm_path: String,
    pub output_path: String,
    pub fps: u32,
    pub revelation: RevelationArg,
    pub hw_encoder: Option<String>,
}

pub open spec fn opt_view(o: Option<String>) -> Option<Seq<char>> {
    match o {
        Some(s) => Some(s@),
        None => None,
    }
}

impl RenderArgs {
    pub open spec fn view(&self) -> RenderArgsSpec {
        RenderArgsSpec {
            chart_path: self.chart_path@,
            bgm_path: self.bgm_path@,
            output_path: self.output_path@,
            fps: self.fps,
            revelation: match self.revelation {
                RevelationArg::NotGiven => None,
                RevelationArg::Given(v) => Some(opt_view(v)),
            },
            hw_encoder: opt_view(self.hw_encoder),
        }
    }
}

/// The state the reader below keeps, as an `ArgState`: the revelation value
/// and the positional arguments are kept as indices into `a`.
pub open spec fn state_of(
    a: Seq<Seq<char>>,
    fps: u32,
    rev: Option<Option<usize>>,
    hw: Option<Vec<char>>,
    pos: Seq<usize>,
) -> ArgState {
    ArgState {
        fps,
        revelation: match rev {
            None => None,
            Some(None) => Some(None),
            Some(Some(k)) => Some(Some(a[k as int])),
        },
        hw_encoder: match hw {
            Some(v) => Some(v@),
            None => None,
        },
        positional: pos.map_values(|k: usize| a[k as int]),
    }
}

pub open spec fn views(args: Seq<String>) -> Seq<Seq<char>> {
    args.map_values(|s: String| s@)
}

fn all_chars(args: &Vec<String>) -> (cs: Vec<Vec<char>>)
    ensures
        cs@.len() == args@.len(),
        forall|i: int| 0 <= i < cs@.len() ==> #[trigger] cs@[i]@ == args@[i]@,
{
    let mut cs: Vec<Vec<char>> = Vec::new();
    let mut i: usize = 0;
    while i < args.len()
        invariant
            i <= args@.len(),
            cs@.len() == i,
            forall|j: int| 0 <= j < i ==> #[trigger] cs@[j]@ == args@[j]@,
        decreases args@.len() - i,
    {
        cs.push(chars_of(args[i].as_str()));
        i = i + 1;
    }
    cs
}

fn is_render_arg(a: &Vec<char>) -> (r: bool)
    ensures
        r == is_render_flag(a@),
{
    chars_eq_str(a, "--render") || chars_eq_str(a, "render")
}

fn is_revelation_arg(a: &Vec<char>) -> (r: bool)
    ensures
        r == is_revelation_flag(a@),
{
    chars_eq_str(a, "--revelation") || chars_eq_str(a, "--revelation-size") || chars_eq_str(
        a,
        "--revelation-scale",
    ) || chars_eq_str(a, "--rev")
}

fn is_hwaccel_arg(a: &Vec<char>) -> (r: bool)
    ensures
        r == is_hwaccel_flag(a@),
{
    chars_eq_str(a, "--hwaccel") || chars_eq_str(a, "--hardware-accel") || chars_eq_str(
        a,
        "--hardware-encoder",
    )
}

fn is_hw_encoder(e: &Vec<char>) -> (r: bool)
    ensures
        r == hw_encoders().contains(e@),
{
    let names: [&str; 6] = ["h264_nvenc", "hevc_nvenc", "h264_qsv", "hevc_qsv", "h264_amf", "hevc_amf"];
    let ghost ns = names@.map_values(|n: &str| n@);
    assert(ns =~= hw_encoders());
    let mut k: usize = 0;
    while k < 6
        invariant
            k <= 6,
            ns == names@.map_values(|n: &str| n@),
            ns == hw_encoders(),
            forall|j: int| 0 <= j < k ==> ns[j] != e@,
        decreases 6 - k,
    {
        if chars_eq_str(e, names[k]) {
            assert(ns[k as int] == e@);
            return true;
        }
        k = k + 1;
    }
    proof {
        if hw_encoders().contains(e@) {
            let j = choose|j: int| 0 <= j < ns.len() && ns[j] == e@;
            assert(false);
        }
    }
    false
}

fn chars_to_string(cs: &Vec<char>) -> (s: String)
    ensures
        s@ == cs@,
{
    string_from_chars(cs)
}

fn first_matching(
    cs: &Vec<Vec<char>>,
    positional: &Vec<usize>,
    kind: u8,
    default: &str,
) -> (s: String)
    requires
        kind < 3,
        forall|j: int| 0 <= j < positional@.len() ==> #[trigger] positional@[j] < cs@.len(),
    ensures
        s@ == first_with_extension(
            positional@.map_values(|k: usize| cs@[k as int]@),
            if kind == 0 {
                chart_exts()
            } else if kind == 1 {
                audio_exts()
            } else {
                video_exts()
            },
            default@,
        ),
{
    let ghost ps = positional@.map_values(|k: usize| cs@[k as int]@);
    let ghost exts = if kind == 0 {
        chart_exts()
    } else if kind == 1 {
        audio_exts()
    } else {
        video_exts()
    };
    let mut j: usize = 0;
    assert(ps.skip(0) =~= ps);
    while j < positional.len()
        invariant
            j <= positional@.len(),
            ps == positional@.map_values(|k: usize| cs@[k as int]@),
            forall|t: int| 0 <= t < positional@.len() ==> #[trigger] positional@[t] < cs@.len(),
            exts == (if kind == 0 {
                chart_exts()
            } else if kind == 1 {
                audio_exts()
            } else {
                video_exts()
            }),
            first_with_extension(ps.skip(j as int), exts, default@) == first_with_extension(
                ps,
                exts,
                default@,
            ),
        decreases positional@.len() - j,
    {
        let c = &cs[positional[j]];
        let s = string_from_chars(c);
        let hit = if kind == 0 {
            looks_like_chart_path(s.as_str())
        } else if kind == 1 {
            looks_like_audio_path(s.as_str())
        } else {
            looks_like_video_path(s.as_str())
        };
        proof {
            assert(ps.skip(j as int)[0] == c@);
            assert(ps.skip(j as int).drop_first() =~= ps.skip(j + 1));
        }
        if hit {
            return s;
        }
        j = j + 1;
    }
    proof {
        assert(ps.skip(j as int).len() == 0);
    }
    let d = chars_of(default);
    string_from_chars(&d)
}

/// Reads the command line of the offline renderer: `None` unless some
/// argument is `--render` or `render`. After it, `--fps N` sets the frame
/// rate (kept within 1..=240), a revelation option takes an optional value,
/// `--hwaccel` takes an optional encoder name, other options are skipped, and
/// the first `.json`, audio and video paths among the rest are the chart,
/// the background music and the output.
pub fn parse_render_args(args: &Vec<String>) -> (r: Option<RenderArgs>)
    ensures
        match r {
            Some(ra) => spec_render_args(views(args@)) == Some(ra.view()),
            None => spec_render_args(views(args@)) is None,
        },
{
    let ghost a = views(args@);
    let cs = all_chars(args);
    let n = cs.len();
    proof {
        assert forall|i: int| 0 <= i < n implies #[trigger] cs@[i]@ == a[i] by {}
    }
    // find the render switch
    let mut p: usize = 0;
    while p < n && !is_render_arg(&cs[p])
        invariant
            p <= n,
            n == cs@.len(),
            n == a.len(),
            forall|i: int| 0 <= i < n ==> #[trigger] cs@[i]@ == a[i],
            render_position(a, p as int) == render_position(a, 0),
        decreases n - p,
    {
        p = p + 1;
    }
    if p >= n {
        return None;
    }
    let mut fps: u32 = RENDER_FPS;
    let mut revelation: Option<Option<usize>> = None;
    let mut hw: Option<Vec<char>> = None;
    let mut positional: Vec<usize> = Vec::new();
    let mut i = p + 1;
    let ghost target = scan_args(a, p + 1, initial_state());
    proof {
        let st0 = state_of(a, fps, revelation, hw, positional@);
        assert(st0.positional =~= Seq::<Seq<char>>::empty());
        assert(st0 == initial_state());
    }
    while i < n
        invariant
            p < i,
            n == cs@.len(),
            n == a.len(),
            forall|t: int| 0 <= t < n ==> #[trigger] cs@[t]@ == a[t],
            forall|t: int| 0 <= t < positional@.len() ==> #[trigger] positional@[t] < n,
            revelation matches Some(Some(k)) ==> k < n,
            target == scan_args(a, p + 1, initial_state()),
            scan_args(a, i as int, state_of(a, fps, revelation, hw, positional@)) == target,
        decreases n - i,
    {
        let ghost st_old = state_of(a, fps, revelation, hw, positional@);
        let ghost i_old = i as int;
        let ai = &cs[i];
        let has_value = i + 1 < n && !chars_start_with(&cs[i + 1], "--");
        proof {
            assert(has_value == (value_after(a, i as int) is Some));
            if has_value {
                assert(value_after(a, i as int) == Some(a[i + 1]));
            }
        }
        if chars_eq_str(ai, "--fps") {
            if i + 1 < n {
                proof {
                    assert(cs@[i + 1]@.skip(0) =~= a[i + 1]);
                }
                match parse_unsigned_from(&cs[i + 1], 0, u32::MAX as u64) {
                    Some(v) => {
                        fps = if v < 1 {
                            1
                        } else if v > 240 {
                            240
                        } else {
                            v as u32
                        };
                    },
                    None => {},
                }
            }
            if n - i <= 2 {
                i = n;
            } else {
                i = i + 2;
            }
            proof {
                let st_new = state_of(a, fps, revelation, hw, positional@);
                assert(is_fps_flag(a[i_old]));
                let spec_fps = if i_old + 1 < a.len() {
                    match parse_unsigned(a[i_old + 1], u32::MAX as int) {
                        Some(v) => clamp_fps(v),
                        None => st_old.fps,
                    }
                } else {
                    st_old.fps
                };
                assert(st_new.fps == spec_fps);
                assert(st_new == ArgState { fps: spec_fps, ..st_old });
                assert(scan_args(a, i_old, st_old) == scan_args(a, i_old + 2, st_new));
            }
        } else if is_revelation_arg(ai) {
            if has_value {
                revelation = Some(Some(i + 1));
                i = i + 2;
            } else {
                revelation = Some(None);
                i = i + 1;
            }
            proof {
                assert(scan_args(a, i_old, st_old) == scan_args(a, i as int, state_of(a, fps, revelation, hw, positional@)));
            }
        } else if is_hwaccel_arg(ai) {
            if has_value {
                let lowered = lower_chars(&cs[i + 1]);
                if is_hw_encoder(&lowered) {
                    hw = Some(lowered);
                    i = i + 2;
                } else {
                    hw = Some(chars_of("h264_nvenc"));
                    i = i + 1;
                }
            } else {
                hw = Some(chars_of("h264_nvenc"));
                i = i + 1;
            }
            proof {
                assert(scan_args(a, i_old, st_old) == scan_args(a, i as int, state_of(a, fps, revelation, hw, positional@)));
            }
        } else if chars_start_with(ai, "--") {
            i = i + 1;
        } else {
            proof {
                assert(positional@.push(i).map_values(|k: usize| a[k as int]) =~= positional@.map_values(
                    |k: usize| a[k as int],
                ).push(a[i as int]));
            }
            positional.push(i);
            i = i + 1;
            proof {
                assert(scan_args(a, i_old, st_old) == scan_args(a, i as int, state_of(a, fps, revelation, hw, positional@)));
            }
        }
    }
    proof {
        assert(positional@.map_values(|k: usize| cs@[k as int]@) =~= positional@.map_values(
            |k: usize| a[k as int],
        ));
    }
    let chart_path = first_matching(&cs, &positional, 0, "");
    let bgm_path = first_matching(&cs, &positional, 1, "");
    let output_path = first_matching(&cs, &positional, 2, "render_output.mp4");
    let rev = match revelation {
        None => RevelationArg::NotGiven,
        Some(None) => RevelationArg::Given(None),
        Some(Some(k)) => RevelationArg::Given(Some(chars_to_string(&cs[k]))),
    };
    let hw_encoder = match hw {
        Some(v) => Some(chars_to_string(&v)),
        None => None,
    };
    let ra = RenderArgs {
        chart_path,
        bgm_path,
        output_path,
        fps,
        revelation: rev,
        hw_encoder,
    };
    proof {
        let st = state_of(a, fps, revelation, hw, positional@);
        assert(scan_args(a, i as int, st) == st);
        assert(target == st);
        assert(render_position(a, p as int) == Some(p as int));
        assert(ra.view().revelation == st.revelation);
        assert(ra.view().hw_encoder == st.hw_encoder);
        reveal_strlit("");
        assert(""@ =~= Seq::<char>::empty());
        assert(ra.view().chart_path == first_with_extension(st.positional, chart_exts(), Seq::empty()));
    }
    Some(ra)
}

} // verus!

verus! {

proof fn lemma_scan_fps(args: Seq<Seq<char>>, i: int, st: ArgState)
    requires
        1 <= st.fps <= 240,
    ensures
        1 <= scan_args(args, i, st).fps <= 240,
    decreases left(args.len() as int, i),
{
    if i < 0 || i >= args.len() {
    } else {
        let a = args[i];
        if is_fps_flag(a) {
            let fps = if i + 1 < args.len() {
                match parse_unsigned(args[i + 1], u32::MAX as int) {
                    Some(v) => clamp_fps(v),
                    None => st.fps,
                }
            } else {
                st.fps
            };
            lemma_scan_fps(args, i + 2, ArgState { fps, ..st });
        } else if is_revelation_flag(a) {
            let v = value_after(args, i);
            lemma_scan_fps(
                args,
                if v is Some {
                    i + 2
                } else {
                    i + 1
                },
                ArgState { revelation: Some(v), ..st },
            );
        } else if is_hwaccel_flag(a) {
            match value_after(args, i) {
                Some(e) => if hw_encoders().contains(lower_all(e)) {
                    lemma_scan_fps(args, i + 2, ArgState { hw_encoder: Some(lower_all(e)), ..st });
                } else {
                    lemma_scan_fps(
                        args,
                        i + 1,
                        ArgState { hw_encoder: Some(default_hw_encoder()), ..st },
                    );
                },
                None => lemma_scan_fps(
                    args,
                    i + 1,
                    ArgState { hw_encoder: Some(default_hw_encoder()), ..st },
                ),
            }
        } else if starts_with(a, "--"@) {
            lemma_scan_fps(args, i + 1, st);
        } else {
            lemma_scan_fps(args, i + 1, ArgState { positional: st.positional.push(a), ..st });
        }
    }
}

/// Whatever the command line says, the render's frame rate is between 1
/// and 240 frames per second.
pub proof fn lemma_render_fps_in_range(args: Seq<Seq<char>>)
    ensures
        spec_render_args(args) matches Some(r) ==> 1 <= r.fps <= 240,
{
    if let Some(p) = render_position(args, 0) {
        lemma_scan_fps(args, p + 1, initial_state());
    }
}

proof fn lemma_first_with_extension(ps: Seq<Seq<char>>, exts: Seq<Seq<char>>, default: Seq<char>)
    ensures
        ({
            let r = first_with_extension(ps, exts, default);
            r == default || (extension_among(r, exts) && ps.contains(r))
        }),
    decreases ps.len(),
{
    if ps.len() > 0 && !extension_among(ps[0], exts) {
        lemma_first_with_extension(ps.drop_first(), exts, default);
        let r = first_with_extension(ps.drop_first(), exts, default);
        if r != default {
            let j = choose|j: int| 0 <= j < ps.drop_first().len() && ps.drop_first()[j] == r;
            assert(ps[j + 1] == r);
        }
    }
}

/// The paths a render takes have the right kinds: the chart is a `.json`
/// path or empty, the music an audio path or empty, and the output a video
/// path or the default output.
pub proof fn lemma_render_paths_have_kinds(args: Seq<Seq<char>>)
    ensures
        spec_render_args(args) matches Some(r) ==> {
            &&& (r.chart_path.len() == 0 || extension_among(r.chart_path, seq!["json"@]))
            &&& (r.bgm_path.len() == 0 || extension_among(
                r.bgm_path,
                seq!["wav"@, "ogg"@, "mp3"@, "flac"@, "aac"@, "m4a"@],
            ))
            &&& (r.output_path == "render_output.mp4"@ || extension_among(
                r.output_path,
                seq!["mp4"@, "mkv"@, "mov"@, "webm"@],
            ))
        },
{
    if let Some(p) = render_position(args, 0) {
        let st = scan_args(args, p + 1, initial_state());
        lemma_first_with_extension(st.positional, chart_exts(), Seq::empty());
        lemma_first_with_extension(st.positional, audio_exts(), Seq::empty());
        lemma_first_with_extension(st.positional, video_exts(), default_output());
    }
}

proof fn lemma_render_position_at(args: Seq<Seq<char>>, i: int, p: int)
    requires
        0 <= i <= p < args.len(),
        args[p] == "--render"@ || args[p] == "render"@,
        forall|j: int| i <= j < p ==> args[j] != "--render"@ && args[j] != "render"@,
    ensures
        render_position(args, i) == Some(p),
    decreases p - i,
{
    if i < p {
        lemma_render_position_at(args, i + 1, p);
    }
}

/// Reading from `i` reaches the option at `k` (which starts with `--`, so
/// no earlier option takes it as its value) when no `--fps` comes before it.
proof fn lemma_scan_reaches(args: Seq<Seq<char>>, i: int, k: int, st: ArgState) -> (st2: ArgState)
    requires
        0 <= i <= k < args.len(),
        starts_with(args[k], "--"@),
        forall|j: int| i <= j < k ==> args[j] != "--fps"@,
    ensures
        scan_args(args, i, st) == scan_args(args, k, st2),
    decreases k - i,
{
    if i == k {
        st
    } else {
        let a = args[i];
        assert(!is_fps_flag(a));
        if is_revelation_flag(a) {
            let v = value_after(args, i);
            if v is Some {
                assert(i + 1 != k);
                lemma_scan_reaches(args, i + 2, k, ArgState { revelation: Some(v), ..st })
            } else {
                lemma_scan_reaches(args, i + 1, k, ArgState { revelation: Some(v), ..st })
            }
        } else if is_hwaccel_flag(a) {
            match value_after(args, i) {
                Some(e) => if hw_encoders().contains(lower_all(e)) {
                    assert(i + 1 != k);
                    lemma_scan_reaches(args, i + 2, k, ArgState { hw_encoder: Some(lower_all(e)), ..st })
                } else {
                    lemma_scan_reaches(
                        args,
                        i + 1,
                        k,
                        ArgState { hw_encoder: Some(default_hw_encoder()), ..st },
                    )
                },
                None => lemma_scan_reaches(
                    args,
                    i + 1,
                    k,
                    ArgState { hw_encoder: Some(default_hw_encoder()), ..st },
                ),
            }
        } else if starts_with(a, "--"@) {
            lemma_scan_reaches(args, i + 1, k, st)
        } else {
            lemma_scan_reaches(args, i + 1, k, ArgState { positional: st.positional.push(a), ..st })
        }
    }
}

/// Without a `--fps` from `i` on, the frame rate is left as it is.
proof fn lemma_scan_keeps_fps(args: Seq<Seq<char>>, i: int, st: ArgState)
    requires
        forall|j: int| i <= j < args.len() && 0 <= j ==> args[j] != "--fps"@,
    ensures
        scan_args(args, i, st).fps == st.fps,
    decreases left(args.len() as int, i),
{
    if i < 0 || i >= args.len() {
    } else {
        let a = args[i];
        assert(!is_fps_flag(a));
        if is_revelation_flag(a) {
            let v = value_after(args, i);
            lemma_scan_keeps_fps(
                args,
                if v is Some {
                    i + 2
                } else {
                    i + 1
                },
                ArgState { revelation: Some(v), ..st },
            );
        } else if is_hwaccel_flag(a) {
            match value_after(args, i) {
                Some(e) => if hw_encoders().contains(lower_all(e)) {
                    lemma_scan_keeps_fps(args, i + 2, ArgState { hw_encoder: Some(lower_all(e)), ..st });
                } else {
                    lemma_scan_keeps_fps(
                        args,
                        i + 1,
                        ArgState { hw_encoder: Some(default_hw_encoder()), ..st },
                    );
                },
                None => lemma_scan_keeps_fps(
                    args,
                    i + 1,
                    ArgState { hw_encoder: Some(default_hw_encoder()), ..st },
                ),
            }
        } else if starts_with(a, "--"@) {
            lemma_scan_keeps_fps(args, i + 1, st);
        } else {
            lemma_scan_keeps_fps(args, i + 1, ArgState { positional: st.positional.push(a), ..st });
        }
    }
}

/// After the render switch, a `--fps` whose value reads as a number `v`
/// gives that frame rate, raised to 1 or lowered to 240 when outside
/// 1..=240; every rate in between is kept exactly.
pub proof fn lemma_fps_is_given_value_clamped(args: Seq<Seq<char>>, p: int, k: int, v: int)
    requires
        0 <= p < k,
        k + 1 < args.len(),
        args[p] == "--render"@ || args[p] == "render"@,
        forall|j: int| 0 <= j < p ==> args[j] != "--render"@ && args[j] != "render"@,
        args[k] == "--fps"@,
        parse_unsigned(args[k + 1], u32::MAX as int) == Some(v),
        forall|j: int| p < j < args.len() && j != k ==> args[j] != "--fps"@,
    ensures
        spec_render_args(args) matches Some(r) && r.fps == (if v < 1 {
            1
        } else if v > 240 {
            240
        } else {
            v
        }),
{
    reveal_strlit("--fps");
    reveal_strlit("--");
    lemma_render_position_at(args, 0, p);
    assert(starts_with(args[k], "--"@)) by {
        assert(args[k].take(2) =~= "--"@);
    }
    let st2 = lemma_scan_reaches(args, p + 1, k, initial_state());
    let st3 = ArgState { fps: clamp_fps(v), ..st2 };
    assert(scan_args(args, k, st2) == scan_args(args, k + 2, st3));
    lemma_scan_keeps_fps(args, k + 2, st3);
}

pub open spec fn is_hw_switch(a: Seq<char>) -> bool {
    a == "--hwaccel"@ || a == "--hardware-accel"@ || a == "--hardware-encoder"@
}

/// Without a hardware-encoder option from `i` on, the encoder is left as it is.
proof fn lemma_scan_keeps_hw(args: Seq<Seq<char>>, i: int, st: ArgState)
    requires
        forall|j: int| i <= j < args.len() && 0 <= j ==> !is_hw_switch(#[trigger] args[j]),
    ensures
        scan_args(args, i, st).hw_encoder == st.hw_encoder,
    decreases left(args.len() as int, i),
{
    if i < 0 || i >= args.len() {
    } else {
        let a = args[i];
        assert(!is_hw_switch(args[i]));
        if is_fps_flag(a) {
            let fps = if i + 1 < args.len() {
                match parse_unsigned(args[i + 1], u32::MAX as int) {
                    Some(v) => clamp_fps(v),
                    None => st.fps,
                }
            } else {
                st.fps
            };
            lemma_scan_keeps_hw(args, i + 2, ArgState { fps, ..st });
        } else if is_revelation_flag(a) {
            let v = value_after(args, i);
            lemma_scan_keeps_hw(
                args,
                if v is Some {
                    i + 2
                } else {
                    i + 1
                },
                ArgState { revelation: Some(v), ..st },
            );
        } else if starts_with(a, "--"@) {
            lemma_scan_keeps_hw(args, i + 1, st);
        } else {
            lemma_scan_keeps_hw(args, i + 1, ArgState { positional: st.positional.push(a), ..st });
        }
    }
}

/// After the render switch, the last hardware-encoder option selects the
/// encoder it names (in lower case) when that is one of the six supported
/// ones, and `h264_nvenc` otherwise or when it names none.
pub proof fn lemma_hw_encoder_chosen(args: Seq<Seq<char>>, p: int, k: int)
    requires
        0 <= p < k < args.len(),
        args[p] == "--render"@ || args[p] == "render"@,
        forall|j: int| 0 <= j < p ==> args[j] != "--render"@ && args[j] != "render"@,
        is_hw_switch(args[k]),
        forall|j: int| p < j < k ==> args[j] != "--fps"@,
        forall|j: int| k < j < args.len() ==> !is_hw_switch(#[trigger] args[j]),
    ensures
        spec_render_args(args) matches Some(r) && r.hw_encoder == Some(
            if k + 1 < args.len() && !starts_with(args[k + 1], "--"@) && seq![
                "h264_nvenc"@,
                "hevc_nvenc"@,
                "h264_qsv"@,
                "hevc_qsv"@,
                "h264_amf"@,
                "hevc_amf"@,
            ].contains(lower_all(args[k + 1])) {
                lower_all(args[k + 1])
            } else {
                "h264_nvenc"@
            },
        ),
{
    reveal_strlit("--hwaccel");
    reveal_strlit("--hardware-accel");
    reveal_strlit("--hardware-encoder");
    reveal_strlit("--");
    lemma_render_position_at(args, 0, p);
    assert(starts_with(args[k], "--"@)) by {
        assert(args[k].take(2) =~= "--"@);
    }
    reveal_strlit("--fps");
    reveal_strlit("--revelation");
    reveal_strlit("--revelation-size");
    reveal_strlit("--revelation-scale");
    reveal_strlit("--rev");
    assert(!is_fps_flag(args[k]) && !is_revelation_flag(args[k])) by {
        assert(args[k][2] == 'h');
    }
    assert(is_hwaccel_flag(args[k]));
    let st2 = lemma_scan_reaches(args, p + 1, k, initial_state());
    match value_after(args, k) {
        Some(e) => {
            if hw_encoders().contains(lower_all(e)) {
                lemma_scan_keeps_hw(args, k + 2, ArgState { hw_encoder: Some(lower_all(e)), ..st2 });
            } else {
                lemma_scan_keeps_hw(
                    args,
                    k + 1,
                    ArgState { hw_encoder: Some(default_hw_encoder()), ..st2 },
                );
            }
        },
        None => {
            lemma_scan_keeps_hw(args, k + 1, ArgState { hw_encoder: Some(default_hw_encoder()), ..st2 });
        },
    }
}

} // verus!
