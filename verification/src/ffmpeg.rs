//! The command lines handed to FFmpeg: one that decodes audio to 16-bit
//! stereo WAVE at 44.1 kHz, and one that encodes raw RGBA frames (with the
//! mixed audio) into the output video.
use vstd::prelude::*;
use crate::text::{chars_of, decimal, push_decimal, string_from_chars};

verus! {

pub open spec fn arg_views(v: Seq<String>) -> Seq<Seq<char>> {
    v.map_values(|s: String| s@)
}

fn push_str_arg(v: &mut Vec<String>, lit: &str)
    ensures
        arg_views(final(v)@) == arg_views(old(v)@).push(lit@),
{
    let cs = chars_of(lit);
    let s = string_from_chars(&cs);
    v.push(s);
    assert(arg_views(v@) =~= arg_views(old(v)@).push(lit@));
}

fn push_string_arg(v: &mut Vec<String>, s: String)
    ensures
        arg_views(final(v)@) == arg_views(old(v)@).push(s@),
{
    let ghost sv = s@;
    v.push(s);
    assert(arg_views(v@) =~= arg_views(old(v)@).push(sv));
}

fn decimal_string(n: u32) -> (s: String)
    ensures
        s@ == decimal(n as nat),
{
    let mut s = String::new();
    push_decimal(&mut s, n as u64);
    assert(s@ =~= decimal(n as nat));
    s
}

/// The arguments that decode `input` (or generate silence, when there is
/// none) into 16-bit stereo WAVE at 44.1 kHz, cut to `duration` when one is
/// given, reporting progress on standard output.
pub open spec fn decode_args_spec(
    input: Option<Seq<char>>,
    duration: Option<Seq<char>>,
    output: Seq<char>,
) -> Seq<Seq<char>> {
    seq!["-y"@, "-hide_banner"@, "-nostats"@] + match input {
        Some(i) => seq!["-i"@, i],
        None => seq!["-f"@, "lavfi"@, "-i"@, "anullsrc=channel_layout=stereo:sample_rate=44100"@],
    } + match duration {
        Some(d) => seq!["-t"@, d],
        None => Seq::empty(),
    } + seq![
        "-ac"@,
        "2"@,
        "-ar"@,
        "44100"@,
        "-c:a"@,
        "pcm_s16le"@,
        "-progress"@,
        "pipe:1"@,
        "-nostdin"@,
        output,
    ]
}

pub open spec fn opt_str(o: Option<&str>) -> Option<Seq<char>> {
    match o {
        Some(s) => Some(s@),
        None => None,
    }
}

/// Builds the audio decoding command line; `duration` is the cut length as
/// FFmpeg should read it (seconds, three decimals).
pub fn decode_to_wav_args(input: Option<&str>, duration: Option<&str>, output: &str) -> (args: Vec<
    String,
>)
    ensures
        arg_views(args@) == decode_args_spec(opt_str(input), opt_str(duration), output@),
{
    let mut v: Vec<String> = Vec::new();
    push_str_arg(&mut v, "-y");
    push_str_arg(&mut v, "-hide_banner");
    push_str_arg(&mut v, "-nostats");
    match input {
        Some(i) => {
            push_str_arg(&mut v, "-i");
            push_str_arg(&mut v, i);
        },
        None => {
            push_str_arg(&mut v, "-f");
            push_str_arg(&mut v, "lavfi");
            push_str_arg(&mut v, "-i");
            push_str_arg(&mut v, "anullsrc=channel_layout=stereo:sample_rate=44100");
        },
    }
    match duration {
        Some(d) => {
            push_str_arg(&mut v, "-t");
            push_str_arg(&mut v, d);
        },
        None => {},
    }
    push_str_arg(&mut v, "-ac");
    push_str_arg(&mut v, "2");
    push_str_arg(&mut v, "-ar");
    push_str_arg(&mut v, "44100");
    push_str_arg(&mut v, "-c:a");
    push_str_arg(&mut v, "pcm_s16le");
    push_str_arg(&mut v, "-progress");
    push_str_arg(&mut v, "pipe:1");
    push_str_arg(&mut v, "-nostdin");
    push_str_arg(&mut v, output);
    assert(arg_views(v@) =~= decode_args_spec(opt_str(input), opt_str(duration), output@));
    v
}

/// The encoder used when no hardware encoder is asked for.
pub open spec fn software_encoder() -> Seq<char> {
    "libx264"@
}

/// The arguments that read 1080x1920 RGBA frames at `fps` from standard
/// input, add the audio track when there is one (AAC, cut to the shorter of
/// the two), and encode to `output` as YUV 4:2:0 with the given encoder.
pub open spec fn encode_args_spec(
    fps: u32,
    audio: Option<Seq<char>>,
    output: Seq<char>,
    encoder: Seq<char>,
) -> Seq<Seq<char>> {
    let r = decimal(fps as nat);
    seq![
        "-y"@,
        "-f"@,
        "rawvideo"@,
        "-pix_fmt"@,
        "rgba"@,
        "-s"@,
        "1080x1920"@,
        "-r"@,
        r,
        "-i"@,
        "pipe:0"@,
    ] + match audio {
        Some(a) => seq!["-i"@, a],
        None => Seq::empty(),
    } + seq!["-c:v"@, encoder, "-pix_fmt"@, "yuv420p"@, "-r"@, r] + match audio {
        Some(_) => seq!["-c:a"@, "aac"@, "-shortest"@],
        None => Seq::empty(),
    } + seq![output]
}

/// Builds the video encoding command line.
pub fn rawvideo_encode_args(
    fps: u32,
    audio: Option<&str>,
    output: &str,
    hw_encoder: Option<&str>,
) -> (args: Vec<String>)
    ensures
        arg_views(args@) == encode_args_spec(
            fps,
            opt_str(audio),
            output@,
            match hw_encoder {
                Some(e) => e@,
                None => software_encoder(),
            },
        ),
{
    let mut v: Vec<String> = Vec::new();
    push_str_arg(&mut v, "-y");
    push_str_arg(&mut v, "-f");
    push_str_arg(&mut v, "rawvideo");
    push_str_arg(&mut v, "-pix_fmt");
    push_str_arg(&mut v, "rgba");
    push_str_arg(&mut v, "-s");
    push_str_arg(&mut v, "1080x1920");
    push_str_arg(&mut v, "-r");
    push_string_arg(&mut v, decimal_string(fps));
    push_str_arg(&mut v, "-i");
    push_str_arg(&mut v, "pipe:0");
    match audio {
        Some(a) => {
            push_str_arg(&mut v, "-i");
            push_str_arg(&mut v, a);
        },
        None => {},
    }
    push_str_arg(&mut v, "-c:v");
    match hw_encoder {
        Some(e) => push_str_arg(&mut v, e),
        None => push_str_arg(&mut v, "libx264"),
    }
    push_str_arg(&mut v, "-pix_fmt");
    push_str_arg(&mut v, "yuv420p");
    push_str_arg(&mut v, "-r");
    push_string_arg(&mut v, decimal_string(fps));
    match audio {
        Some(_) => {
            push_str_arg(&mut v, "-c:a");
            push_str_arg(&mut v, "aac");
            push_str_arg(&mut v, "-shortest");
        },
        None => {},
    }
    push_str_arg(&mut v, output);
    let ghost enc = match hw_encoder {
        Some(e) => e@,
        None => software_encoder(),
    };
    assert(arg_views(v@) =~= encode_args_spec(fps, opt_str(audio), output@, enc));
    v
}

// ---------------------------------------------------------------------------
// Laws
// ---------------------------------------------------------------------------

/// Audio is always decoded to 2 channels of 16-bit PCM at 44.1 kHz, written to
/// `output` with progress on standard output; the source is `input` (or
/// generated silence), and a duration adds exactly `-t duration` and changes
/// nothing else.
pub proof fn lemma_decode_args_format(
    input: Option<Seq<char>>,
    duration: Seq<char>,
    output: Seq<char>,
)
    ensures
        ({
            let b = decode_args_spec(input, None, output);
            let a = decode_args_spec(input, Some(duration), output);
            let n = b.len() as int;
            &&& n >= 15
            &&& b[0] == "-y"@ && b[1] == "-hide_banner"@ && b[2] == "-nostats"@
            &&& (input matches Some(i) ==> n == 15 && b[3] == "-i"@ && b[4] == i)
            &&& (input is None ==> n == 17 && b[3] == "-f"@ && b[4] == "lavfi"@ && b[5] == "-i"@
                && b[6] == "anullsrc=channel_layout=stereo:sample_rate=44100"@)
            &&& b[n - 10] == "-ac"@ && b[n - 9] == "2"@
            &&& b[n - 8] == "-ar"@ && b[n - 7] == "44100"@
            &&& b[n - 6] == "-c:a"@ && b[n - 5] == "pcm_s16le"@
            &&& b[n - 4] == "-progress"@ && b[n - 3] == "pipe:1"@
            &&& b[n - 2] == "-nostdin"@ && b[n - 1] == output
            &&& a.len() == n + 2
            &&& a.take(n - 10) == b.take(n - 10)
            &&& a[n - 10] == "-t"@ && a[n - 9] == duration
            &&& a.skip(n - 8) == b.skip(n - 10)
        }),
{
    let b = decode_args_spec(input, None, output);
    let a = decode_args_spec(input, Some(duration), output);
    let n = b.len() as int;
    assert(a.take(n - 10) =~= b.take(n - 10));
    assert(a.skip(n - 8) =~= b.skip(n - 10));
}

/// The index of the encoder name: right after `-c:v`.
pub open spec fn encoder_index(audio: Option<Seq<char>>) -> int {
    if audio is Some {
        14
    } else {
        12
    }
}

/// Frames are read as 1080x1920 RGBA at `fps` from standard input; an audio
/// file, when given, is added as a second input and encoded as AAC cut to
/// the shorter stream, whatever the encoder; the output path comes last.
pub proof fn lemma_encode_args_format(
    fps: u32,
    audio: Option<Seq<char>>,
    output: Seq<char>,
    encoder: Seq<char>,
)
    ensures
        ({
            let s = encode_args_spec(fps, audio, output, encoder);
            let n = s.len() as int;
            &&& s[0] == "-y"@ && s[1] == "-f"@ && s[2] == "rawvideo"@
            &&& s[3] == "-pix_fmt"@ && s[4] == "rgba"@ && s[5] == "-s"@ && s[6] == "1080x1920"@
            &&& s[7] == "-r"@ && s[8] == decimal(fps as nat)
            &&& s[9] == "-i"@ && s[10] == "pipe:0"@
            &&& (audio matches Some(a) ==> {
                &&& n == 23
                &&& s[11] == "-i"@ && s[12] == a
                &&& s[n - 4] == "-c:a"@ && s[n - 3] == "aac"@ && s[n - 2] == "-shortest"@
            })
            &&& (audio is None ==> n == 18)
            &&& s[encoder_index(audio) - 1] == "-c:v"@ && s[encoder_index(audio)] == encoder
            &&& s[encoder_index(audio) + 1] == "-pix_fmt"@ && s[encoder_index(audio) + 2]
                == "yuv420p"@
            &&& s[encoder_index(audio) + 3] == "-r"@ && s[encoder_index(audio) + 4] == decimal(
                fps as nat,
            )
            &&& s[n - 1] == output
        }),
{
}

/// The encoder only changes the argument after `-c:v`: two encoders give the
/// same arguments everywhere else.
pub proof fn lemma_encoder_changes_one_argument(
    fps: u32,
    audio: Option<Seq<char>>,
    output: Seq<char>,
    e1: Seq<char>,
    e2: Seq<char>,
)
    ensures
        ({
            let s1 = encode_args_spec(fps, audio, output, e1);
            let s2 = encode_args_spec(fps, audio, output, e2);
            &&& s1.len() == s2.len()
            &&& forall|j: int|
                0 <= j < s1.len() && j != encoder_index(audio) ==> #[trigger] s1[j] == s2[j]
        }),
{
    lemma_encode_args_format(fps, audio, output, e1);
    lemma_encode_args_format(fps, audio, output, e2);
}

} // verus!
