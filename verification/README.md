# ch_rzl

A Rizline chart player and offline video renderer. The decisions it makes
are a verified Verus library; the window, audio, file dialogs, FFmpeg
processes and the floating-point drawing live in a thin application around
it.

## Layout

- `src/` — the verified library
  - `chart.rs` — colours and themes: which theme colour a note head, a hit
    effect, the background and a challenge-time backdrop take, and alpha
    blending
  - `notes.rs` — per-frame judgement of a note (hit sound, hit effects, hits
    counted) and the combo shown for a hit count
  - `wav.rs` — 16-bit PCM stereo WAVE: chunk scanning, decoding, encoding,
    and the header fields a duration estimate divides
  - `mixing.rs` — ordering hit sounds by time and mixing them over the
    background track with 16-bit clipping
  - `frame.rs` — turning a bottom-up RGBA frame top-down
  - `cli.rs` — the `--render` command line
  - `ffmpeg.rs` — the FFmpeg command lines for audio decoding and video
    encoding
  - `progress.rs` — FFmpeg progress lines, stage percentages, which frames
    are logged, window placement and worded durations
  - `player.rs` — what each key does, the status line, how the renderer
    completes missing inputs, and the watermark
  - `paths.rs`, `text.rs` — file extensions and character-level helpers
- `tests/` — tests of the library on concrete values
- `app/` — the macroquad application: playback, rendering, audio through
  sasa, Windows progress dialogs, and the render-export loop
