//! Per-frame judgement of a note: when its hit sound and hit effects fire,
//! how many hits it counts for, and the combo shown for the hit count.
use vstd::prelude::*;

verus! {

/// The note type of a hold.
pub const HOLD_NOTE: u32 = 2;

/// What a note remembers between frames.
#[derive(Clone, Copy, Debug, PartialEq, Eq, Structural)]
pub struct NoteFlags {
    /// The playhead is at or past the note.
    pub is_hit: bool,
    /// The hit sound has been played for the current pass over the note.
    pub is_play_hit: bool,
    /// The hold-end effect has been shown for the current pass.
    pub is_play_hold_end_hit: bool,
}

/// Where the playhead stands against a hold's end time.
#[derive(Clone, Copy, Debug, PartialEq, Eq, Structural)]
pub struct HoldEndClock {
    /// tick < end time
    pub before_end: bool,
    /// tick >= end time
    pub reached_end: bool,
}

/// Where the playhead stands against a note, as the renderer's tick
/// comparisons found it.
#[derive(Clone, Copy, Debug, PartialEq, Eq, Structural)]
pub struct NoteClock {
    /// tick >= note time
    pub reached: bool,
    /// tick < note time
    pub before: bool,
    /// For a note with a recorded end time, the playhead against that time.
    pub hold_end: Option<HoldEndClock>,
}

/// What one frame does with a note.
#[derive(Clone, Copy, Debug, PartialEq, Eq, Structural)]
pub struct NoteStep {
    pub flags: NoteFlags,
    /// Play the note's hit sound and show a hit effect.
    pub play_hit: bool,
    /// Show the hold-end hit effect.
    pub hold_end_effect: bool,
    /// How many hits the note counts for in this frame's combo.
    pub hits: u32,
}

/// The end-time clock of a hold note; other notes have none.
pub open spec fn hold_clock(note_type: u32, clock: NoteClock) -> Option<HoldEndClock> {
    if note_type == HOLD_NOTE {
        clock.hold_end
    } else {
        None
    }
}

pub open spec fn spec_step_note(flags: NoteFlags, note_type: u32, clock: NoteClock) -> NoteStep {
    // the hit sound fires once when the playhead first reaches the note
    let play_hit = !flags.is_hit && !flags.is_play_hit && clock.reached;
    let is_play_hit = flags.is_play_hit || play_hit;
    // a hold's end fires once when the playhead reaches its end time
    let (hold_end_effect, end_flag) = match hold_clock(note_type, clock) {
        Some(h) => if h.before_end {
            (false, false)
        } else if !flags.is_play_hold_end_hit {
            (true, true)
        } else {
            (false, flags.is_play_hold_end_hit)
        },
        None => (false, flags.is_play_hold_end_hit),
    };
    // rewinding before the note re-arms everything
    let new_flags = if clock.before {
        NoteFlags { is_hit: false, is_play_hit: false, is_play_hold_end_hit: false }
    } else {
        NoteFlags { is_hit: true, is_play_hit, is_play_hold_end_hit: end_flag }
    };
    let hits: u32 = if new_flags.is_hit {
        match hold_clock(note_type, clock) {
            Some(h) => if h.reached_end {
                2
            } else {
                1
            },
            None => 1,
        }
    } else {
        0
    };
    NoteStep { flags: new_flags, play_hit, hold_end_effect, hits }
}

/// Judges a note for one frame.
pub fn step_note(flags: NoteFlags, note_type: u32, clock: NoteClock) -> (s: NoteStep)
    ensures
        s == spec_step_note(flags, note_type, clock),
{
    let mut f = flags;
    let mut play_hit = false;
    let mut hold_end_effect = false;
    if !f.is_hit && !f.is_play_hit && clock.reached {
        f.is_play_hit = true;
        play_hit = true;
    }
    if note_type == HOLD_NOTE {
        if let Some(h) = clock.hold_end {
            if h.before_end {
                f.is_play_hold_end_hit = false;
            } else if !f.is_play_hold_end_hit {
                f.is_play_hold_end_hit = true;
                hold_end_effect = true;
            }
        }
    }
    if clock.before {
        f.is_hit = false;
        f.is_play_hit = false;
        f.is_play_hold_end_hit = false;
    } else {
        f.is_hit = true;
    }
    let mut hits: u32 = 0;
    if f.is_hit {
        hits = 1;
        if note_type == HOLD_NOTE {
            if let Some(h) = clock.hold_end {
                if h.reached_end {
                    hits = 2;
                }
            }
        }
    }
    NoteStep { flags: f, play_hit, hold_end_effect, hits }
}

/// The comparisons agree with one another: the playhead is not both before
/// and at-or-past a time, and a hold does not end before it starts.
pub open spec fn consistent_clock(note_type: u32, clock: NoteClock) -> bool {
    &&& !(clock.reached && clock.before)
    &&& (hold_clock(note_type, clock) matches Some(h) ==> {
        &&& !(h.before_end && h.reached_end)
        &&& (clock.before ==> h.before_end)
    })
}

/// Judging a note again at the same playhead changes nothing and fires
/// nothing: a hit sound or hold-end effect fires once per pass.
pub proof fn lemma_step_note_settles(flags: NoteFlags, note_type: u32, clock: NoteClock)
    requires
        consistent_clock(note_type, clock),
    ensures
        ({
            let first = spec_step_note(flags, note_type, clock);
            let second = spec_step_note(first.flags, note_type, clock);
            &&& second.flags == first.flags
            &&& !second.play_hit
            &&& !second.hold_end_effect
            &&& second.hits == first.hits
        }),
{
}

/// A note counts for at most two hits, and for none exactly when the
/// playhead is not at or past it.
pub proof fn lemma_step_note_hits(flags: NoteFlags, note_type: u32, clock: NoteClock)
    ensures
        spec_step_note(flags, note_type, clock).hits <= 2,
        (spec_step_note(flags, note_type, clock).hits == 0) == clock.before,
        spec_step_note(flags, note_type, clock).hits == 2 ==> note_type == HOLD_NOTE,
{
}

// ---------------------------------------------------------------------------
// Combo
// ---------------------------------------------------------------------------

pub open spec fn spec_combo(hits: int) -> int {
    if hits <= 5 {
        hits
    } else if hits <= 8 {
        2 * hits - 5
    } else if hits <= 11 {
        3 * hits - 13
    } else {
        4 * hits - 24
    }
}

/// The combo shown for a hit count: hits count once up to 5, twice up to 8,
/// three times up to 11 and four times beyond.
pub fn calculate_combo(comb: u32) -> (c: u32)
    requires
        comb as int * 4 <= u32::MAX,
    ensures
        c == spec_combo(comb as int),
{
    if comb == 0 {
        return 0;
    }
    if comb <= 5 {
        return comb;
    }
    if comb <= 8 {
        return 2 * comb - 5;
    }
    if comb <= 11 {
        return 3 * comb - 13;
    }
    4 * comb - 24
}

/// More hits always show a larger combo, and the combo never falls below the
/// hit count.
pub proof fn lemma_combo_grows(a: int, b: int)
    requires
        0 <= a < b,
    ensures
        spec_combo(a) < spec_combo(b),
        a <= spec_combo(a),
{
}

} // verus!
