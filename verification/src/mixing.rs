//! Offline audio mixing: hit sounds are laid over the background track at
//! the sample where each note is struck, and the sum is clipped to 16 bits.
use vstd::prelude::*;

verus! {

broadcast use vstd::seq_lib::group_to_multiset_ensures;

/// The two hit sounds: a tap-like hit and a drag.
#[derive(Clone, Copy, Debug, PartialEq, Eq, Structural)]
pub enum SfxKind {
    Hit,
    Drag,
}

/// Note types 1 and 3 sound as a drag, every other type as a hit.
pub open spec fn spec_sfx_kind(note_type: u32) -> SfxKind {
    if note_type == 1 || note_type == 3 {
        SfxKind::Drag
    } else {
        SfxKind::Hit
    }
}

/// The hit sound a note of this type plays.
pub fn sfx_kind_for_note_type(note_type: u32) -> (k: SfxKind)
    ensures
        k == spec_sfx_kind(note_type),
{
    match note_type {
        1 | 3 => SfxKind::Drag,
        _ => SfxKind::Hit,
    }
}

// ---------------------------------------------------------------------------
// Ordering the events
// ---------------------------------------------------------------------------

/// A hit sound to be played `delay_ms` milliseconds into the track.
#[derive(Clone, Copy, Debug, PartialEq, Eq, Structural)]
pub struct SfxEvent {
    pub delay_ms: u64,
    pub kind: SfxKind,
}

pub open spec fn sorted_by_delay(s: Seq<SfxEvent>) -> bool {
    forall|i: int, j: int| 0 <= i < j < s.len() ==> s[i].delay_ms <= s[j].delay_ms
}

/// Picks the events that fall at delay `d`.
pub open spec fn at_delay(d: u64) -> spec_fn(SfxEvent) -> bool {
    |e: SfxEvent| e.delay_ms == d
}

/// Events that share a delay appear in `a` in the same order as in `b`.
pub open spec fn ties_in_same_order(a: Seq<SfxEvent>, b: Seq<SfxEvent>) -> bool {
    forall|d: u64| #[trigger] a.filter(at_delay(d)) == b.filter(at_delay(d))
}

proof fn lemma_singleton_filter(e: SfxEvent, d: u64)
    ensures
        seq![e].filter(at_delay(d)) == (if e.delay_ms == d {
            seq![e]
        } else {
            Seq::<SfxEvent>::empty()
        }),
{
    reveal(Seq::filter);
    assert(seq![e] =~= Seq::<SfxEvent>::empty().push(e));
    Seq::<SfxEvent>::empty().lemma_filter_push(e, at_delay(d));
    assert(Seq::<SfxEvent>::empty().filter(at_delay(d)) =~= Seq::<SfxEvent>::empty());
}

/// Inserting `e` in front of every later event picks out, for each delay,
/// the same events in the same order as appending it would.
proof fn lemma_insert_filter(before: Seq<SfxEvent>, pos: int, e: SfxEvent, d: u64)
    requires
        0 <= pos <= before.len(),
        forall|i: int| pos <= i < before.len() ==> before[i].delay_ms > e.delay_ms,
    ensures
        before.insert(pos, e).filter(at_delay(d)) == before.push(e).filter(at_delay(d)),
{
    let a = before.take(pos);
    let b = before.skip(pos);
    let p = at_delay(d);
    Seq::filter_distributes_over_add(a + seq![e], b, p);
    Seq::filter_distributes_over_add(a, seq![e], p);
    Seq::filter_distributes_over_add(a + b, seq![e], p);
    Seq::filter_distributes_over_add(a, b, p);
    assert(before.insert(pos, e) =~= a + seq![e] + b);
    assert(before.push(e) =~= a + b + seq![e]);
    assert(before =~= a + b);
    lemma_singleton_filter(e, d);
    if e.delay_ms == d {
        assert(b.all(|x: SfxEvent| !at_delay(d)(x)));
        b.lemma_all_neg_filter_empty(at_delay(d));
        assert(b.filter(at_delay(d)) =~= Seq::<SfxEvent>::empty());
        assert((a + seq![e] + b).filter(at_delay(d)) =~= a.filter(at_delay(d)) + seq![e]);
        assert((a + b + seq![e]).filter(at_delay(d)) =~= a.filter(at_delay(d)) + seq![e]);
    } else {
        assert((a + seq![e] + b).filter(at_delay(d)) =~= a.filter(at_delay(d)) + b.filter(
            at_delay(d),
        ));
        assert((a + b + seq![e]).filter(at_delay(d)) =~= a.filter(at_delay(d)) + b.filter(
            at_delay(d),
        ));
    }
}

/// Orders the events by delay; events with the same delay keep the order
/// they came in.
pub fn sort_sfx_events(events: &Vec<SfxEvent>) -> (sorted: Vec<SfxEvent>)
    ensures
        sorted_by_delay(sorted@),
        sorted@.to_multiset() == events@.to_multiset(),
        ties_in_same_order(sorted@, events@),
        sorted_by_delay(events@) ==> sorted@ == events@,
{
    let mut out: Vec<SfxEvent> = Vec::new();
    let mut k: usize = 0;
    assert(out@ =~= events@.take(0));
    while k < events.len()
        invariant
            k <= events@.len(),
            sorted_by_delay(out@),
            out@.to_multiset() == events@.take(k as int).to_multiset(),
            ties_in_same_order(out@, events@.take(k as int)),
            sorted_by_delay(events@) ==> out@ == events@.take(k as int),
        decreases events@.len() - k,
    {
        let e = events[k];
        let mut pos: usize = 0;
        while pos < out.len() && out[pos].delay_ms <= e.delay_ms
            invariant
                pos <= out@.len(),
                forall|i: int| 0 <= i < pos ==> out@[i].delay_ms <= e.delay_ms,
            decreases out@.len() - pos,
        {
            pos = pos + 1;
        }
        proof {
            if pos < out@.len() {
                assert forall|i: int| pos <= i < out@.len() implies out@[i].delay_ms
                    > e.delay_ms by {
                    assert(out@[pos as int].delay_ms <= out@[i].delay_ms || i == pos);
                }
            }
        }
        proof {
            if sorted_by_delay(events@) && pos < out@.len() {
                assert(out@[pos as int] == events@[pos as int]);
                assert(events@[pos as int].delay_ms <= events@[k as int].delay_ms);
            }
        }
        let ghost before = out@;
        out.insert(pos, e);
        proof {
            assert(events@.take(k + 1) =~= events@.take(k as int).push(e));
            assert forall|d: u64| #[trigger] out@.filter(at_delay(d)) == events@.take(
                k + 1,
            ).filter(at_delay(d)) by {
                lemma_insert_filter(before, pos as int, e, d);
                before.lemma_filter_push(e, at_delay(d));
                events@.take(k as int).lemma_filter_push(e, at_delay(d));
            }
            assert forall|i: int, j: int| 0 <= i < j < out@.len() implies out@[i].delay_ms
                <= out@[j].delay_ms by {
                if i < pos && j < pos {
                    assert(out@[i] == before[i] && out@[j] == before[j]);
                } else if i < pos && j == pos {
                } else if i < pos {
                    assert(out@[i] == before[i] && out@[j] == before[j - 1]);
                } else if i == pos {
                    assert(out@[j] == before[j - 1]);
                } else {
                    assert(out@[i] == before[i - 1] && out@[j] == before[j - 1]);
                }
            }
        }
        k = k + 1;
    }
    assert(events@.take(events@.len() as int) =~= events@);
    out
}

// ---------------------------------------------------------------------------
// Mixing
// ---------------------------------------------------------------------------

/// A hit sound placed at an interleaved sample index of the mix.
#[derive(Clone, Copy, Debug, PartialEq, Eq, Structural)]
pub struct MixEvent {
    pub start_sample: usize,
    pub kind: SfxKind,
}

/// The decoded hit sounds; a sound whose file is missing is `None` and its
/// events are skipped.
pub struct SfxBank {
    pub hit: Option<Vec<i16>>,
    pub drag: Option<Vec<i16>>,
}

pub open spec fn bank_sound(bank: &SfxBank, kind: SfxKind) -> Option<Seq<i16>> {
    match kind {
        SfxKind::Hit => match bank.hit {
            Some(v) => Some(v@),
            None => None,
        },
        SfxKind::Drag => match bank.drag {
            Some(v) => Some(v@),
            None => None,
        },
    }
}

/// What event `e` adds to sample `i`.
pub open spec fn contribution(bank: &SfxBank, e: MixEvent, i: int) -> int {
    match bank_sound(bank, e.kind) {
        Some(s) => if e.start_sample <= i < e.start_sample + s.len() {
            s[i - e.start_sample] as int
        } else {
            0
        },
        None => 0,
    }
}

/// What all the events add to sample `i`.
pub open spec fn events_at(bank: &SfxBank, events: Seq<MixEvent>, i: int) -> int
    decreases events.len(),
{
    if events.len() == 0 {
        0
    } else {
        events_at(bank, events.drop_last(), i) + contribution(bank, events.last(), i)
    }
}

/// The background sample at `i`; silence past the end of the track.
pub open spec fn background_at(bgm: Seq<i16>, i: int) -> int {
    if 0 <= i < bgm.len() {
        bgm[i] as int
    } else {
        0
    }
}

/// Clips a sum to the 16-bit range.
pub open spec fn clip16(x: int) -> i16 {
    if x < i16::MIN {
        i16::MIN
    } else if x > i16::MAX {
        i16::MAX
    } else {
        x as i16
    }
}

/// The mixed track: `len` samples, each the background plus every hit sound
/// that covers it, clipped to 16 bits.
pub open spec fn mixed(bgm: Seq<i16>, len: int, bank: &SfxBank, events: Seq<MixEvent>) -> Seq<i16> {
    Seq::new(len as nat, |i: int| clip16(background_at(bgm, i) + events_at(bank, events, i)))
}

fn sound_of<'a>(bank: &'a SfxBank, kind: SfxKind) -> (s: Option<&'a Vec<i16>>)
    ensures
        match s {
            Some(v) => bank_sound(bank, kind) == Some(v@),
            None => bank_sound(bank, kind) is None,
        },
{
    match kind {
        SfxKind::Hit => match &bank.hit {
            Some(v) => Some(v),
            None => None,
        },
        SfxKind::Drag => match &bank.drag {
            Some(v) => Some(v),
            None => None,
        },
    }
}

/// Mixes the hit sounds into the first `len` samples of the background
/// track (padded with silence) and clips the result to 16 bits.
pub fn mix_sfx(bgm: &Vec<i16>, len: usize, bank: &SfxBank, events: &Vec<MixEvent>) -> (out: Vec<
    i16,
>)
    ensures
        out@ == mixed(bgm@, len as int, bank, events@),
{
    let mut acc: Vec<i128> = Vec::new();
    let mut i: usize = 0;
    while i < len
        invariant
            i <= len,
            acc@.len() == i,
            forall|j: int| 0 <= j < i ==> #[trigger] acc@[j] == background_at(bgm@, j),
        decreases len - i,
    {
        let v: i128 = if i < bgm.len() {
            bgm[i] as i128
        } else {
            0
        };
        acc.push(v);
        i = i + 1;
    }
    let ghost evs = events@;
    let n_events = events.len();
    let mut k: usize = 0;
    while k < n_events
        invariant
            k <= n_events,
            n_events == evs.len(),
            evs == events@,
            acc@.len() == len,
            forall|j: int|
                0 <= j < len ==> #[trigger] acc@[j] == background_at(bgm@, j) + events_at(
                    bank,
                    evs.take(k as int),
                    j,
                ),
            forall|j: int| 0 <= j < len ==> -32768 * (k + 1) <= #[trigger] acc@[j] <= 32768 * (k + 1),
        decreases n_events - k,
    {
        let e = events[k];
        proof {
            assert(evs.take(k + 1).drop_last() =~= evs.take(k as int));
            assert(evs.take(k + 1).last() == e);
        }
        match sound_of(bank, e.kind) {
            Some(s) => {
                let start = e.start_sample;
                if start < len {
                    let room = len - start;
                    let max_len = if room < s.len() {
                        room
                    } else {
                        s.len()
                    };
                    let mut x: usize = 0;
                    proof {
                        assert forall|j: int| 0 <= j < len implies -32768 * (k + 1)
                            <= #[trigger] background_at(bgm@, j) + events_at(
                            bank,
                            evs.take(k as int),
                            j,
                        ) <= 32768 * (k + 1) by {
                            assert(acc@[j] == background_at(bgm@, j) + events_at(
                                bank,
                                evs.take(k as int),
                                j,
                            ));
                        }
                    }
                    while x < max_len
                        invariant
                            x <= max_len,
                            start < len,
                            max_len == if len - start < s@.len() {
                                len - start
                            } else {
                                s@.len() as int
                            },
                            bank_sound(bank, e.kind) == Some(s@),
                            acc@.len() == len,
                            k < n_events,
                            n_events <= usize::MAX,
                            forall|j: int|
                                0 <= j < len ==> #[trigger] acc@[j] == background_at(bgm@, j)
                                    + events_at(bank, evs.take(k as int), j) + (if start <= j < start
                                    + x {
                                    s@[j - start] as int
                                } else {
                                    0
                                }),
                            forall|j: int|
                                0 <= j < len ==> -32768 * (k + 1) <= #[trigger] background_at(bgm@, j)
                                    + events_at(bank, evs.take(k as int), j) <= 32768 * (k + 1),
                        decreases max_len - x,
                    {
                        let idx = start + x;
                        let cur = acc[idx];
                        let add = s[x] as i128;
                        acc.set(idx, cur + add);
                        x = x + 1;
                    }
                    proof {
                        assert forall|j: int| 0 <= j < len implies #[trigger] acc@[j]
                            == background_at(bgm@, j) + events_at(bank, evs.take(k + 1), j) by {
                            assert(contribution(bank, e, j) == (if start <= j < start + max_len {
                                s@[j - start] as int
                            } else {
                                0
                            }));
                        }
                    }
                } else {
                    proof {
                        assert forall|j: int| 0 <= j < len implies #[trigger] acc@[j]
                            == background_at(bgm@, j) + events_at(bank, evs.take(k + 1), j) by {
                            assert(contribution(bank, e, j) == 0);
                        }
                    }
                }
            },
            None => {
                proof {
                    assert forall|j: int| 0 <= j < len implies #[trigger] acc@[j] == background_at(
                        bgm@,
                        j,
                    ) + events_at(bank, evs.take(k + 1), j) by {
                        assert(contribution(bank, e, j) == 0);
                    }
                }
            },
        }
        k = k + 1;
    }
    assert(evs.take(n_events as int) =~= evs);
    let mut out: Vec<i16> = Vec::new();
    let mut j: usize = 0;
    while j < len
        invariant
            j <= len,
            acc@.len() == len,
            evs == events@,
            forall|t: int|
                0 <= t < len ==> #[trigger] acc@[t] == background_at(bgm@, t) + events_at(
                    bank,
                    evs,
                    t,
                ),
            out@ =~= mixed(bgm@, len as int, bank, evs).take(j as int),
        decreases len - j,
    {
        let v = acc[j];
        let c: i16 = if v < -32768 {
            -32768
        } else if v > 32767 {
            32767
        } else {
            v as i16
        };
        out.push(c);
        j = j + 1;
    }
    out
}

// ---------------------------------------------------------------------------
// Order independence
// ---------------------------------------------------------------------------

proof fn lemma_events_at_remove(bank: &SfxBank, s: Seq<MixEvent>, idx: int, i: int)
    requires
        0 <= idx < s.len(),
    ensures
        events_at(bank, s, i) == events_at(bank, s.remove(idx), i) + contribution(bank, s[idx], i),
    decreases s.len(),
{
    if idx == s.len() - 1 {
        assert(s.remove(idx) =~= s.drop_last());
    } else {
        lemma_events_at_remove(bank, s.drop_last(), idx, i);
        assert(s.remove(idx).drop_last() =~= s.drop_last().remove(idx));
        assert(s.remove(idx).last() == s.last());
    }
}

proof fn lemma_events_at_permutation(
    bank: &SfxBank,
    a: Seq<MixEvent>,
    b: Seq<MixEvent>,
    i: int,
)
    requires
        a.to_multiset() == b.to_multiset(),
    ensures
        events_at(bank, a, i) == events_at(bank, b, i),
    decreases a.len(),
{
    if a.len() == 0 {
        assert(b.to_multiset().len() == 0);
        assert(b.len() == 0);
    } else {
        let x = a.last();
        assert(a.drop_last().push(x) =~= a);
        assert(a.to_multiset().count(x) > 0);
        assert(b.contains(x));
        let idx = choose|j: int| 0 <= j < b.len() && b[j] == x;
        assert(a.drop_last().to_multiset() =~= a.to_multiset().remove(x));
        assert(b.remove(idx).to_multiset() == b.to_multiset().remove(x));
        lemma_events_at_permutation(bank, a.drop_last(), b.remove(idx), i);
        lemma_events_at_remove(bank, b, idx, i);
    }
}

/// The mix does not depend on the order in which the hit sounds are listed.
pub proof fn lemma_mix_order_independent(
    bgm: Seq<i16>,
    len: int,
    bank: &SfxBank,
    a: Seq<MixEvent>,
    b: Seq<MixEvent>,
)
    requires
        a.to_multiset() == b.to_multiset(),
    ensures
        mixed(bgm, len, bank, a) == mixed(bgm, len, bank, b),
{
    let ma = mixed(bgm, len, bank, a);
    let mb = mixed(bgm, len, bank, b);
    assert(ma.len() == mb.len());
    assert forall|i: int| 0 <= i < ma.len() implies #[trigger] ma[i] == mb[i] by {
        lemma_events_at_permutation(bank, a, b, i);
    }
    assert(ma =~= mb);
}

/// Mixing in no hit sounds gives back the background track itself, cut to
/// the requested length.
pub proof fn lemma_mix_without_events(bgm: Seq<i16>, len: int, bank: &SfxBank)
    requires
        0 <= len <= bgm.len(),
    ensures
        mixed(bgm, len, bank, Seq::empty()) == bgm.take(len),
{
    let m = mixed(bgm, len, bank, Seq::empty());
    assert forall|i: int| 0 <= i < len implies m[i] == bgm[i] by {
        assert(events_at(bank, Seq::<MixEvent>::empty(), i) == 0);
    }
    assert(m =~= bgm.take(len));
}

// ---------------------------------------------------------------------------
// What each hit sound adds
// ---------------------------------------------------------------------------

/// Sample `i` of the sound event `e` plays: sample `i - start` of the whole
/// sound of its kind while `i` lies within the sound, nothing otherwise or
/// when the sound is missing.
pub open spec fn sound_sample_at(bank: &SfxBank, e: MixEvent, i: int) -> int {
    let sound: Option<Vec<i16>> = match e.kind {
        SfxKind::Hit => bank.hit,
        SfxKind::Drag => bank.drag,
    };
    match sound {
        Some(v) => if e.start_sample as int <= i && i < e.start_sample as int + v@.len() {
            v@[i - e.start_sample as int] as int
        } else {
            0
        },
        None => 0,
    }
}

/// The sum, over the events from first to last, of what each plays at `i`.
pub open spec fn sounds_at(bank: &SfxBank, events: Seq<MixEvent>, i: int) -> int
    decreases events.len(),
{
    if events.len() == 0 {
        0
    } else {
        sound_sample_at(bank, events[0], i) + sounds_at(bank, events.drop_first(), i)
    }
}

proof fn lemma_sounds_at_push(bank: &SfxBank, s: Seq<MixEvent>, e: MixEvent, i: int)
    ensures
        sounds_at(bank, s.push(e), i) == sounds_at(bank, s, i) + sound_sample_at(bank, e, i),
    decreases s.len(),
{
    if s.len() > 0 {
        assert(s.push(e).drop_first() =~= s.drop_first().push(e));
        assert(s.push(e)[0] == s[0]);
        lemma_sounds_at_push(bank, s.drop_first(), e, i);
    } else {
        assert(s.push(e).drop_first() =~= Seq::<MixEvent>::empty());
        assert(s.push(e)[0] == e);
        assert(sounds_at(bank, Seq::<MixEvent>::empty(), i) == 0);
    }
}

proof fn lemma_events_at_is_sounds_at(bank: &SfxBank, s: Seq<MixEvent>, i: int)
    ensures
        events_at(bank, s, i) == sounds_at(bank, s, i),
    decreases s.len(),
{
    if s.len() > 0 {
        lemma_events_at_is_sounds_at(bank, s.drop_last(), i);
        assert(s.drop_last().push(s.last()) =~= s);
        lemma_sounds_at_push(bank, s.drop_last(), s.last(), i);
        assert(contribution(bank, s.last(), i) == sound_sample_at(bank, s.last(), i));
    }
}

/// Every sample of the mix is the background sample (silence past the end of
/// the track) plus, for every event, the sample its sound plays there, the
/// whole sound however long it is, clipped to the 16-bit range.
pub proof fn lemma_mix_adds_every_sound(
    bgm: Seq<i16>,
    len: int,
    bank: &SfxBank,
    events: Seq<MixEvent>,
    i: int,
)
    requires
        0 <= i < len,
    ensures
        mixed(bgm, len, bank, events).len() == len,
        ({
            let t = (if i < bgm.len() {
                bgm[i] as int
            } else {
                0
            }) + sounds_at(bank, events, i);
            mixed(bgm, len, bank, events)[i] as int == (if t < -32768 {
                -32768
            } else if t > 32767 {
                32767
            } else {
                t
            })
        }),
{
    lemma_events_at_is_sounds_at(bank, events, i);
}

/// A single hit sound over the track: every sample of the sound that falls
/// within the mix is added at its place (sample `i - start` at `i`), the sum
/// clipped to 16 bits, and the rest of the track is left as it is.
pub proof fn lemma_mix_one_sound(
    bgm: Seq<i16>,
    len: int,
    bank: &SfxBank,
    e: MixEvent,
    sound: Seq<i16>,
    i: int,
)
    requires
        0 <= i < len,
        e.kind == SfxKind::Hit ==> bank.hit is Some && bank.hit->0@ == sound,
        e.kind == SfxKind::Drag ==> bank.drag is Some && bank.drag->0@ == sound,
    ensures
        ({
            let m = mixed(bgm, len, bank, seq![e]);
            let b = if i < bgm.len() {
                bgm[i] as int
            } else {
                0
            };
            &&& m.len() == len
            &&& (e.start_sample <= i < e.start_sample + sound.len() ==> {
                let t = b + sound[i - e.start_sample] as int;
                m[i] as int == (if t < -32768 {
                    -32768
                } else if t > 32767 {
                    32767
                } else {
                    t
                })
            })
            &&& (!(e.start_sample <= i < e.start_sample + sound.len()) ==> m[i] as int == b)
        }),
{
    lemma_mix_adds_every_sound(bgm, len, bank, seq![e], i);
    assert(seq![e].drop_first() =~= Seq::<MixEvent>::empty());
    assert(seq![e][0] == e);
    assert(sounds_at(bank, Seq::<MixEvent>::empty(), i) == 0);
    assert(sounds_at(bank, seq![e], i) == sound_sample_at(bank, e, i));
}

} // verus!
