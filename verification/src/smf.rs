//! The event emitter: walks the voices of a stanza on a shared timeline
//! and merges them into one absolute-time ordered event sequence with
//! tempo metadata, expressed as delta-time messages.

use vstd::prelude::*;

use crate::collector::{Collector, CollectorV, NoteV};

verus! {

/// The meta events the emitter produces.
#[derive(Clone, Copy, Debug, PartialEq, Eq, Structural)]
pub enum MetaKind {
    SetTempo,
    EndOfTrack,
}

/// A channel voice message.
#[derive(Clone, Copy, Debug, PartialEq, Eq, Structural)]
pub enum ChannelEvent {
    NoteOn { ch: u8, note: u8, velocity: u8 },
    NoteOff { ch: u8, note: u8, velocity: u8 },
}

/// One emitted message: a meta event with a payload, a track marker, or a
/// channel voice event; each with its delta time.
#[derive(Debug, PartialEq, Eq)]
pub enum Message {
    MetaEvent { delta_time: u32, event: MetaKind, data: Vec<u8> },
    TrackChange,
    MidiEvent { delta_time: u32, event: ChannelEvent },
}

/// A message as mathematics.
pub ghost enum MessageV {
    MetaEvent { delta_time: int, event: MetaKind, data: Seq<u8> },
    TrackChange,
    MidiEvent { delta_time: int, event: ChannelEvent },
}

impl View for Message {
    type V = MessageV;

    open spec fn view(&self) -> MessageV {
        match self {
            Message::MetaEvent { delta_time, event, data } => MessageV::MetaEvent {
                delta_time: *delta_time as int,
                event: *event,
                data: data@,
            },
            Message::TrackChange => MessageV::TrackChange,
            Message::MidiEvent { delta_time, event } => MessageV::MidiEvent {
                delta_time: *delta_time as int,
                event: *event,
            },
        }
    }
}

/// A note-on or note-off at an absolute time.
#[derive(Clone, Copy, Debug, PartialEq, Eq, Structural)]
pub enum Action {
    NoteOn { time: u32, ch: u8, note: u8, velocity: u8 },
    NoteOff { time: u32, ch: u8, note: u8, velocity: u8 },
}

/// The absolute time of an action.
pub open spec fn spec_time(a: Action) -> int {
    match a {
        Action::NoteOn { time, .. } => time as int,
        Action::NoteOff { time, .. } => time as int,
    }
}

impl Action {
    /// The absolute time of the action.
    pub fn time(&self) -> (r: u32)
        ensures
            r as int == spec_time(*self),
    {
        match self {
            Action::NoteOn { time, .. } => *time,
            Action::NoteOff { time, .. } => *time,
        }
    }
}

/// The note-ons of a chord at time `t` on channel `ch`, one per tone, with
/// velocity 96.
pub open spec fn ons(tones: Seq<int>, ch: u8, t: int) -> Seq<Action> {
    tones.map_values(
        |tone: int| Action::NoteOn { time: t as u32, ch, note: tone as u8, velocity: 96 },
    )
}

/// The note-offs of a chord at time `t` on channel `ch`, one per tone,
/// with velocity 64.
pub open spec fn offs(tones: Seq<int>, ch: u8, t: int) -> Seq<Action> {
    tones.map_values(
        |tone: int| Action::NoteOff { time: t as u32, ch, note: tone as u8, velocity: 64 },
    )
}

/// The timed actions of one voice, walked with a local clock starting at
/// `t`: each chord turns on at its start and off after its duration; a
/// rest only advances the clock. The result is ordered by time.
pub open spec fn chan_actions(notes: Seq<NoteV>, ch: u8, t: int) -> Seq<Action>
    decreases notes.len(),
{
    if notes.len() == 0 {
        Seq::empty()
    } else {
        let n = notes[0];
        if n.is_rest {
            chan_actions(notes.drop_first(), ch, t + n.ticks)
        } else {
            ons(n.tones, ch, t) + offs(n.tones, ch, t + n.ticks) + chan_actions(
                notes.drop_first(),
                ch,
                t + n.ticks,
            )
        }
    }
}

/// Merge of two time-ordered action sequences; at equal times the first
/// operand goes first, so lower channels stay ahead.
pub open spec fn spec_merge(a: Seq<Action>, b: Seq<Action>) -> Seq<Action>
    decreases a.len() + b.len(),
{
    if a.len() == 0 {
        b
    } else if b.len() == 0 {
        a
    } else if spec_time(a[0]) <= spec_time(b[0]) {
        seq![a[0]] + spec_merge(a.drop_first(), b)
    } else {
        seq![b[0]] + spec_merge(a, b.drop_first())
    }
}

/// The merged actions of all voices, channel numbers by position.
pub open spec fn merge_upto(colls: Seq<CollectorV>, i: int) -> Seq<Action>
    decreases i,
{
    if i <= 0 {
        Seq::empty()
    } else {
        spec_merge(merge_upto(colls, i - 1), chan_actions(colls[i - 1].notes, (i - 1) as u8, 0))
    }
}

/// The merged actions of all voices.
pub open spec fn merged_actions(colls: Seq<CollectorV>) -> Seq<Action> {
    merge_upto(colls, colls.len() as int)
}

/// Replays absolute-time actions as a delta-time message stream.
pub open spec fn delta_encode(acts: Seq<Action>, clock: int) -> Seq<MessageV>
    decreases acts.len(),
{
    if acts.len() == 0 {
        Seq::empty()
    } else {
        let a = acts[0];
        let ev = match a {
            Action::NoteOn { ch, note, velocity, .. } => ChannelEvent::NoteOn {
                ch,
                note,
                velocity,
            },
            Action::NoteOff { ch, note, velocity, .. } => ChannelEvent::NoteOff {
                ch,
                note,
                velocity,
            },
        };
        seq![MessageV::MidiEvent { delta_time: spec_time(a) - clock, event: ev }] + delta_encode(
            acts.drop_first(),
            spec_time(a),
        )
    }
}

/// Ordered by time.
pub open spec fn actions_sorted(s: Seq<Action>) -> bool {
    forall|i: int, j: int| 0 <= i < j < s.len() ==> spec_time(s[i]) <= spec_time(s[j])
}

/// The total duration of a voice, in ticks.
pub open spec fn total_ticks(notes: Seq<NoteV>) -> int
    decreases notes.len(),
{
    if notes.len() == 0 {
        0
    } else {
        notes[0].ticks + total_ticks(notes.drop_first())
    }
}

/// A voice the emitter can take: positive durations, tones within the
/// seven-bit note range, and a total duration the clock type can hold.
pub open spec fn notes_writable(notes: Seq<NoteV>) -> bool {
    &&& forall|i: int| 0 <= i < notes.len() ==> (#[trigger] notes[i]).ticks >= 1
    &&& forall|i: int, j: int|
        0 <= i < notes.len() && 0 <= j < notes[i].tones.len() ==> 0 <= #[trigger] notes[i].tones[j]
            <= 127
    &&& total_ticks(notes) <= 0xffff_ffff
}

/// The three leading messages: the tempo meta event, the end of the meta
/// track, and the track marker.
pub open spec fn spec_preamble(bpm: u32) -> Seq<MessageV> {
    let tempo = 60_000_000u32 / bpm;
    seq![
        MessageV::MetaEvent {
            delta_time: 0,
            event: MetaKind::SetTempo,
            data: seq![(tempo >> 16) as u8, (tempo >> 8) as u8, tempo as u8],
        },
        MessageV::MetaEvent { delta_time: 0, event: MetaKind::EndOfTrack, data: Seq::empty() },
        MessageV::TrackChange,
    ]
}

/// The closing message: end of track after a fixed tail delta.
pub open spec fn spec_closing() -> MessageV {
    MessageV::MetaEvent { delta_time: 1024, event: MetaKind::EndOfTrack, data: Seq::empty() }
}

/// The emitter: accumulates messages until they are handed to a
/// serializer.
#[derive(Debug)]
pub struct Smf {
    pub messages: Vec<Message>,
}

/// The messages of the emitter, as mathematics.
pub open spec fn messages_view(s: Seq<Message>) -> Seq<MessageV> {
    s.map_values(|m: Message| m@)
}

impl Smf {
    /// An emitter primed with the tempo for `bpm` beats per minute.
    pub fn new(bpm: u32) -> (r: Smf)
        requires
            bpm >= 1,
        ensures
            messages_view(r.messages@) == spec_preamble(bpm),
    {
        let tempo: u32 = 60_000_000 / bpm;
        let mut data: Vec<u8> = Vec::new();
        data.push((tempo >> 16) as u8);
        data.push((tempo >> 8) as u8);
        data.push(tempo as u8);
        let mut messages: Vec<Message> = Vec::new();
        messages.push(Message::MetaEvent { delta_time: 0, event: MetaKind::SetTempo, data });
        messages.push(
            Message::MetaEvent { delta_time: 0, event: MetaKind::EndOfTrack, data: Vec::new() },
        );
        messages.push(Message::TrackChange);
        let r = Smf { messages };
        proof {
            assert(r.messages@.len() == 3);
            assert(messages_view(r.messages@) =~= spec_preamble(bpm)) by {
                assert(r.messages@[0]@->MetaEvent_data =~= spec_preamble(
                    bpm,
                )[0]->MetaEvent_data);
                assert(r.messages@[1]@->MetaEvent_data =~= spec_preamble(
                    bpm,
                )[1]->MetaEvent_data);
            }
        }
        r
    }

    /// Interleaves the voices on a shared timeline and appends the merged
    /// delta-time events and the closing marker.
    pub fn write(&mut self, collectors: &Vec<Collector>)
        requires
            collectors@.len() <= 16,
            forall|i: int|
                0 <= i < collectors@.len() ==> notes_writable((#[trigger] collectors@[i])@.notes),
        ensures
            messages_view(final (self).messages@) == messages_view(old(self).messages@)
                + delta_encode(merged_actions(colls_view(collectors@)), 0) + seq![spec_closing()],
    {
        let ghost cv = colls_view(collectors@);
        let mut merged: Vec<Action> = Vec::new();
        let mut c: usize = 0;
        proof {
            assert(merged@ =~= merge_upto(cv, 0));
        }
        while c < collectors.len()
            invariant
                c <= cv.len(),
                cv == colls_view(collectors@),
                cv.len() <= 16,
                forall|i: int| 0 <= i < cv.len() ==> notes_writable((#[trigger] cv[i]).notes),
                merged@ == merge_upto(cv, c as int),
                actions_sorted(merged@),
            decreases cv.len() - c,
        {
            proof {
                assert(notes_writable(cv[c as int].notes));
            }
            let acts = channel_actions(&collectors[c], c as u8);
            let ghost merged_pre = merged@;
            merged = merge_exec(merged, acts);
            proof {
                lemma_merge_sorted(merged_pre, acts@);
            }
            c += 1;
        }
        let ghost mergedv = merged@;
        let mut clock: u32 = 0;
        let mut i: usize = 0;
        let ghost msgs0 = messages_view(self.messages@);
        proof {
            assert(messages_view(self.messages@) + delta_encode(mergedv.skip(0), 0) =~= msgs0
                + delta_encode(mergedv, 0)) by {
                assert(mergedv.skip(0) =~= mergedv);
            }
        }
        while i < merged.len()
            invariant
                i <= mergedv.len(),
                merged@ == mergedv,
                actions_sorted(mergedv),
                i == 0 ==> clock == 0,
                i > 0 ==> clock as int == spec_time(mergedv[i as int - 1]),
                forall|j: int| i <= j < mergedv.len() ==> spec_time(#[trigger] mergedv[j]) >= clock,
                messages_view(self.messages@) + delta_encode(mergedv.skip(i as int), clock as int)
                    == msgs0 + delta_encode(mergedv, 0),
            decreases mergedv.len() - i,
        {
            let a = merged[i];
            proof {
                assert(spec_time(mergedv[i as int]) >= clock);
                assert(mergedv.skip(i as int)[0] == mergedv[i as int]);
                assert(mergedv.skip(i as int).drop_first() =~= mergedv.skip(i as int + 1));
            }
            let t = a.time();
            let delta = t - clock;
            let ev = match a {
                Action::NoteOn { ch, note, velocity, .. } => ChannelEvent::NoteOn {
                    ch,
                    note,
                    velocity,
                },
                Action::NoteOff { ch, note, velocity, .. } => ChannelEvent::NoteOff {
                    ch,
                    note,
                    velocity,
                },
            };
            let ghost msgs_pre = messages_view(self.messages@);
            self.messages.push(Message::MidiEvent { delta_time: delta, event: ev });
            clock = t;
            proof {
                assert(messages_view(self.messages@) =~= msgs_pre.push(
                    MessageV::MidiEvent { delta_time: delta as int, event: ev },
                ));
                assert(msgs_pre.push(MessageV::MidiEvent { delta_time: delta as int, event: ev })
                    + delta_encode(mergedv.skip(i as int + 1), t as int) =~= msgs_pre + (
                seq![MessageV::MidiEvent { delta_time: delta as int, event: ev }] + delta_encode(
                    mergedv.skip(i as int + 1),
                    t as int,
                )));
                assert forall|j: int|
                    i + 1 <= j < mergedv.len() implies spec_time(#[trigger] mergedv[j])
                    >= t by {}
            }
            i += 1;
        }
        proof {
            assert(mergedv.skip(mergedv.len() as int) =~= Seq::<Action>::empty());
            assert(delta_encode(Seq::<Action>::empty(), clock as int) =~= Seq::<
                MessageV,
            >::empty());
            assert(messages_view(self.messages@) + Seq::<MessageV>::empty() =~= messages_view(
                self.messages@,
            ));
        }
        let ghost msgs_pre = messages_view(self.messages@);
        self.messages.push(
            Message::MetaEvent { delta_time: 1024, event: MetaKind::EndOfTrack, data: Vec::new() },
        );
        proof {
            assert(messages_view(self.messages@) =~= msgs_pre.push(spec_closing())) by {
                assert(Seq::<u8>::empty() =~= self.messages@.last()@->MetaEvent_data);
            }
            assert(msgs_pre.push(spec_closing()) =~= msgs_pre + seq![spec_closing()]);
        }
    }
}

/// The collector views of an executable collector list.
pub open spec fn colls_view(s: Seq<Collector>) -> Seq<CollectorV> {
    s.map_values(|c: Collector| c@)
}

/// The timed actions of one voice, executable.
fn channel_actions(coll: &Collector, ch: u8) -> (r: Vec<Action>)
    requires
        notes_writable(coll@.notes),
    ensures
        r@ == chan_actions(coll@.notes, ch, 0),
        actions_sorted(r@),
{
    let ghost nv = coll@.notes;
    let mut out: Vec<Action> = Vec::new();
    let mut t: u32 = 0;
    let mut k: usize = 0;
    proof {
        lemma_total_ticks_nonneg(nv);
        assert(out@ + chan_actions(nv.skip(0), ch, 0) =~= chan_actions(nv, ch, 0)) by {
            assert(nv.skip(0) =~= nv);
        }
    }
    while k < coll.notes.len()
        invariant
            k <= nv.len(),
            coll@.notes == nv,
            notes_writable(nv),
            t as int + total_ticks(nv.skip(k as int)) <= 0xffff_ffff,
            out@ + chan_actions(nv.skip(k as int), ch, t as int) == chan_actions(nv, ch, 0),
            forall|j: int| 0 <= j < out@.len() ==> spec_time(#[trigger] out@[j]) <= t,
            actions_sorted(out@),
        decreases nv.len() - k,
    {
        proof {
            assert(nv[k as int] == nv.skip(k as int)[0]);
            assert(nv.skip(k as int).drop_first() =~= nv.skip(k as int + 1));
            assert((#[trigger] nv[k as int]).ticks >= 1);
            lemma_total_ticks_nonneg(nv.skip(k as int + 1));
        }
        let note = &coll.notes[k];
        match note {
            crate::collector::Note::Rest(ticks) => {
                proof {
                    assert(note@ == nv[k as int]);
                    assert(note@.ticks == *ticks as int);
                }
                t = t + (*ticks as u32);
            },
            crate::collector::Note::Note(tones, ticks) => {
                proof {
                    assert(note@ == nv[k as int]);
                    assert(note@.ticks == *ticks as int);
                    assert(note@.tones == tones@.map_values(|x: i64| x as int));
                    assert forall|j0: int| 0 <= j0 < tones@.len() implies 0 <= #[trigger] tones@[j0]
                        <= 127 by {
                        assert(note@.tones[j0] == tones@[j0] as int);
                        assert(0 <= nv[k as int].tones[j0] <= 127);
                    }
                }
                let t2 = t + (*ticks as u32);
                let ghost out_pre = out@;
                let mut j: usize = 0;
                while j < tones.len()
                    invariant
                        j <= tones@.len(),
                        out@.len() == out_pre.len() + j,
                        forall|j0: int| 0 <= j0 < out_pre.len() ==> out@[j0] == out_pre[j0],
                        forall|j0: int|
                            0 <= j0 < j ==> out@[out_pre.len() + j0] == (Action::NoteOn {
                                time: t,
                                ch,
                                note: tones@[j0] as u8,
                                velocity: 96,
                            }),
                        forall|j0: int|
                            0 <= j0 < tones@.len() ==> 0 <= #[trigger] tones@[j0] <= 127,
                    decreases tones@.len() - j,
                {
                    proof {
                        assert(0 <= tones@[j as int] <= 127);
                    }
                    let tone = tones[j];
                    out.push(Action::NoteOn { time: t, ch, note: tone as u8, velocity: 96 });
                    j += 1;
                }
                let ghost out_mid = out@;
                let mut j: usize = 0;
                while j < tones.len()
                    invariant
                        j <= tones@.len(),
                        out@.len() == out_mid.len() + j,
                        forall|j0: int| 0 <= j0 < out_mid.len() ==> out@[j0] == out_mid[j0],
                        forall|j0: int|
                            0 <= j0 < j ==> out@[out_mid.len() + j0] == (Action::NoteOff {
                                time: t2,
                                ch,
                                note: tones@[j0] as u8,
                                velocity: 64,
                            }),
                        forall|j0: int|
                            0 <= j0 < tones@.len() ==> 0 <= #[trigger] tones@[j0] <= 127,
                    decreases tones@.len() - j,
                {
                    proof {
                        assert(0 <= tones@[j as int] <= 127);
                    }
                    let tone = tones[j];
                    out.push(Action::NoteOff { time: t2, ch, note: tone as u8, velocity: 64 });
                    j += 1;
                }
                proof {
                    let n = nv[k as int];
                    assert(out@ =~= out_pre + ons(n.tones, ch, t as int) + offs(
                        n.tones,
                        ch,
                        t as int + n.ticks,
                    ));
                }
                t = t2;
            },
        }
        k += 1;
        proof {
            assert forall|j0: int| 0 <= j0 < out@.len() implies spec_time(#[trigger] out@[j0])
                <= t by {}
            assert(actions_sorted(out@));
        }
    }
    proof {
        assert(nv.skip(nv.len() as int) =~= Seq::<NoteV>::empty());
        assert(out@ + Seq::<Action>::empty() =~= out@);
    }
    out
}

/// The total duration of a voice of positive notes is nonnegative.
pub proof fn lemma_total_ticks_nonneg(notes: Seq<NoteV>)
    requires
        forall|i: int| 0 <= i < notes.len() ==> (#[trigger] notes[i]).ticks >= 1,
    ensures
        total_ticks(notes) >= 0,
    decreases notes.len(),
{
    if notes.len() == 0 {
    } else {
        assert(forall|i: int|
            0 <= i < notes.drop_first().len() ==> (#[trigger] notes.drop_first()[i]).ticks >= 1);
        lemma_total_ticks_nonneg(notes.drop_first());
        assert(notes[0].ticks >= 1);
    }
}

/// Merging two time-ordered sequences is time-ordered, and contains
/// exactly the actions of the two.
pub proof fn lemma_merge_sorted(a: Seq<Action>, b: Seq<Action>)
    requires
        actions_sorted(a),
        actions_sorted(b),
    ensures
        actions_sorted(spec_merge(a, b)),
        forall|x: Action| spec_merge(a, b).contains(x) <==> a.contains(x) || b.contains(x),
    decreases a.len() + b.len(),
{
    let m = spec_merge(a, b);
    if a.len() == 0 {
    } else if b.len() == 0 {
    } else if spec_time(a[0]) <= spec_time(b[0]) {
        assert(actions_sorted(a.drop_first()));
        lemma_merge_sorted(a.drop_first(), b);
        let rest = spec_merge(a.drop_first(), b);
        lemma_contains_first(a);
        assert forall|x: Action| m.contains(x) <==> (x == a[0] || rest.contains(x)) by {
            if m.contains(x) {
                let i = choose|i: int| 0 <= i < m.len() && m[i] == x;
                if i == 0 {
                } else {
                    assert(rest[i - 1] == x);
                    assert(rest.contains(x));
                }
            }
            if x == a[0] {
                assert(m[0] == x);
                assert(m.contains(x));
            }
            if rest.contains(x) {
                let i = choose|i: int| 0 <= i < rest.len() && rest[i] == x;
                assert(m[i + 1] == x);
                assert(m.contains(x));
            }
        }
        assert forall|i: int, j: int| 0 <= i < j < m.len() implies spec_time(m[i]) <= spec_time(
            m[j],
        ) by {
            if i == 0 {
                let x = m[j];
                assert(rest[j - 1] == x);
                assert(rest.contains(x));
                if a.drop_first().contains(x) {
                    let k = choose|k: int| 0 <= k < a.drop_first().len() && a.drop_first()[k] == x;
                    assert(a[k + 1] == x);
                    assert(spec_time(a[0]) <= spec_time(a[k + 1]));
                } else {
                    assert(b.contains(x));
                    let k = choose|k: int| 0 <= k < b.len() && b[k] == x;
                    if k > 0 {
                        assert(spec_time(b[0]) <= spec_time(b[k]));
                    }
                }
            } else {
                assert(spec_time(rest[i - 1]) <= spec_time(rest[j - 1]));
            }
        }
    } else {
        assert(actions_sorted(b.drop_first()));
        lemma_merge_sorted(a, b.drop_first());
        let rest = spec_merge(a, b.drop_first());
        lemma_contains_first(b);
        assert forall|x: Action| m.contains(x) <==> (x == b[0] || rest.contains(x)) by {
            if m.contains(x) {
                let i = choose|i: int| 0 <= i < m.len() && m[i] == x;
                if i == 0 {
                } else {
                    assert(rest[i - 1] == x);
                    assert(rest.contains(x));
                }
            }
            if x == b[0] {
                assert(m[0] == x);
                assert(m.contains(x));
            }
            if rest.contains(x) {
                let i = choose|i: int| 0 <= i < rest.len() && rest[i] == x;
                assert(m[i + 1] == x);
                assert(m.contains(x));
            }
        }
        assert forall|i: int, j: int| 0 <= i < j < m.len() implies spec_time(m[i]) <= spec_time(
            m[j],
        ) by {
            if i == 0 {
                let x = m[j];
                assert(rest[j - 1] == x);
                assert(rest.contains(x));
                if a.contains(x) {
                    let k = choose|k: int| 0 <= k < a.len() && a[k] == x;
                    if k > 0 {
                        assert(spec_time(a[0]) <= spec_time(a[k]));
                    }
                } else {
                    assert(b.drop_first().contains(x));
                    let k = choose|k: int|
                        0 <= k < b.drop_first().len() && b.drop_first()[k] == x;
                    assert(b[k + 1] == x);
                    assert(spec_time(b[0]) <= spec_time(b[k + 1]));
                }
            } else {
                assert(spec_time(rest[i - 1]) <= spec_time(rest[j - 1]));
            }
        }
    }
}

/// A nonempty sequence contains exactly its first element and the
/// elements of its remainder.
pub proof fn lemma_contains_first(s: Seq<Action>)
    requires
        s.len() > 0,
    ensures
        forall|x: Action| s.contains(x) <==> (x == s[0] || s.drop_first().contains(x)),
{
    assert forall|x: Action| s.contains(x) <==> (x == s[0] || s.drop_first().contains(x)) by {
        if s.contains(x) {
            let i = choose|i: int| 0 <= i < s.len() && s[i] == x;
            if i > 0 {
                assert(s.drop_first()[i - 1] == x);
                assert(s.drop_first().contains(x));
            }
        }
        if x == s[0] {
            assert(s.contains(x));
        }
        if s.drop_first().contains(x) {
            let i = choose|i: int| 0 <= i < s.drop_first().len() && s.drop_first()[i] == x;
            assert(s[i + 1] == x);
            assert(s.contains(x));
        }
    }
}

/// Two-pointer merge, executable.
fn merge_exec(a: Vec<Action>, b: Vec<Action>) -> (r: Vec<Action>)
    requires
        actions_sorted(a@),
        actions_sorted(b@),
    ensures
        r@ == spec_merge(a@, b@),
{
    let mut out: Vec<Action> = Vec::new();
    let mut i: usize = 0;
    let mut j: usize = 0;
    proof {
        assert(a@.skip(0) =~= a@);
        assert(b@.skip(0) =~= b@);
        assert(out@ + spec_merge(a@.skip(0), b@.skip(0)) =~= spec_merge(a@, b@));
    }
    while i < a.len() || j < b.len()
        invariant
            i <= a@.len(),
            j <= b@.len(),
            out@ + spec_merge(a@.skip(i as int), b@.skip(j as int)) == spec_merge(a@, b@),
        decreases a@.len() - i + b@.len() - j,
    {
        let ghost out_pre = out@;
        if i < a.len() && (j >= b.len() || a[i].time() <= b[j].time()) {
            proof {
                assert(a@.skip(i as int)[0] == a@[i as int]);
                assert(a@.skip(i as int).drop_first() =~= a@.skip(i as int + 1));
            }
            out.push(a[i]);
            proof {
                if j < b@.len() {
                    assert(out@ =~= out_pre.push(a@[i as int]));
                    assert(out_pre.push(a@[i as int]) + spec_merge(
                        a@.skip(i as int + 1),
                        b@.skip(j as int),
                    ) =~= out_pre + (seq![a@[i as int]] + spec_merge(
                        a@.skip(i as int + 1),
                        b@.skip(j as int),
                    )));
                } else {
                    assert(b@.skip(j as int) =~= Seq::<Action>::empty());
                    assert(out@ + spec_merge(a@.skip(i as int + 1), b@.skip(j as int)) =~= out_pre
                        + spec_merge(a@.skip(i as int), b@.skip(j as int)));
                }
            }
            i += 1;
        } else {
            proof {
                assert(j < b@.len());
                assert(b@.skip(j as int)[0] == b@[j as int]);
                assert(b@.skip(j as int).drop_first() =~= b@.skip(j as int + 1));
            }
            out.push(b[j]);
            proof {
                if i < a@.len() {
                    assert(out@ =~= out_pre.push(b@[j as int]));
                    assert(out_pre.push(b@[j as int]) + spec_merge(
                        a@.skip(i as int),
                        b@.skip(j as int + 1),
                    ) =~= out_pre + (seq![b@[j as int]] + spec_merge(
                        a@.skip(i as int),
                        b@.skip(j as int + 1),
                    )));
                } else {
                    assert(a@.skip(i as int) =~= Seq::<Action>::empty());
                    assert(out@ + spec_merge(a@.skip(i as int), b@.skip(j as int + 1)) =~= out_pre
                        + spec_merge(a@.skip(i as int), b@.skip(j as int)));
                }
            }
            j += 1;
        }
    }
    proof {
        assert(a@.skip(a@.len() as int) =~= Seq::<Action>::empty());
        assert(b@.skip(b@.len() as int) =~= Seq::<Action>::empty());
        assert(out@ + Seq::<Action>::empty() =~= out@);
    }
    out
}


/// The sum of the delta times of a message sequence.
pub open spec fn sum_deltas(msgs: Seq<MessageV>) -> int
    decreases msgs.len(),
{
    if msgs.len() == 0 {
        0
    } else {
        let d = match msgs[0] {
            MessageV::MetaEvent { delta_time, .. } => delta_time,
            MessageV::TrackChange => 0,
            MessageV::MidiEvent { delta_time, .. } => delta_time,
        };
        d + sum_deltas(msgs.drop_first())
    }
}

/// Delta sums distribute over concatenation.
pub proof fn lemma_sum_deltas_concat(a: Seq<MessageV>, b: Seq<MessageV>)
    ensures
        sum_deltas(a + b) == sum_deltas(a) + sum_deltas(b),
    decreases a.len(),
{
    if a.len() == 0 {
        assert(a + b =~= b);
    } else {
        assert((a + b).drop_first() =~= a.drop_first() + b);
        lemma_sum_deltas_concat(a.drop_first(), b);
        assert((a + b)[0] == a[0]);
    }
}

/// Replaying sorted actions as deltas accumulates exactly to the last
/// action's time: the partial sums of the delta stream reconstruct the
/// absolute times.
pub proof fn lemma_delta_sum(acts: Seq<Action>, clock: int)
    requires
        actions_sorted(acts),
        forall|j: int| 0 <= j < acts.len() ==> spec_time(#[trigger] acts[j]) >= clock,
    ensures
        sum_deltas(delta_encode(acts, clock)) == if acts.len() == 0 {
            0int
        } else {
            spec_time(acts.last()) - clock
        },
    decreases acts.len(),
{
    if acts.len() == 0 {
    } else {
        let rest = acts.drop_first();
        assert(actions_sorted(rest));
        assert forall|j: int| 0 <= j < rest.len() implies spec_time(#[trigger] rest[j])
            >= spec_time(acts[0]) by {
            assert(rest[j] == acts[j + 1]);
            assert(spec_time(acts[0]) <= spec_time(acts[j + 1]));
        }
        lemma_delta_sum(rest, spec_time(acts[0]));
        let m = delta_encode(acts, clock);
        assert(m.drop_first() =~= delta_encode(rest, spec_time(acts[0])));
        if rest.len() > 0 {
            assert(acts.last() == rest.last());
        }
    }
}

/// Every note-on of one voice's actions has a matching note-off on the
/// same channel and note, no earlier than it.
pub proof fn lemma_chan_offs(notes: Seq<NoteV>, ch: u8, t: int)
    requires
        forall|i: int| 0 <= i < notes.len() ==> (#[trigger] notes[i]).ticks >= 1,
        t >= 0,
        t + total_ticks(notes) <= 0xffff_ffff,
    ensures
        forall|x: Action|
            #[trigger] chan_actions(notes, ch, t).contains(x) && x is NoteOn ==> exists|y: Action|
                #[trigger] chan_actions(notes, ch, t).contains(y) && y is NoteOff && y->NoteOff_ch
                    == x->NoteOn_ch && y->NoteOff_note == x->NoteOn_note && spec_time(y)
                    >= spec_time(x),
    decreases notes.len(),
{
    if notes.len() == 0 {
    } else {
        let n = notes[0];
        let rest = notes.drop_first();
        assert(forall|i: int| 0 <= i < rest.len() ==> (#[trigger] rest[i]).ticks >= 1);
        lemma_total_ticks_nonneg(rest);
        lemma_chan_offs(rest, ch, t + n.ticks);
        let m = chan_actions(notes, ch, t);
        let tail = chan_actions(rest, ch, t + n.ticks);
        if n.is_rest {
        } else {
            let on_part = ons(n.tones, ch, t);
            let off_part = offs(n.tones, ch, t + n.ticks);
            assert forall|x: Action| #[trigger] m.contains(x) && x is NoteOn implies exists|
                y: Action,
            |
                #[trigger] m.contains(y) && y is NoteOff && y->NoteOff_ch == x->NoteOn_ch
                    && y->NoteOff_note == x->NoteOn_note && spec_time(y) >= spec_time(x) by {
                let i = choose|i: int| 0 <= i < m.len() && m[i] == x;
                if i < on_part.len() {
                    let y = off_part[i];
                    assert(m[on_part.len() + i] == y);
                    assert(m.contains(y));
                    assert(spec_time(y) >= spec_time(x));
                } else if i < on_part.len() + off_part.len() {
                    assert(m[i] == off_part[i - on_part.len()]);
                    assert(!(x is NoteOn));
                } else {
                    let k = i - on_part.len() - off_part.len();
                    assert(tail[k] == x);
                    assert(tail.contains(x));
                    let y = choose|y: Action|
                        #[trigger] tail.contains(y) && y is NoteOff && y->NoteOff_ch
                            == x->NoteOn_ch && y->NoteOff_note == x->NoteOn_note && spec_time(y)
                            >= spec_time(x);
                    let ky = choose|ky: int| 0 <= ky < tail.len() && tail[ky] == y;
                    assert(m[on_part.len() + off_part.len() + ky] == y);
                    assert(m.contains(y));
                }
            }
        }
    }
}

/// Every note-on of the merged voices has a matching note-off on the same
/// channel and note, no earlier than it.
pub proof fn lemma_merged_offs(colls: Seq<CollectorV>, i: int)
    requires
        0 <= i <= colls.len(),
        forall|k: int| 0 <= k < colls.len() ==> notes_writable((#[trigger] colls[k]).notes),
    ensures
        actions_sorted(merge_upto(colls, i)),
        forall|x: Action|
            #[trigger] merge_upto(colls, i).contains(x) && x is NoteOn ==> exists|y: Action|
                #[trigger] merge_upto(colls, i).contains(y) && y is NoteOff && y->NoteOff_ch
                    == x->NoteOn_ch && y->NoteOff_note == x->NoteOn_note && spec_time(y)
                    >= spec_time(x),
    decreases i,
{
    if i <= 0 {
    } else {
        lemma_merged_offs(colls, i - 1);
        let prev = merge_upto(colls, i - 1);
        let chan = chan_actions(colls[i - 1].notes, (i - 1) as u8, 0);
        assert(notes_writable(colls[i - 1].notes));
        lemma_chan_sorted(colls[i - 1].notes, (i - 1) as u8, 0);
        lemma_chan_offs(colls[i - 1].notes, (i - 1) as u8, 0);
        lemma_merge_sorted(prev, chan);
        let m = merge_upto(colls, i);
        assert forall|x: Action| #[trigger] m.contains(x) && x is NoteOn implies exists|y: Action|
            #[trigger] m.contains(y) && y is NoteOff && y->NoteOff_ch == x->NoteOn_ch
                && y->NoteOff_note == x->NoteOn_note && spec_time(y) >= spec_time(x) by {
            if prev.contains(x) {
                let y = choose|y: Action|
                    #[trigger] prev.contains(y) && y is NoteOff && y->NoteOff_ch == x->NoteOn_ch
                        && y->NoteOff_note == x->NoteOn_note && spec_time(y) >= spec_time(x);
                assert(m.contains(y));
            } else {
                assert(chan.contains(x));
                let y = choose|y: Action|
                    #[trigger] chan.contains(y) && y is NoteOff && y->NoteOff_ch == x->NoteOn_ch
                        && y->NoteOff_note == x->NoteOn_note && spec_time(y) >= spec_time(x);
                assert(m.contains(y));
            }
        }
    }
}

/// One voice's actions are ordered by time and start no earlier than the
/// clock it is walked from.
pub proof fn lemma_chan_sorted(notes: Seq<NoteV>, ch: u8, t: int)
    requires
        forall|i: int| 0 <= i < notes.len() ==> (#[trigger] notes[i]).ticks >= 1,
        t >= 0,
        t + total_ticks(notes) <= 0xffff_ffff,
    ensures
        actions_sorted(chan_actions(notes, ch, t)),
        forall|j: int|
            0 <= j < chan_actions(notes, ch, t).len() ==> spec_time(
                #[trigger] chan_actions(notes, ch, t)[j],
            ) >= t,
    decreases notes.len(),
{
    if notes.len() == 0 {
    } else {
        let n = notes[0];
        let rest = notes.drop_first();
        assert(forall|i: int| 0 <= i < rest.len() ==> (#[trigger] rest[i]).ticks >= 1);
        lemma_total_ticks_nonneg(rest);
        lemma_chan_sorted(rest, ch, t + n.ticks);
        let m = chan_actions(notes, ch, t);
        let tail = chan_actions(rest, ch, t + n.ticks);
        if n.is_rest {
            assert forall|j: int| 0 <= j < m.len() implies spec_time(#[trigger] m[j]) >= t by {
                assert(spec_time(tail[j]) >= t + n.ticks);
            }
        } else {
            let on_part = ons(n.tones, ch, t);
            let off_part = offs(n.tones, ch, t + n.ticks);
            assert forall|j: int| 0 <= j < m.len() implies spec_time(#[trigger] m[j]) >= t by {
                if j < on_part.len() {
                } else if j < on_part.len() + off_part.len() {
                } else {
                    assert(spec_time(tail[j - on_part.len() - off_part.len()]) >= t + n.ticks);
                }
            }
            assert forall|i: int, j: int| 0 <= i < j < m.len() implies spec_time(m[i])
                <= spec_time(m[j]) by {
                let b1 = on_part.len() as int;
                let b2 = b1 + off_part.len() as int;
                if i < b1 {
                    if j < b1 {
                    } else if j < b2 {
                    } else {
                        assert(spec_time(tail[j - b2]) >= t + n.ticks);
                    }
                } else if i < b2 {
                    if j < b2 {
                    } else {
                        assert(spec_time(tail[j - b2]) >= t + n.ticks);
                    }
                } else {
                    assert(spec_time(tail[i - b2]) <= spec_time(tail[j - b2]));
                }
            }
        }
    }
}

/// The delta times of a whole emitted sequence, from the preamble to the
/// closing marker, sum to the time of the last action plus the closing
/// tail.
pub proof fn lemma_emitted_delta_total(colls: Seq<CollectorV>, bpm: u32)
    requires
        bpm >= 1,
        colls.len() <= 16,
        forall|k: int| 0 <= k < colls.len() ==> notes_writable((#[trigger] colls[k]).notes),
    ensures
        sum_deltas(
            spec_preamble(bpm) + delta_encode(merged_actions(colls), 0) + seq![spec_closing()],
        ) == (if merged_actions(colls).len() == 0 {
            0int
        } else {
            spec_time(merged_actions(colls).last())
        }) + 1024,
{
    let merged = merged_actions(colls);
    lemma_merged_offs(colls, colls.len() as int);
    assert forall|j: int| 0 <= j < merged.len() implies spec_time(#[trigger] merged[j]) >= 0 by {}
    lemma_delta_sum(merged, 0);
    lemma_sum_deltas_concat(spec_preamble(bpm) + delta_encode(merged, 0), seq![spec_closing()]);
    lemma_sum_deltas_concat(spec_preamble(bpm), delta_encode(merged, 0));
    let p = spec_preamble(bpm);
    lemma_sum_single(p[2]);
    lemma_sum_single(spec_closing());
    assert(p =~= seq![p[0]] + seq![p[1]] + seq![p[2]]);
    lemma_sum_deltas_concat(seq![p[0]] + seq![p[1]], seq![p[2]]);
    lemma_sum_deltas_concat(seq![p[0]], seq![p[1]]);
    lemma_sum_single(p[0]);
    lemma_sum_single(p[1]);
    assert(sum_deltas(p) == 0);
    assert(sum_deltas(seq![spec_closing()]) == 1024);
}

/// The delta sum of a single message is its delta time.
pub proof fn lemma_sum_single(m: MessageV)
    ensures
        sum_deltas(seq![m]) == match m {
            MessageV::MetaEvent { delta_time, .. } => delta_time,
            MessageV::TrackChange => 0,
            MessageV::MidiEvent { delta_time, .. } => delta_time,
        },
{
    let s1 = seq![m];
    assert(s1.len() == 1);
    assert(s1.drop_first() =~= Seq::<MessageV>::empty());
    assert(sum_deltas(s1.drop_first()) == 0);
    assert(s1[0] == m);
}

} // verus!
