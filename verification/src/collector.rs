//! The voice collector: accumulates notehead positions per bar and channel
//! and flattens them into timed notes and rests: quarters, halves and
//! wholes each gather into a pending chord of their own duration class.
//!
//! Durations are in pulses of a 480-tick quarter note. A staff position is
//! carried as the exact ratio `num / den` of two fixed-point quantities:
//! the vertical distance from the channel's baseline, over the staff-line
//! spacing.

use vstd::prelude::*;

use crate::fixed::{tdiv, Fixed, POS_BOUND, RAW_BOUND};

verus! {

/// A collected event: a chord of semitone values with a duration in ticks,
/// or a rest.
#[derive(Debug, PartialEq, Eq)]
pub enum Note {
    Note(Vec<i64>, i64),
    Rest(i64),
}

/// A collected event as mathematics: rests carry no tones.
pub ghost struct NoteV {
    pub tones: Seq<int>,
    pub ticks: int,
    pub is_rest: bool,
}

impl View for Note {
    type V = NoteV;

    open spec fn view(&self) -> NoteV {
        match self {
            Note::Note(tones, ticks) => NoteV {
                tones: tones@.map_values(|t: i64| t as int),
                ticks: *ticks as int,
                is_rest: false,
            },
            Note::Rest(ticks) => NoteV {
                tones: Seq::empty(),
                ticks: *ticks as int,
                is_rest: true,
            },
        }
    }
}

/// The semitone offset of one diatonic step within an octave:
/// the major scale C D E F G A B.
pub open spec fn scale_step(r: int) -> int {
    if r == 0 {
        0
    } else if r == 1 {
        2
    } else if r == 2 {
        4
    } else if r == 3 {
        5
    } else if r == 4 {
        7
    } else if r == 5 {
        9
    } else {
        11
    }
}

/// The semitone value of the half-step index `i` above middle C (60):
/// twelve semitones per seven diatonic steps, with Euclidean division so
/// that positions below middle C map correctly.
pub open spec fn pitch_of(i: int) -> int {
    60 + 12 * (i / 7) + scale_step(i % 7)
}

/// The semitone of a staff position `num / den`: the position doubled and
/// truncated gives the half-step index.
pub open spec fn tone_of(num: int, den: int) -> int {
    pitch_of(tdiv(2 * num, den))
}

/// The simpler semitone mapping used when a duration flag reclassifies the
/// pending noteheads: four half-steps per staff position, as an offset from
/// middle C.
pub open spec fn wing_tone_of(num: int, den: int) -> int {
    60 + tdiv(4 * num, den)
}

/// A staff position within the collector's working range, with a positive
/// spacing.
pub open spec fn pos_ok(p: (Fixed, Fixed)) -> bool {
    &&& -POS_BOUND <= p.0.raw <= POS_BOUND
    &&& 0 < p.1.raw <= RAW_BOUND
}

/// The semitone of a staff position, executable.
pub fn h2n(num: Fixed, den: Fixed) -> (r: i64)
    requires
        pos_ok((num, den)),
    ensures
        r as int == tone_of(num.raw as int, den.raw as int),
{
    let i2 = crate::fixed::div_trunc(2 * num.raw, den.raw);
    proof {
        crate::fixed::lemma_tdiv_magnitude(2 * num.raw as int, den.raw as int);
        vstd::arithmetic::div_mod::lemma_fundamental_div_mod(i2 as int, 7);
        vstd::arithmetic::div_mod::lemma_mod_division_less_than_divisor(i2 as int, 7);
    }
    let o = match i2.checked_div_euclid(7) {
        Some(o) => o,
        None => {
            proof {
                assert(false);
            }
            0
        },
    };
    let r = match i2.checked_rem_euclid(7) {
        Some(r) => r,
        None => {
            proof {
                assert(false);
            }
            0
        },
    };
    let step: i64 = if r == 0 {
        0
    } else if r == 1 {
        2
    } else if r == 2 {
        4
    } else if r == 3 {
        5
    } else if r == 4 {
        7
    } else if r == 5 {
        9
    } else {
        11
    };
    60 + 12 * o + step
}

/// The wing-flush semitone of a staff position, executable.
pub fn h2n_wing(num: Fixed, den: Fixed) -> (r: i64)
    requires
        pos_ok((num, den)),
    ensures
        r as int == wing_tone_of(num.raw as int, den.raw as int),
{
    proof {
        crate::fixed::lemma_tdiv_magnitude(4 * num.raw as int, den.raw as int);
    }
    60 + crate::fixed::div_trunc(4 * num.raw, den.raw)
}

/// The chord tones of a list of pending staff positions.
pub open spec fn chord_tones(pend: Seq<(Fixed, Fixed)>) -> Seq<int> {
    pend.map_values(|p: (Fixed, Fixed)| tone_of(p.0.raw as int, p.1.raw as int))
}

/// The wing-flush tones of a list of pending staff positions.
pub open spec fn wing_chord(pend: Seq<(Fixed, Fixed)>) -> Seq<int> {
    pend.map_values(|p: (Fixed, Fixed)| wing_tone_of(p.0.raw as int, p.1.raw as int))
}

/// The collector state as mathematics.
pub ghost struct CollectorV {
    pub quarters: Seq<(Fixed, Fixed)>,
    pub halves: Seq<(Fixed, Fixed)>,
    pub wholes: Seq<(Fixed, Fixed)>,
    pub x: Option<Fixed>,
    pub notes: Seq<NoteV>,
}

/// Every pending staff position is within the working range.
pub open spec fn collector_wf(c: CollectorV) -> bool {
    &&& forall|i: int| 0 <= i < c.quarters.len() ==> #[trigger] pos_ok(c.quarters[i])
    &&& forall|i: int| 0 <= i < c.halves.len() ==> #[trigger] pos_ok(c.halves[i])
    &&& forall|i: int| 0 <= i < c.wholes.len() ==> #[trigger] pos_ok(c.wholes[i])
}

/// Flushes the pending positions: the quarters as one 480-tick chord, the
/// halves as one 960-tick chord, the wholes as one 1920-tick chord, each
/// only if non-empty.
pub open spec fn spec_clear(c: CollectorV) -> CollectorV {
    let c1 = if c.quarters.len() > 0 {
        CollectorV {
            notes: c.notes.push(NoteV { tones: chord_tones(c.quarters), ticks: 480, is_rest: false }),
            quarters: Seq::empty(),
            ..c
        }
    } else {
        c
    };
    let c2 = if c1.halves.len() > 0 {
        CollectorV {
            notes: c1.notes.push(
                NoteV { tones: chord_tones(c1.halves), ticks: 960, is_rest: false },
            ),
            halves: Seq::empty(),
            ..c1
        }
    } else {
        c1
    };
    if c2.wholes.len() > 0 {
        CollectorV {
            notes: c2.notes.push(
                NoteV { tones: chord_tones(c2.wholes), ticks: 1920, is_rest: false },
            ),
            wholes: Seq::empty(),
            ..c2
        }
    } else {
        c2
    }
}

/// Resets the collector for a new bar: pending positions are flushed and
/// the last x forgotten.
pub open spec fn spec_prepare(c: CollectorV) -> CollectorV {
    CollectorV { x: None, ..spec_clear(c) }
}

/// Records a quarter notehead at staff position `num / den`.
pub open spec fn spec_put_quarter(c: CollectorV, x: Fixed, num: Fixed, den: Fixed) -> CollectorV {
    CollectorV { quarters: c.quarters.push((num, den)), x: Some(x), ..c }
}

/// Records a half notehead at staff position `num / den`.
pub open spec fn spec_put_half(c: CollectorV, x: Fixed, num: Fixed, den: Fixed) -> CollectorV {
    CollectorV { halves: c.halves.push((num, den)), x: Some(x), ..c }
}

/// Records a whole notehead at staff position `num / den`.
pub open spec fn spec_put_whole(c: CollectorV, x: Fixed, num: Fixed, den: Fixed) -> CollectorV {
    CollectorV { wholes: c.wholes.push((num, den)), x: Some(x), ..c }
}

/// A duration flag: the pending quarters become one 240-tick chord under
/// the simpler wing mapping.
pub open spec fn spec_put_wing(c: CollectorV, x: Fixed) -> CollectorV {
    CollectorV {
        notes: c.notes.push(NoteV { tones: wing_chord(c.quarters), ticks: 240, is_rest: false }),
        quarters: Seq::empty(),
        x: Some(x),
        ..c
    }
}

/// A rest of denominator `len`: pending positions are flushed, then a rest
/// of `1920 / len` ticks is recorded.
pub open spec fn spec_put_rest(c: CollectorV, x: Fixed, len: u8) -> CollectorV {
    let c1 = spec_clear(c);
    CollectorV {
        notes: c1.notes.push(
            NoteV { tones: Seq::empty(), ticks: 1920int / (len as int), is_rest: true },
        ),
        x: Some(x),
        ..c1
    }
}

/// One voice of a stanza: pending staff positions awaiting classification,
/// the x of the last recorded symbol, and the flattened notes.
#[derive(Debug)]
pub struct Collector {
    pub quarters: Vec<(Fixed, Fixed)>,
    pub halves: Vec<(Fixed, Fixed)>,
    pub wholes: Vec<(Fixed, Fixed)>,
    pub x: Option<Fixed>,
    pub notes: Vec<Note>,
}

impl View for Collector {
    type V = CollectorV;

    open spec fn view(&self) -> CollectorV {
        CollectorV {
            quarters: self.quarters@,
            halves: self.halves@,
            wholes: self.wholes@,
            x: self.x,
            notes: self.notes@.map_values(|n: Note| n@),
        }
    }
}

fn chord_tones_exec(pend: &Vec<(Fixed, Fixed)>) -> (r: Vec<i64>)
    requires
        forall|i: int| 0 <= i < pend@.len() ==> #[trigger] pos_ok(pend@[i]),
    ensures
        r@.map_values(|t: i64| t as int) == chord_tones(pend@),
{
    let mut out: Vec<i64> = Vec::new();
    let mut i: usize = 0;
    while i < pend.len()
        invariant
            i <= pend@.len(),
            out@.len() == i,
            forall|i0: int| 0 <= i0 < pend@.len() ==> #[trigger] pos_ok(pend@[i0]),
            forall|j: int|
                0 <= j < i ==> out@[j] as int == tone_of(
                    pend@[j].0.raw as int,
                    pend@[j].1.raw as int,
                ),
        decreases pend@.len() - i,
    {
        let p = pend[i];
        assert(pos_ok(pend@[i as int]));
        out.push(h2n(p.0, p.1));
        i += 1;
    }
    proof {
        assert(out@.map_values(|t: i64| t as int) =~= chord_tones(pend@));
    }
    out
}

fn wing_chord_exec(pend: &Vec<(Fixed, Fixed)>) -> (r: Vec<i64>)
    requires
        forall|i: int| 0 <= i < pend@.len() ==> #[trigger] pos_ok(pend@[i]),
    ensures
        r@.map_values(|t: i64| t as int) == wing_chord(pend@),
{
    let mut out: Vec<i64> = Vec::new();
    let mut i: usize = 0;
    while i < pend.len()
        invariant
            i <= pend@.len(),
            out@.len() == i,
            forall|i0: int| 0 <= i0 < pend@.len() ==> #[trigger] pos_ok(pend@[i0]),
            forall|j: int|
                0 <= j < i ==> out@[j] as int == wing_tone_of(
                    pend@[j].0.raw as int,
                    pend@[j].1.raw as int,
                ),
        decreases pend@.len() - i,
    {
        let p = pend[i];
        assert(pos_ok(pend@[i as int]));
        out.push(h2n_wing(p.0, p.1));
        i += 1;
    }
    proof {
        assert(out@.map_values(|t: i64| t as int) =~= wing_chord(pend@));
    }
    out
}

impl Collector {
    /// An empty collector.
    pub fn new() -> (r: Collector)
        ensures
            r@.quarters =~= Seq::<(Fixed, Fixed)>::empty(),
            r@.halves =~= Seq::<(Fixed, Fixed)>::empty(),
            r@.wholes =~= Seq::<(Fixed, Fixed)>::empty(),
            r@.x is None,
            r@.notes =~= Seq::<NoteV>::empty(),
    {
        Collector {
            quarters: Vec::new(),
            halves: Vec::new(),
            wholes: Vec::new(),
            x: None,
            notes: Vec::new(),
        }
    }

    /// Flushes the pending positions into notes, shortest class first.
    fn clear(&mut self)
        requires
            collector_wf(old(self)@),
        ensures
            final (self)@ == spec_clear(old(self)@),
            collector_wf(final (self)@),
    {
        let ghost pre = self@;
        if self.quarters.len() > 0 {
            let tones = chord_tones_exec(&self.quarters);
            self.notes.push(Note::Note(tones, 480));
            self.quarters.clear();
        }
        proof {
            let s1 = if pre.quarters.len() > 0 {
                CollectorV {
                    notes: pre.notes.push(
                        NoteV { tones: chord_tones(pre.quarters), ticks: 480, is_rest: false },
                    ),
                    quarters: Seq::empty(),
                    ..pre
                }
            } else {
                pre
            };
            assert(self@.notes =~= s1.notes);
            assert(self@.quarters =~= s1.quarters);
            assert(self@ == s1);
        }
        let ghost mid1 = self@;
        if self.halves.len() > 0 {
            let tones = chord_tones_exec(&self.halves);
            self.notes.push(Note::Note(tones, 960));
            self.halves.clear();
        }
        proof {
            let s2 = if mid1.halves.len() > 0 {
                CollectorV {
                    notes: mid1.notes.push(
                        NoteV { tones: chord_tones(mid1.halves), ticks: 960, is_rest: false },
                    ),
                    halves: Seq::empty(),
                    ..mid1
                }
            } else {
                mid1
            };
            assert(self@.notes =~= s2.notes);
            assert(self@.halves =~= s2.halves);
            assert(self@ == s2);
        }
        let ghost mid2 = self@;
        if self.wholes.len() > 0 {
            let tones = chord_tones_exec(&self.wholes);
            self.notes.push(Note::Note(tones, 1920));
            self.wholes.clear();
        }
        proof {
            let s3 = if mid2.wholes.len() > 0 {
                CollectorV {
                    notes: mid2.notes.push(
                        NoteV { tones: chord_tones(mid2.wholes), ticks: 1920, is_rest: false },
                    ),
                    wholes: Seq::empty(),
                    ..mid2
                }
            } else {
                mid2
            };
            assert(self@.notes =~= s3.notes);
            assert(self@.wholes =~= s3.wholes);
            assert(self@ == s3);
            assert(self@ == spec_clear(pre));
        }
    }

    /// Resets the collector for a new bar.
    pub fn prepare(&mut self)
        requires
            collector_wf(old(self)@),
        ensures
            final (self)@ == spec_prepare(old(self)@),
            collector_wf(final (self)@),
    {
        self.clear();
        self.x = None;
    }

    /// Records a quarter notehead at staff position `num / den`.
    pub fn put_quarter(&mut self, x: Fixed, num: Fixed, den: Fixed)
        requires
            collector_wf(old(self)@),
            pos_ok((num, den)),
        ensures
            final (self)@ == spec_put_quarter(old(self)@, x, num, den),
            collector_wf(final (self)@),
    {
        self.quarters.push((num, den));
        self.x = Some(x);
    }

    /// Records a half notehead at staff position `num / den`; it flushes
    /// with its class as a 960-tick chord.
    pub fn put_half(&mut self, x: Fixed, num: Fixed, den: Fixed)
        requires
            collector_wf(old(self)@),
            pos_ok((num, den)),
        ensures
            final (self)@ == spec_put_half(old(self)@, x, num, den),
            collector_wf(final (self)@),
    {
        self.halves.push((num, den));
        self.x = Some(x);
    }

    /// Records a whole notehead at staff position `num / den`.
    pub fn put_whole(&mut self, x: Fixed, num: Fixed, den: Fixed)
        requires
            collector_wf(old(self)@),
            pos_ok((num, den)),
        ensures
            final (self)@ == spec_put_whole(old(self)@, x, num, den),
            collector_wf(final (self)@),
    {
        self.wholes.push((num, den));
        self.x = Some(x);
    }

    /// A duration flag: reclassifies the pending quarters as one 240-tick
    /// chord under the simpler wing mapping.
    pub fn put_wing(&mut self, x: Fixed)
        requires
            collector_wf(old(self)@),
        ensures
            final (self)@ == spec_put_wing(old(self)@, x),
            collector_wf(final (self)@),
    {
        let tones = wing_chord_exec(&self.quarters);
        self.notes.push(Note::Note(tones, 240));
        self.quarters.clear();
        self.x = Some(x);
        proof {
            assert(self@.notes =~= spec_put_wing(old(self)@, x).notes);
            assert(self@ == spec_put_wing(old(self)@, x));
        }
    }

    /// A rest of denominator `len`: flushes pending positions, then records
    /// a rest of `1920 / len` ticks.
    pub fn put_rest(&mut self, x: Fixed, len: u8)
        requires
            collector_wf(old(self)@),
            len >= 1,
        ensures
            final (self)@ == spec_put_rest(old(self)@, x, len),
            collector_wf(final (self)@),
    {
        self.clear();
        let ticks: i64 = (1920u32 / (len as u32)) as i64;
        self.notes.push(Note::Rest(ticks));
        self.x = Some(x);
        proof {
            assert(self@.notes =~= spec_put_rest(old(self)@, x, len).notes);
            assert(self@ == spec_put_rest(old(self)@, x, len));
        }
    }
}


/// A collector with nothing pending and nothing collected.
pub open spec fn empty_collector() -> CollectorV {
    CollectorV {
        quarters: Seq::empty(),
        halves: Seq::empty(),
        wholes: Seq::empty(),
        x: None,
        notes: Seq::empty(),
    }
}

} // verus!
