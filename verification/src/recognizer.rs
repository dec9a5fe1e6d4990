//! The staff and bar recognizer: detects stanzas from line-length
//! statistics, groups bars, assigns symbols and stems, and runs each
//! stanza's voice collection.

use vstd::prelude::*;

use crate::bar::obj_ok;
use crate::collector::{Collector, CollectorV};
use crate::fixed::{bounded, Fixed};
use crate::geom::{HorzLine, Object, VertLine};
use crate::interp::{out_ok, OutV, Parser};
use crate::stanza::{
    spec_insert_bar, spec_process, spec_put_object, spec_put_stem, spec_sort_bars, Stanza, StanzaV,
};

verus! {

/// The fatal conditions of recognition.
#[derive(Clone, Copy, Debug, PartialEq, Eq, Structural)]
pub enum Error {
    /// No staff-line length class, no staff anchor, or non-uniform staff
    /// spacing.
    NoStanza,
    /// Fewer than ten staff-line ys in a trailing group.
    EmptyChunk,
    /// A stem near both the high and the low band, or a notehead that no
    /// stem takes.
    RecognitionFailure,
}

/// The length of a horizontal segment, in raw units.
pub open spec fn hline_len(h: HorzLine) -> int {
    h.x2.raw - h.x1.raw
}

/// How many segments of the collection have exactly the length `w`.
pub open spec fn count_len(s: Seq<HorzLine>, w: int) -> int
    decreases s.len(),
{
    if s.len() == 0 {
        0
    } else {
        count_len(s.drop_last(), w) + if hline_len(s.last()) == w {
            1int
        } else {
            0int
        }
    }
}

/// A length with at least one occurrence and a count divisible by five:
/// staff lines come in groups of five.
pub open spec fn qualifying(s: Seq<HorzLine>, w: int) -> bool {
    count_len(s, w) > 0 && count_len(s, w) % 5 == 0
}

/// The best qualifying length among the first `i` segments.
pub open spec fn best_width_upto(s: Seq<HorzLine>, i: int) -> Option<int>
    decreases i,
{
    if i <= 0 {
        None
    } else {
        let prev = best_width_upto(s, i - 1);
        let w = hline_len(s[i - 1]);
        if count_len(s, w) % 5 == 0 {
            match prev {
                None => Some(w),
                Some(b) => Some(crate::stanza::imax(b, w)),
            }
        } else {
            prev
        }
    }
}

/// The staff-line width: the largest segment length whose occurrence count
/// is divisible by five.
pub open spec fn spec_detect_width(s: Seq<HorzLine>) -> Option<int> {
    best_width_upto(s, s.len() as int)
}

/// The x1 of the first segment of exactly the length `w`: the staff anchor.
pub open spec fn first_cand(s: Seq<HorzLine>, w: int) -> Option<Fixed>
    decreases s.len(),
{
    if s.len() == 0 {
        None
    } else if hline_len(s[0]) == w {
        Some(s[0].x1)
    } else {
        first_cand(s.drop_first(), w)
    }
}

/// Insertion of a y into an ascending sequence of distinct ys; a value
/// already present changes nothing.
pub open spec fn insert_y(s: Seq<Fixed>, v: Fixed) -> Seq<Fixed>
    decreases s.len(),
{
    if s.len() == 0 {
        seq![v]
    } else if s.last().raw == v.raw {
        s
    } else if s.last().raw < v.raw {
        s.push(v)
    } else {
        insert_y(s.drop_last(), v).push(s.last())
    }
}

/// The distinct y-coordinates of the segments of length `w`, ascending.
pub open spec fn ys_of(s: Seq<HorzLine>, w: int) -> Seq<Fixed>
    decreases s.len(),
{
    if s.len() == 0 {
        Seq::empty()
    } else {
        let prev = ys_of(s.drop_last(), w);
        if hline_len(s.last()) == w {
            insert_y(prev, s.last().y)
        } else {
            prev
        }
    }
}

/// Whether the ten staff-line ys starting at `k` are two groups of five
/// equi-spaced lines with the common spacing `d`.
pub open spec fn chunk_ok(ys: Seq<Fixed>, k: int, d: int) -> bool {
    &&& ys[k + 1].raw - ys[k].raw == d
    &&& ys[k + 2].raw - ys[k + 1].raw == d
    &&& ys[k + 3].raw - ys[k + 2].raw == d
    &&& ys[k + 4].raw - ys[k + 3].raw == d
    &&& ys[k + 6].raw - ys[k + 5].raw == d
    &&& ys[k + 7].raw - ys[k + 6].raw == d
    &&& ys[k + 8].raw - ys[k + 7].raw == d
    &&& ys[k + 9].raw - ys[k + 8].raw == d
}

/// Splits the sorted staff-line ys from index `k` on into groups of ten
/// and makes a stanza of each: top line, span, and spacing. A short
/// trailing group is an `EmptyChunk` error; non-uniform spacing within the
/// top or bottom five is a `NoStanza` error.
pub open spec fn spec_stanzas_of(ys: Seq<Fixed>, x: Fixed, w: Fixed, k: int) -> Result<
    Seq<StanzaV>,
    Error,
>
    decreases ys.len() - k,
{
    if k >= ys.len() {
        Ok(Seq::empty())
    } else if ys.len() - k < 10 {
        Err(Error::EmptyChunk)
    } else {
        let d = ys[k + 1].raw - ys[k].raw;
        if !chunk_ok(ys, k, d) {
            Err(Error::NoStanza)
        } else {
            match spec_stanzas_of(ys, x, w, k + 10) {
                Err(e) => Err(e),
                Ok(rest) => Ok(
                    seq![
                        StanzaV {
                            x,
                            y: ys[k],
                            width: w,
                            height: Fixed { raw: (ys[k + 9].raw - ys[k].raw) as i64 },
                            scale: Fixed { raw: d as i64 },
                            bars: Seq::empty(),
                            head_size: None,
                        },
                    ] + rest,
                ),
            }
        }
    }
}

/// The stanzas detected from the collected geometry.
pub open spec fn spec_detect_stanzas(o: OutV) -> Result<Seq<StanzaV>, Error> {
    match spec_detect_width(o.horz_lines) {
        None => Err(Error::NoStanza),
        Some(w) => match first_cand(o.horz_lines, w) {
            None => Err(Error::NoStanza),
            Some(x) => spec_stanzas_of(ys_of(o.horz_lines, w), x, Fixed { raw: w as i64 }, 0),
        },
    }
}

/// One stanza's barline pass over the remaining vertical lines: each line
/// is offered to the stanza, and the ones not consumed are kept.
pub open spec fn spec_insert_bars(st: StanzaV, lines: Seq<VertLine>) -> (StanzaV, Seq<VertLine>)
    decreases lines.len(),
{
    if lines.len() == 0 {
        (st, Seq::empty())
    } else {
        let (c, st1) = spec_insert_bar(st, lines[0]);
        let (st2, rest) = spec_insert_bars(st1, lines.drop_first());
        (
            st2,
            if c {
                rest
            } else {
                seq![lines[0]] + rest
            },
        )
    }
}

/// One stanza's whole bar phase: barlines taken, bars sorted, the closing
/// bar dropped.
pub open spec fn spec_stanza_bars(st: StanzaV, lines: Seq<VertLine>) -> (StanzaV, Seq<VertLine>) {
    let (st1, rest) = spec_insert_bars(st, lines);
    (StanzaV { bars: spec_sort_bars(st1.bars), ..st1 }, rest)
}

/// The bar phase over all stanzas in ascending order.
pub open spec fn spec_bars_phase(sts: Seq<StanzaV>, lines: Seq<VertLine>) -> (
    Seq<StanzaV>,
    Seq<VertLine>,
)
    decreases sts.len(),
{
    if sts.len() == 0 {
        (Seq::empty(), lines)
    } else {
        let (st2, lines1) = spec_stanza_bars(sts[0], lines);
        let (rest, lines2) = spec_bars_phase(sts.drop_first(), lines1);
        (seq![st2] + rest, lines2)
    }
}

/// One stanza's symbol pass: each symbol is offered, and the ones not
/// claimed are kept.
pub open spec fn spec_put_objects(st: StanzaV, objs: Seq<Object>) -> (StanzaV, Seq<Object>)
    decreases objs.len(),
{
    if objs.len() == 0 {
        (st, Seq::empty())
    } else {
        let (c, st1) = spec_put_object(st, objs[0]);
        let (st2, rest) = spec_put_objects(st1, objs.drop_first());
        (
            st2,
            if c {
                rest
            } else {
                seq![objs[0]] + rest
            },
        )
    }
}

/// One stanza's stem pass: each remaining vertical line is offered, and
/// the ones not consumed are kept. A stem near both bands is fatal.
pub open spec fn spec_put_stems(st: StanzaV, lines: Seq<VertLine>) -> Result<
    (StanzaV, Seq<VertLine>),
    Error,
>
    decreases lines.len(),
{
    if lines.len() == 0 {
        Ok((st, Seq::empty()))
    } else {
        match spec_put_stem(st, lines[0]) {
            Err(e) => Err(e),
            Ok((c, st1)) => match spec_put_stems(st1, lines.drop_first()) {
                Err(e) => Err(e),
                Ok((st2, rest)) => Ok(
                    (
                        st2,
                        if c {
                            rest
                        } else {
                            seq![lines[0]] + rest
                        },
                    ),
                ),
            },
        }
    }
}

/// The claim phase: stanzas take their symbols and stems in reverse order,
/// so that a symbol goes to the lowest stanza whose top line it is below.
pub open spec fn spec_claim_phase(sts: Seq<StanzaV>, objs: Seq<Object>, lines: Seq<VertLine>) -> Result<
    (Seq<StanzaV>, Seq<Object>, Seq<VertLine>),
    Error,
>
    decreases sts.len(),
{
    if sts.len() == 0 {
        Ok((Seq::empty(), objs, lines))
    } else {
        let (st1, objs1) = spec_put_objects(sts.last(), objs);
        match spec_put_stems(st1, lines) {
            Err(e) => Err(e),
            Ok((st2, lines1)) => match spec_claim_phase(sts.drop_last(), objs1, lines1) {
                Err(e) => Err(e),
                Ok((rest, objs2, lines2)) => Ok((rest.push(st2), objs2, lines2)),
            },
        }
    }
}

/// The collection phase: every stanza is processed into its two voices.
pub open spec fn spec_process_phase(sts: Seq<StanzaV>) -> Result<
    Seq<(CollectorV, CollectorV)>,
    Error,
>
    decreases sts.len(),
{
    if sts.len() == 0 {
        Ok(Seq::empty())
    } else {
        match spec_process(sts[0]) {
            Err(e) => Err(e),
            Ok((_, c0, c1)) => match spec_process_phase(sts.drop_first()) {
                Err(e) => Err(e),
                Ok(rest) => Ok(seq![(c0, c1)] + rest),
            },
        }
    }
}

/// The whole recognition pipeline over the collected geometry: the voices
/// of every stanza in page order, and what is left of the geometry.
pub open spec fn spec_recognize(o: OutV) -> Result<(OutV, Seq<(CollectorV, CollectorV)>), Error> {
    match spec_detect_stanzas(o) {
        Err(e) => Err(e),
        Ok(sts) => {
            let (sts1, lines1) = spec_bars_phase(sts, o.vert_lines);
            match spec_claim_phase(sts1, o.objects, lines1) {
                Err(e) => Err(e),
                Ok((sts2, objs2, lines2)) => match spec_process_phase(sts2) {
                    Err(e) => Err(e),
                    Ok(pairs) => Ok((OutV { vert_lines: lines2, objects: objs2, ..o }, pairs)),
                },
            }
        },
    }
}

/// The tail of the recognition pipeline, from the claim phase's result
/// on: the collection phase and the assembly of the leftover geometry.
pub open spec fn recognize_from_claim(
    o0: OutV,
    c: Result<(Seq<StanzaV>, Seq<Object>, Seq<VertLine>), Error>,
) -> Result<(OutV, Seq<(CollectorV, CollectorV)>), Error> {
    match c {
        Err(e) => Err(e),
        Ok((sts2, objs2, lines2)) => match spec_process_phase(sts2) {
            Err(e) => Err(e),
            Ok(ps) => Ok((OutV { vert_lines: lines2, objects: objs2, ..o0 }, ps)),
        },
    }
}

/// The stanza views of an executable stanza list.
pub open spec fn stanzas_view(s: Seq<Stanza>) -> Seq<StanzaV> {
    s.map_values(|st: Stanza| st@)
}

/// The collector views of an executable pair list.
pub open spec fn pairs_view(s: Seq<(Collector, Collector)>) -> Seq<(CollectorV, CollectorV)> {
    s.map_values(|p: (Collector, Collector)| (p.0@, p.1@))
}

/// The recognizer: owns the interpreter's output while it is consumed.
#[derive(Debug)]
pub struct Recognizer {
    pub parser: Parser,
}

impl Recognizer {
    pub fn new(parser: Parser) -> (r: Recognizer)
        ensures
            r.parser@ == parser@,
    {
        Recognizer { parser }
    }

    /// The staff-line width: the largest horizontal-segment length whose
    /// occurrence count is divisible by five; `NoStanza` when none is.
    pub fn detect_width(&self) -> (r: Result<Fixed, Error>)
        requires
            out_ok(self.parser@),
        ensures
            r == match spec_detect_width(self.parser@.horz_lines) {
                None => Err::<Fixed, Error>(Error::NoStanza),
                Some(w) => Ok(Fixed { raw: w as i64 }),
            },
            match r {
                Ok(w) => qualifying(self.parser@.horz_lines, w.raw as int) && forall|w2: int|
                    qualifying(self.parser@.horz_lines, w2) ==> w2 <= w.raw,
                Err(e) => e == Error::NoStanza && forall|w2: int|
                    !qualifying(self.parser@.horz_lines, w2),
            },
    {
        proof {
            lemma_detect_width_max(self.parser@.horz_lines);
            lemma_best_width_bounded(self.parser@.horz_lines, self.parser@.horz_lines.len() as int);
        }
        let lines = &self.parser.horz_lines;
        let ghost s = lines@;
        let mut best: Option<i64> = None;
        let mut i: usize = 0;
        while i < lines.len()
            invariant
                i <= s.len(),
                s == lines@,
                out_ok(self.parser@),
                s == self.parser@.horz_lines,
                match (best, best_width_upto(s, i as int)) {
                    (None, None) => true,
                    (Some(b), Some(w)) => b as int == w,
                    _ => false,
                },
            decreases s.len() - i,
        {
            let line = lines[i];
            proof {
                assert(crate::interp::horz_ok(s[i as int]));
            }
            let len = line.x2.raw - line.x1.raw;
            let mut cnt: usize = 0;
            let mut k: usize = 0;
            while k < lines.len()
                invariant
                    k <= s.len(),
                    s == lines@,
                    out_ok(self.parser@),
                    s == self.parser@.horz_lines,
                    cnt <= k,
                    len as int == hline_len(s[i as int]),
                    i < s.len(),
                    cnt as int == count_len(s.take(k as int), len as int),
                decreases s.len() - k,
            {
                proof {
                    assert(crate::interp::horz_ok(s[k as int]));
                    assert(s.take(k as int + 1).drop_last() =~= s.take(k as int));
                    assert(s.take(k as int + 1).last() == s[k as int]);
                }
                if lines[k].x2.raw - lines[k].x1.raw == len {
                    cnt += 1;
                }
                k += 1;
            }
            proof {
                assert(s.take(s.len() as int) =~= s);
            }
            if cnt % 5 == 0 {
                best = match best {
                    None => Some(len),
                    Some(b) => if len >= b {
                        Some(len)
                    } else {
                        Some(b)
                    },
                };
            }
            i += 1;
        }
        match best {
            None => Err(Error::NoStanza),
            Some(b) => Ok(Fixed { raw: b }),
        }
    }
}


/// Ys in strictly ascending order.
pub open spec fn ys_sorted(s: Seq<Fixed>) -> bool {
    forall|i: int, j: int| 0 <= i < j < s.len() ==> s[i].raw < s[j].raw
}

/// Insertion keeps the ys strictly ascending and bounded, and the last
/// element is no larger than the larger of the inserted value and the old
/// last.
pub proof fn lemma_insert_y_props(s: Seq<Fixed>, v: Fixed)
    requires
        ys_sorted(s),
        forall|i: int| 0 <= i < s.len() ==> crate::fixed::coord_ok(#[trigger] s[i]),
        crate::fixed::coord_ok(v),
    ensures
        ys_sorted(insert_y(s, v)),
        forall|i: int|
            0 <= i < insert_y(s, v).len() ==> crate::fixed::coord_ok(#[trigger] insert_y(s, v)[i]),
        insert_y(s, v).len() > 0,
        insert_y(s, v).last().raw <= crate::stanza::imax(
            v.raw as int,
            if s.len() > 0 {
                s.last().raw as int
            } else {
                v.raw as int
            },
        ),
    decreases s.len(),
{
    let r = insert_y(s, v);
    if s.len() == 0 {
    } else if s.last().raw == v.raw {
    } else if s.last().raw < v.raw {
        assert forall|i: int, j: int| 0 <= i < j < r.len() implies r[i].raw < r[j].raw by {
            if j < s.len() {
                assert(s[i].raw < s[j].raw);
            } else {
                if i < s.len() - 1 {
                    assert(s[i].raw < s[s.len() - 1].raw);
                }
            }
        }
        assert forall|i: int| 0 <= i < r.len() implies crate::fixed::coord_ok(#[trigger] r[i]) by {
            if i < s.len() {
                assert(crate::fixed::coord_ok(s[i]));
            }
        }
    } else {
        assert(forall|i: int|
            0 <= i < s.drop_last().len() ==> crate::fixed::coord_ok(#[trigger] s.drop_last()[i]));
        lemma_insert_y_props(s.drop_last(), v);
        let t = insert_y(s.drop_last(), v);
        if s.len() > 1 {
            assert(s.drop_last().last().raw < s.last().raw);
        }
        assert(t.last().raw < s.last().raw);
        assert forall|i: int, j: int| 0 <= i < j < r.len() implies r[i].raw < r[j].raw by {
            if j < t.len() {
                assert(t[i].raw < t[j].raw);
            } else {
                if i < t.len() - 1 {
                    assert(t[i].raw < t[t.len() - 1].raw);
                }
                assert(t.last() == t[t.len() - 1]);
            }
        }
        assert forall|i: int| 0 <= i < r.len() implies crate::fixed::coord_ok(#[trigger] r[i]) by {
            if i < t.len() {
                assert(crate::fixed::coord_ok(t[i]));
            } else {
                assert(crate::fixed::coord_ok(s[s.len() - 1]));
            }
        }
    }
}

/// The collected ys of a well-formed line collection are strictly
/// ascending and bounded.
pub proof fn lemma_ys_of_props(s: Seq<HorzLine>, w: int)
    requires
        forall|i: int| 0 <= i < s.len() ==> #[trigger] crate::interp::horz_ok(s[i]),
    ensures
        ys_sorted(ys_of(s, w)),
        forall|i: int|
            0 <= i < ys_of(s, w).len() ==> crate::fixed::coord_ok(#[trigger] ys_of(s, w)[i]),
    decreases s.len(),
{
    if s.len() == 0 {
    } else {
        assert(forall|i: int|
            0 <= i < s.drop_last().len() ==> #[trigger] crate::interp::horz_ok(s.drop_last()[i]));
        lemma_ys_of_props(s.drop_last(), w);
        if hline_len(s.last()) == w {
            assert(crate::interp::horz_ok(s[s.len() - 1]));
            assert(crate::fixed::coord_ok(s.last().y));
            lemma_insert_y_props(ys_of(s.drop_last(), w), s.last().y);
        }
    }
}

/// The best qualifying width, when there is one, is the length of some
/// segment, hence within twice the coordinate limit.
pub proof fn lemma_best_width_bounded(s: Seq<HorzLine>, i: int)
    requires
        forall|k: int| 0 <= k < s.len() ==> #[trigger] crate::interp::horz_ok(s[k]),
        i <= s.len(),
    ensures
        match best_width_upto(s, i) {
            None => true,
            Some(w) => 0 <= w <= 2 * (crate::interp::COORD_LIMIT as int),
        },
    decreases i,
{
    if i <= 0 {
    } else {
        lemma_best_width_bounded(s, i - 1);
        assert(crate::interp::horz_ok(s[i - 1]));
    }
}

fn insert_y_exec(v: &mut Vec<Fixed>, item: Fixed)
    ensures
        final (v)@ == insert_y(old(v)@, item),
    decreases old(v)@.len(),
{
    if v.len() == 0 {
        v.push(item);
        return ;
    }
    let last = v[v.len() - 1];
    if last.raw == item.raw {
        return ;
    }
    if last.raw < item.raw {
        v.push(item);
    } else {
        let popped = match v.pop() {
            Some(p) => p,
            None => {
                proof {
                    assert(false);
                }
                item
            },
        };
        insert_y_exec(v, item);
        v.push(popped);
    }
}

impl Recognizer {
    /// The stanzas of the page: staff-line candidates of the detected
    /// width are grouped by their distinct ys into chunks of ten, each a
    /// staff pair with its top line, span and spacing (see
    /// [`spec_detect_stanzas`]).
    pub fn detect_stanzas(&self) -> (r: Result<Vec<Stanza>, Error>)
        requires
            out_ok(self.parser@),
        ensures
            match spec_detect_stanzas(self.parser@) {
                Ok(sv) => r matches Ok(v) && stanzas_view(v@) == sv,
                Err(e) => r == Err::<Vec<Stanza>, Error>(e),
            },
            r matches Ok(v) ==> forall|i: int|
                0 <= i < v@.len() ==> crate::stanza::stanza_wf(#[trigger] stanzas_view(v@)[i])
                    && crate::stanza::stanza_fresh(stanzas_view(v@)[i]),
    {
        let ghost s = self.parser@.horz_lines;
        let w = match self.detect_width() {
            Ok(w) => w,
            Err(e) => {
                return Err(e);
            },
        };
        proof {
            lemma_best_width_bounded(s, s.len() as int);
        }
        let lines = &self.parser.horz_lines;
        let mut xo: Option<Fixed> = None;
        let mut i: usize = 0;
        proof {
            assert(s.skip(0) =~= s);
        }
        while i < lines.len()
            invariant
                i <= s.len(),
                s == lines@,
                out_ok(self.parser@),
                s == self.parser@.horz_lines,
                bounded(w),
                w.raw >= 0,
                match xo {
                    None => first_cand(s, w.raw as int) == first_cand(
                        s.skip(i as int),
                        w.raw as int,
                    ),
                    Some(x) => first_cand(s, w.raw as int) == Some(x) && bounded(x),
                },
            decreases s.len() - i,
        {
            proof {
                assert(crate::interp::horz_ok(s[i as int]));
                assert(s.skip(i as int)[0] == s[i as int]);
                assert(s.skip(i as int).drop_first() =~= s.skip(i as int + 1));
            }
            if xo.is_none() {
                let line = lines[i];
                if line.x2.raw - line.x1.raw == w.raw {
                    xo = Some(line.x1);
                }
            }
            i += 1;
        }
        proof {
            assert(s.skip(s.len() as int) =~= Seq::<HorzLine>::empty());
        }
        let x = match xo {
            Some(x) => x,
            None => {
                return Err(Error::NoStanza);
            },
        };
        let mut ys: Vec<Fixed> = Vec::new();
        let mut i: usize = 0;
        proof {
            assert(s.take(0) =~= Seq::<HorzLine>::empty());
        }
        while i < lines.len()
            invariant
                i <= s.len(),
                s == lines@,
                out_ok(self.parser@),
                s == self.parser@.horz_lines,
                bounded(w),
                ys@ == ys_of(s.take(i as int), w.raw as int),
            decreases s.len() - i,
        {
            proof {
                assert(crate::interp::horz_ok(s[i as int]));
                assert(s.take(i as int + 1).drop_last() =~= s.take(i as int));
                assert(s.take(i as int + 1).last() == s[i as int]);
            }
            let line = lines[i];
            if line.x2.raw - line.x1.raw == w.raw {
                insert_y_exec(&mut ys, line.y);
            }
            i += 1;
        }
        proof {
            assert(s.take(s.len() as int) =~= s);
            lemma_ys_of_props(s, w.raw as int);
            assert(spec_detect_width(s) == Some(w.raw as int));
            assert(first_cand(s, w.raw as int) == Some(x));
        }
        let ghost ysv = ys@;
        proof {
            assert(spec_detect_stanzas(self.parser@) == spec_stanzas_of(ysv, x, w, 0));
        }
        let mut out: Vec<Stanza> = Vec::new();
        let mut k: usize = 0;
        proof {
            assert(stanzas_view(out@) =~= Seq::<StanzaV>::empty());
            match spec_stanzas_of(ysv, x, w, 0) {
                Ok(rest) => {
                    assert(stanzas_view(out@) + rest =~= rest);
                },
                Err(_) => {},
            }
        }
        while k < ys.len()
            invariant
                k <= ysv.len(),
                ys@ == ysv,
                ys_sorted(ysv),
                forall|i0: int| 0 <= i0 < ysv.len() ==> crate::fixed::coord_ok(#[trigger] ysv[i0]),
                bounded(w),
                w.raw >= 0,
                bounded(x),
                spec_detect_stanzas(self.parser@) == spec_stanzas_of(ysv, x, w, 0int),
                spec_stanzas_of(ysv, x, w, 0) == match spec_stanzas_of(ysv, x, w, k as int) {
                    Ok(rest) => Ok::<Seq<StanzaV>, Error>(stanzas_view(out@) + rest),
                    Err(e) => Err(e),
                },
                forall|i0: int|
                    0 <= i0 < out@.len() ==> crate::stanza::stanza_wf(
                        #[trigger] stanzas_view(out@)[i0],
                    ) && crate::stanza::stanza_fresh(stanzas_view(out@)[i0]),
            decreases ysv.len() - k,
        {
            if ys.len() - k < 10 {
                return Err(Error::EmptyChunk);
            }
            let d = ys[k + 1].raw - ys[k].raw;
            let ok = ys[k + 2].raw - ys[k + 1].raw == d && ys[k + 3].raw - ys[k + 2].raw == d
                && ys[k + 4].raw - ys[k + 3].raw == d && ys[k + 6].raw - ys[k + 5].raw == d && ys[k
                + 7].raw - ys[k + 6].raw == d && ys[k + 8].raw - ys[k + 7].raw == d && ys[k
                + 9].raw - ys[k + 8].raw == d;
            if !ok {
                return Err(Error::NoStanza);
            }
            let height = ys[k + 9].raw - ys[k].raw;
            let st = Stanza::new(x, ys[k], w, Fixed::from_raw(height), Fixed::from_raw(d));
            let ghost stv = st@;
            let ghost out_pre = stanzas_view(out@);
            out.push(st);
            proof {
                assert(ysv[k as int].raw < ysv[k as int + 1].raw);
                assert(crate::fixed::coord_ok(ysv[k as int]));
                assert(crate::fixed::coord_ok(ysv[k as int + 1]));
                assert(crate::fixed::coord_ok(ysv[k as int + 9]));
                assert(crate::stanza::stanza_wf(stv));
                assert(crate::stanza::stanza_fresh(stv));
                assert(stanzas_view(out@) =~= out_pre.push(stv));
                assert(out_pre.push(stv) =~= out_pre + seq![stv]);
                match spec_stanzas_of(ysv, x, w, k as int + 10) {
                    Ok(rest) => {
                        assert((out_pre + seq![stv]) + rest =~= out_pre + (seq![stv] + rest));
                    },
                    Err(_) => {},
                }
                assert forall|i0: int|
                    0 <= i0 < out@.len() implies crate::stanza::stanza_wf(
                    #[trigger] stanzas_view(out@)[i0],
                ) && crate::stanza::stanza_fresh(stanzas_view(out@)[i0]) by {
                    if i0 < out_pre.len() {
                        assert(crate::stanza::stanza_wf(out_pre[i0]));
                        assert(crate::stanza::stanza_fresh(out_pre[i0]));
                    }
                }
            }
            k += 10;
        }
        proof {
            match spec_stanzas_of(ysv, x, w, k as int) {
                Ok(rest) => {
                    assert(stanzas_view(out@) + rest =~= stanzas_view(out@));
                },
                Err(_) => {},
            }
        }
        Ok(out)
    }
}


/// Every vertical line of the collection is canonical and bounded.
pub open spec fn lines_ok(s: Seq<VertLine>) -> bool {
    forall|i: int| 0 <= i < s.len() ==> #[trigger] crate::interp::vert_ok(s[i])
}

/// Every symbol of the collection can be taken by a bar.
pub open spec fn objs_ok(s: Seq<Object>) -> bool {
    forall|i: int| 0 <= i < s.len() ==> #[trigger] obj_ok(s[i])
}

/// Every stanza of the collection is well formed and untouched.
pub open spec fn stanzas_ready(s: Seq<StanzaV>) -> bool {
    forall|i: int| 0 <= i < s.len() ==> #[trigger] crate::stanza::stanza_ready(s[i])
}

impl Recognizer {
    /// Runs the whole recognition over the interpreter's output (see
    /// [`spec_recognize`]): stanzas are detected, take their barlines,
    /// symbols and stems, and each is collected into its two voices. What
    /// the stanzas do not consume stays in the parser.
    pub fn process(&mut self) -> (r: Result<Vec<(Collector, Collector)>, Error>)
        requires
            out_ok(old(self).parser@),
        ensures
            match spec_recognize(old(self).parser@) {
                Ok((out2, pairs)) => r matches Ok(v) && pairs_view(v@) == pairs
                    && final (self).parser@ == out2,
                Err(e) => r == Err::<Vec<(Collector, Collector)>, Error>(e),
            },
    {
        let ghost o0 = self.parser@;
        let mut stanzas: Vec<Stanza> = match self.detect_stanzas() {
            Ok(v) => v,
            Err(e) => {
                return Err(e);
            },
        };
        let ghost sts0 = stanzas_view(stanzas@);
        // Bar phase: each stanza takes its barlines from the vertical
        // lines, in page order.
        let mut done: Vec<Stanza> = Vec::new();
        proof {
            assert(stanzas_view(done@) =~= Seq::<StanzaV>::empty());
            let ph = spec_bars_phase(sts0, o0.vert_lines);
            assert(stanzas_view(done@) + ph.0 =~= ph.0);
        }
        while stanzas.len() > 0
            invariant
                o0 == old(self).parser@,
                out_ok(o0),
                self.parser@.horz_lines == o0.horz_lines,
                self.parser@.lines == o0.lines,
                self.parser@.quadras == o0.quadras,
                self.parser@.objects == o0.objects,
                lines_ok(self.parser@.vert_lines),
                stanzas_ready(stanzas_view(stanzas@)),
                stanzas_ready(stanzas_view(done@)),
                spec_bars_phase(sts0, o0.vert_lines).0 == stanzas_view(done@) + spec_bars_phase(
                    stanzas_view(stanzas@),
                    self.parser@.vert_lines,
                ).0,
                spec_bars_phase(sts0, o0.vert_lines).1 == spec_bars_phase(
                    stanzas_view(stanzas@),
                    self.parser@.vert_lines,
                ).1,
            decreases stanzas@.len(),
        {
            let ghost sts_pre = stanzas_view(stanzas@);
            let ghost done_pre = stanzas_view(done@);
            let mut st = stanzas.remove(0);
            let ghost st_in = st@;
            let ghost lines_in = self.parser@.vert_lines;
            proof {
                assert(st_in == sts_pre[0]);
                assert(stanzas_view(stanzas@) =~= sts_pre.drop_first());
                assert(crate::stanza::stanza_ready(st_in));
                assert(lines_in.skip(0) =~= lines_in);
            }
            let mut kept: Vec<VertLine> = Vec::new();
            let mut i: usize = 0;
            proof {
                let f = spec_insert_bars(st@, lines_in.skip(0));
                assert(kept@ + f.1 =~= f.1);
            }
            while i < self.parser.vert_lines.len()
                invariant
                    i <= lines_in.len(),
                    self.parser@.vert_lines == lines_in,
                    lines_ok(lines_in),
                    lines_ok(kept@),
                    crate::stanza::stanza_ready(st@),
                    spec_insert_bars(st_in, lines_in).0 == spec_insert_bars(
                        st@,
                        lines_in.skip(i as int),
                    ).0,
                    spec_insert_bars(st_in, lines_in).1 == kept@ + spec_insert_bars(
                        st@,
                        lines_in.skip(i as int),
                    ).1,
                decreases lines_in.len() - i,
            {
                proof {
                    assert(crate::interp::vert_ok(lines_in[i as int]));
                    assert(lines_in.skip(i as int)[0] == lines_in[i as int]);
                    assert(lines_in.skip(i as int).drop_first() =~= lines_in.skip(i as int + 1));
                }
                let line = self.parser.vert_lines[i];
                let ghost st_pre = st@;
                let ghost kept_pre = kept@;
                let consumed = st.insert_bar(&line);
                proof {
                    crate::stanza::lemma_insert_bar_ready(st_pre, line);
                }
                if !consumed {
                    kept.push(line);
                    proof {
                        let rest = spec_insert_bars(st@, lines_in.skip(i as int + 1)).1;
                        assert(kept@ =~= kept_pre.push(line));
                        assert(kept_pre.push(line) + rest =~= kept_pre + (seq![line] + rest));
                        assert forall|i0: int| 0 <= i0 < kept@.len() implies #[trigger]
                        crate::interp::vert_ok(kept@[i0]) by {
                            if i0 < kept_pre.len() {
                                assert(crate::interp::vert_ok(kept_pre[i0]));
                            }
                        }
                    }
                }
                i += 1;
            }
            proof {
                assert(lines_in.skip(lines_in.len() as int) =~= Seq::<VertLine>::empty());
                let f = spec_insert_bars(st_in, lines_in);
                assert(kept@ + Seq::<VertLine>::empty() =~= kept@);
                assert(f.0 == st@);
                assert(f.1 == kept@);
            }
            self.parser.vert_lines = kept;
            let ghost st_mid = st@;
            st.sort_bars();
            proof {
                crate::stanza::lemma_sort_bars_ready(st_mid);
                assert(spec_stanza_bars(st_in, lines_in).0 == st@);
                assert(spec_stanza_bars(st_in, lines_in).1 == self.parser@.vert_lines);
            }
            done.push(st);
            proof {
                assert(stanzas_view(done@) =~= done_pre.push(st@));
                assert(done_pre.push(st@) =~= done_pre + seq![st@]);
                let ph_rest = spec_bars_phase(stanzas_view(stanzas@), self.parser@.vert_lines);
                assert((done_pre + seq![st@]) + ph_rest.0 =~= done_pre + (seq![st@] + ph_rest.0));
                assert forall|i0: int| 0 <= i0 < stanzas_view(done@).len() implies #[trigger]
                crate::stanza::stanza_ready(stanzas_view(done@)[i0]) by {
                    if i0 < done_pre.len() {
                        assert(crate::stanza::stanza_ready(done_pre[i0]));
                    }
                }
            }
        }
        proof {
            assert(stanzas_view(stanzas@) =~= Seq::<StanzaV>::empty());
            let ph = spec_bars_phase(sts0, o0.vert_lines);
            assert(stanzas_view(done@) + Seq::<StanzaV>::empty() =~= stanzas_view(done@));
            assert(ph.0 == stanzas_view(done@));
            assert(ph.1 == self.parser@.vert_lines);
        }
        let ghost sts1 = stanzas_view(done@);
        let ghost lines1 = self.parser@.vert_lines;
        let ghost objs1 = self.parser@.objects;
        proof {
            assert(spec_recognize(o0) == recognize_from_claim(
                o0,
                spec_claim_phase(sts1, objs1, lines1),
            ));
        }
        let mut stanzas = done;
        // Claim phase: stanzas take their symbols and stems in reverse
        // order.
        let mut done2: Vec<Stanza> = Vec::new();
        proof {
            assert(objs_ok(objs1)) by {
                assert forall|i0: int| 0 <= i0 < objs1.len() implies #[trigger] obj_ok(objs1[i0]) by {
                    assert(crate::interp::point_ok(o0.objects[i0].point));
                    assert(crate::geom::emitted_type(o0.objects[i0].t));
                }
            }
            assert(stanzas_view(done2@) =~= Seq::<StanzaV>::empty());
            match spec_claim_phase(sts1, objs1, lines1) {
                Ok((rest, _, _)) => {
                    assert(rest + stanzas_view(done2@) =~= rest);
                },
                Err(_) => {},
            }
        }
        while stanzas.len() > 0
            invariant
                o0 == old(self).parser@,
                self.parser@.horz_lines == o0.horz_lines,
                self.parser@.lines == o0.lines,
                self.parser@.quadras == o0.quadras,
                lines_ok(self.parser@.vert_lines),
                objs_ok(self.parser@.objects),
                stanzas_ready(stanzas_view(stanzas@)),
                stanzas_ready(stanzas_view(done2@)),
                spec_recognize(o0) == recognize_from_claim(
                    o0,
                    spec_claim_phase(sts1, objs1, lines1),
                ),
                spec_claim_phase(sts1, objs1, lines1) == match spec_claim_phase(
                    stanzas_view(stanzas@),
                    self.parser@.objects,
                    self.parser@.vert_lines,
                ) {
                    Ok((rest, o2, l2)) => Ok::<_, Error>(
                        (rest + stanzas_view(done2@), o2, l2),
                    ),
                    Err(e) => Err(e),
                },
            decreases stanzas@.len(),
        {
            let ghost sts_pre = stanzas_view(stanzas@);
            let ghost done2_pre = stanzas_view(done2@);
            let mut st = match stanzas.pop() {
                Some(st) => st,
                None => {
                    proof {
                        assert(false);
                    }
                    Stanza::new(
                        Fixed { raw: 0 },
                        Fixed { raw: 0 },
                        Fixed { raw: 0 },
                        Fixed { raw: 0 },
                        Fixed { raw: 1 },
                    )
                },
            };
            let ghost st_in = st@;
            let ghost objs_in = self.parser@.objects;
            let ghost lines_in = self.parser@.vert_lines;
            proof {
                assert(st_in == sts_pre.last());
                assert(stanzas_view(stanzas@) =~= sts_pre.drop_last());
                assert(crate::stanza::stanza_ready(st_in));
                assert(objs_in.skip(0) =~= objs_in);
            }
            // Symbols pass.
            let mut kept_objs: Vec<Object> = Vec::new();
            let mut i: usize = 0;
            proof {
                let f = spec_put_objects(st@, objs_in.skip(0));
                assert(kept_objs@ + f.1 =~= f.1);
            }
            while i < self.parser.objects.len()
                invariant
                    i <= objs_in.len(),
                    self.parser@.objects == objs_in,
                    objs_ok(objs_in),
                    objs_ok(kept_objs@),
                    crate::stanza::stanza_ready(st@),
                    spec_put_objects(st_in, objs_in).0 == spec_put_objects(
                        st@,
                        objs_in.skip(i as int),
                    ).0,
                    spec_put_objects(st_in, objs_in).1 == kept_objs@ + spec_put_objects(
                        st@,
                        objs_in.skip(i as int),
                    ).1,
                decreases objs_in.len() - i,
            {
                proof {
                    assert(obj_ok(objs_in[i as int]));
                    assert(objs_in.skip(i as int)[0] == objs_in[i as int]);
                    assert(objs_in.skip(i as int).drop_first() =~= objs_in.skip(i as int + 1));
                }
                let obj = self.parser.objects[i];
                let ghost st_pre = st@;
                let ghost kept_pre = kept_objs@;
                let claimed = st.put_object(&obj);
                proof {
                    crate::stanza::lemma_put_object_ready(st_pre, obj);
                }
                if !claimed {
                    kept_objs.push(obj);
                    proof {
                        let rest = spec_put_objects(st@, objs_in.skip(i as int + 1)).1;
                        assert(kept_objs@ =~= kept_pre.push(obj));
                        assert(kept_pre.push(obj) + rest =~= kept_pre + (seq![obj] + rest));
                        assert forall|i0: int| 0 <= i0 < kept_objs@.len() implies #[trigger] obj_ok(
                            kept_objs@[i0],
                        ) by {
                            if i0 < kept_pre.len() {
                                assert(obj_ok(kept_pre[i0]));
                            }
                        }
                    }
                }
                i += 1;
            }
            proof {
                assert(objs_in.skip(objs_in.len() as int) =~= Seq::<Object>::empty());
                let f = spec_put_objects(st_in, objs_in);
                assert(kept_objs@ + Seq::<Object>::empty() =~= kept_objs@);
                assert(f.0 == st@);
                assert(f.1 == kept_objs@);
            }
            self.parser.objects = kept_objs;
            // Stems pass.
            let ghost st_mid = st@;
            let mut kept_lines: Vec<VertLine> = Vec::new();
            let mut i: usize = 0;
            proof {
                assert(lines_in.skip(0) =~= lines_in);
                match spec_put_stems(st@, lines_in.skip(0)) {
                    Ok((_, rest)) => {
                        assert(kept_lines@ + rest =~= rest);
                    },
                    Err(_) => {},
                }
            }
            while i < self.parser.vert_lines.len()
                invariant
                    i <= lines_in.len(),
                    o0 == old(self).parser@,
                    self.parser@.vert_lines == lines_in,
                    lines_ok(lines_in),
                    lines_ok(kept_lines@),
                    crate::stanza::stanza_ready(st@),
                    spec_recognize(o0) == recognize_from_claim(
                        o0,
                        spec_claim_phase(sts1, objs1, lines1),
                    ),
                    spec_claim_phase(sts1, objs1, lines1) == match spec_claim_phase(
                        sts_pre,
                        objs_in,
                        lines_in,
                    ) {
                        Ok((rest, o2, l2)) => Ok::<_, Error>((rest + done2_pre, o2, l2)),
                        Err(e) => Err(e),
                    },
                    sts_pre.len() > 0,
                    st_in == sts_pre.last(),
                    spec_put_objects(st_in, objs_in).0 == st_mid,
                    spec_put_objects(st_in, objs_in).1 == self.parser@.objects,
                    spec_put_stems(st_mid, lines_in) == match spec_put_stems(
                        st@,
                        lines_in.skip(i as int),
                    ) {
                        Ok((s2, rest)) => Ok::<_, Error>((s2, kept_lines@ + rest)),
                        Err(e) => Err(e),
                    },
                decreases lines_in.len() - i,
            {
                proof {
                    assert(crate::interp::vert_ok(lines_in[i as int]));
                    assert(lines_in.skip(i as int)[0] == lines_in[i as int]);
                    assert(lines_in.skip(i as int).drop_first() =~= lines_in.skip(i as int + 1));
                }
                let line = self.parser.vert_lines[i];
                let ghost st_pre = st@;
                let ghost kept_pre = kept_lines@;
                let consumed = match st.put_stem(&line) {
                    Ok(c) => c,
                    Err(e) => {
                        proof {
                            assert(spec_put_stems(st_pre, lines_in.skip(i as int)) == Err::<
                                (StanzaV, Seq<VertLine>),
                                Error,
                            >(e));
                            assert(spec_put_stems(st_mid, lines_in) == Err::<
                                (StanzaV, Seq<VertLine>),
                                Error,
                            >(e));
                            assert(spec_claim_phase(sts_pre, objs_in, lines_in) == Err::<
                                (Seq<StanzaV>, Seq<Object>, Seq<VertLine>),
                                Error,
                            >(e));
                            assert(spec_claim_phase(sts1, objs1, lines1) == Err::<
                                (Seq<StanzaV>, Seq<Object>, Seq<VertLine>),
                                Error,
                            >(e));
                            assert(spec_recognize(o0) == Err::<
                                (OutV, Seq<(CollectorV, CollectorV)>),
                                Error,
                            >(e));
                        }
                        return Err(e);
                    },
                };
                proof {
                    crate::stanza::lemma_put_stem_ready(st_pre, line);
                }
                if !consumed {
                    kept_lines.push(line);
                    proof {
                        match spec_put_stems(st@, lines_in.skip(i as int + 1)) {
                            Ok((_, rest)) => {
                                assert(kept_lines@ =~= kept_pre.push(line));
                                assert(kept_pre.push(line) + rest =~= kept_pre + (
                                seq![line] + rest));
                            },
                            Err(_) => {},
                        }
                        assert forall|i0: int| 0 <= i0 < kept_lines@.len() implies #[trigger]
                        crate::interp::vert_ok(kept_lines@[i0]) by {
                            if i0 < kept_pre.len() {
                                assert(crate::interp::vert_ok(kept_pre[i0]));
                            }
                        }
                    }
                }
                i += 1;
            }
            proof {
                assert(lines_in.skip(lines_in.len() as int) =~= Seq::<VertLine>::empty());
                match spec_put_stems(st_mid, lines_in) {
                    Ok((s2, rest)) => {
                        assert(kept_lines@ + Seq::<VertLine>::empty() =~= kept_lines@);
                        assert(s2 == st@);
                        assert(rest == kept_lines@);
                    },
                    Err(_) => {
                        assert(false);
                    },
                }
            }
            self.parser.vert_lines = kept_lines;
            done2.insert(0, st);
            proof {
                assert(stanzas_view(done2@) =~= seq![st@] + done2_pre);
                match spec_claim_phase(stanzas_view(stanzas@), self.parser@.objects, self.parser@.vert_lines) {
                    Ok((rest2, _, _)) => {
                        assert(rest2 + (seq![st@] + done2_pre) =~= (rest2.push(st@)) + done2_pre);
                    },
                    Err(_) => {},
                }
                assert forall|i0: int| 0 <= i0 < stanzas_view(done2@).len() implies #[trigger]
                crate::stanza::stanza_ready(stanzas_view(done2@)[i0]) by {
                    if i0 >= 1 {
                        assert(crate::stanza::stanza_ready(done2_pre[i0 - 1]));
                    }
                }
            }
        }
        proof {
            assert(stanzas_view(stanzas@) =~= Seq::<StanzaV>::empty());
            match spec_claim_phase(sts1, objs1, lines1) {
                Ok((rest, o2, l2)) => {
                    assert(Seq::<StanzaV>::empty() + stanzas_view(done2@) =~= stanzas_view(done2@));
                    assert(rest == stanzas_view(done2@));
                    assert(o2 == self.parser@.objects);
                    assert(l2 == self.parser@.vert_lines);
                },
                Err(_) => {
                    assert(false);
                },
            }
        }
        let ghost sts2 = stanzas_view(done2@);
        let mut stanzas = done2;
        // Collection phase: each stanza becomes its two voices.
        let mut pairs: Vec<(Collector, Collector)> = Vec::new();
        proof {
            assert(pairs_view(pairs@) =~= Seq::<(CollectorV, CollectorV)>::empty());
            match spec_process_phase(sts2) {
                Ok(ps) => {
                    assert(pairs_view(pairs@) + ps =~= ps);
                },
                Err(_) => {},
            }
        }
        while stanzas.len() > 0
            invariant
                o0 == old(self).parser@,
                self.parser@.horz_lines == o0.horz_lines,
                self.parser@.lines == o0.lines,
                self.parser@.quadras == o0.quadras,
                self.parser@.vert_lines == spec_claim_phase(sts1, objs1, lines1)->Ok_0.2,
                self.parser@.objects == spec_claim_phase(sts1, objs1, lines1)->Ok_0.1,
                spec_claim_phase(sts1, objs1, lines1) is Ok,
                spec_recognize(o0) == recognize_from_claim(
                    o0,
                    spec_claim_phase(sts1, objs1, lines1),
                ),
                sts2 == spec_claim_phase(sts1, objs1, lines1)->Ok_0.0,
                stanzas_ready(stanzas_view(stanzas@)),
                spec_process_phase(sts2) == match spec_process_phase(stanzas_view(stanzas@)) {
                    Ok(rest) => Ok::<_, Error>(pairs_view(pairs@) + rest),
                    Err(e) => Err(e),
                },
            decreases stanzas@.len(),
        {
            let ghost sts_pre = stanzas_view(stanzas@);
            let ghost pairs_pre = pairs_view(pairs@);
            let mut st = stanzas.remove(0);
            proof {
                assert(st@ == sts_pre[0]);
                assert(stanzas_view(stanzas@) =~= sts_pre.drop_first());
                assert(crate::stanza::stanza_ready(sts_pre[0]));
            }
            let pair = match st.process() {
                Ok(p) => p,
                Err(e) => {
                    proof {
                        assert(spec_process_phase(sts_pre) == Err::<
                            Seq<(CollectorV, CollectorV)>,
                            Error,
                        >(e));
                        assert(spec_process_phase(sts2) == Err::<
                            Seq<(CollectorV, CollectorV)>,
                            Error,
                        >(e));
                        assert(spec_recognize(o0) == Err::<
                            (OutV, Seq<(CollectorV, CollectorV)>),
                            Error,
                        >(e));
                    }
                    return Err(e);
                },
            };
            pairs.push(pair);
            proof {
                assert(pairs_view(pairs@) =~= pairs_pre.push((pair.0@, pair.1@)));
                match spec_process_phase(stanzas_view(stanzas@)) {
                    Ok(rest) => {
                        assert(pairs_pre.push((pair.0@, pair.1@)) + rest =~= pairs_pre + (
                        seq![(pair.0@, pair.1@)] + rest));
                    },
                    Err(_) => {},
                }
            }
        }
        proof {
            assert(stanzas_view(stanzas@) =~= Seq::<StanzaV>::empty());
            match spec_process_phase(sts2) {
                Ok(ps) => {
                    assert(pairs_view(pairs@) + Seq::<(CollectorV, CollectorV)>::empty()
                        =~= pairs_view(pairs@));
                    assert(ps == pairs_view(pairs@));
                },
                Err(_) => {
                    assert(false);
                },
            }
            match spec_recognize(o0) {
                Ok((out2, ps)) => {
                    assert(self.parser@ == out2);
                },
                Err(_) => {
                    assert(false);
                },
            }
        }
        Ok(pairs)
    }
}


/// Every detected stanza comes from a chunk of ten staff-line ys whose top
/// five and bottom five are equi-spaced by exactly the stanza's scale, and
/// its top line is the chunk's first y.
pub proof fn lemma_detected_spacing(ys: Seq<Fixed>, x: Fixed, w: Fixed, k: int)
    requires
        0 <= k,
        forall|i: int| 0 <= i < ys.len() ==> crate::fixed::coord_ok(#[trigger] ys[i]),
        spec_stanzas_of(ys, x, w, k) is Ok,
    ensures
        forall|m: int|
            0 <= m < spec_stanzas_of(ys, x, w, k)->Ok_0.len() ==> chunk_ok(
                ys,
                k + 10 * m,
                (#[trigger] spec_stanzas_of(ys, x, w, k)->Ok_0[m]).scale.raw as int,
            ) && spec_stanzas_of(ys, x, w, k)->Ok_0[m].y == ys[k + 10 * m],
    decreases ys.len() - k,
{
    let r = spec_stanzas_of(ys, x, w, k)->Ok_0;
    if k >= ys.len() {
    } else {
        let d = ys[k + 1].raw - ys[k].raw;
        lemma_detected_spacing(ys, x, w, k + 10);
        let rest = spec_stanzas_of(ys, x, w, k + 10)->Ok_0;
        assert(crate::fixed::coord_ok(ys[k]));
        assert(crate::fixed::coord_ok(ys[k + 1]));
        assert forall|m: int| 0 <= m < r.len() implies chunk_ok(
            ys,
            k + 10 * m,
            (#[trigger] r[m]).scale.raw as int,
        ) && r[m].y == ys[k + 10 * m] by {
            if m == 0 {
                assert(r[0].scale.raw as int == d);
            } else {
                assert(r[m] == rest[m - 1]);
                assert(chunk_ok(ys, k + 10 + 10 * (m - 1), rest[m - 1].scale.raw as int));
                assert(k + 10 + 10 * (m - 1) == k + 10 * m);
            }
        }
    }
}


/// Counts are never negative.
pub proof fn lemma_count_nonneg(s: Seq<HorzLine>, w: int)
    ensures
        count_len(s, w) >= 0,
    decreases s.len(),
{
    if s.len() == 0 {
    } else {
        lemma_count_nonneg(s.drop_last(), w);
    }
}

/// The length of any segment of the collection occurs at least once.
pub proof fn lemma_count_occurrence(s: Seq<HorzLine>, j: int)
    requires
        0 <= j < s.len(),
    ensures
        count_len(s, hline_len(s[j])) > 0,
    decreases s.len(),
{
    if j == s.len() - 1 {
        lemma_count_nonneg(s.drop_last(), hline_len(s[j]));
    } else {
        lemma_count_occurrence(s.drop_last(), j);
        lemma_count_nonneg(s, hline_len(s[j]));
        assert(s.drop_last()[j] == s[j]);
        assert(count_len(s, hline_len(s[j])) >= count_len(s.drop_last(), hline_len(s[j])));
    }
}

/// A length with a positive count is the length of some segment.
pub proof fn lemma_count_pos(s: Seq<HorzLine>, w: int)
    requires
        count_len(s, w) > 0,
    ensures
        exists|j: int| 0 <= j < s.len() && hline_len(#[trigger] s[j]) == w,
    decreases s.len(),
{
    if hline_len(s.last()) == w {
        assert(hline_len(s[s.len() - 1]) == w);
    } else {
        lemma_count_pos(s.drop_last(), w);
        let j = choose|j: int|
            0 <= j < s.drop_last().len() && hline_len(#[trigger] s.drop_last()[j]) == w;
        assert(hline_len(s[j]) == w);
    }
}

/// The running best is a qualifying length of a seen segment and at least
/// every seen qualifying length.
pub proof fn lemma_best_upto(s: Seq<HorzLine>, i: int)
    requires
        0 <= i <= s.len(),
    ensures
        match best_width_upto(s, i) {
            None => forall|j: int|
                0 <= j < i ==> count_len(s, hline_len(#[trigger] s[j])) % 5 != 0,
            Some(w) => (exists|j: int| 0 <= j < i && hline_len(#[trigger] s[j]) == w) && count_len(
                s,
                w,
            ) % 5 == 0 && forall|j: int|
                0 <= j < i && count_len(s, hline_len(#[trigger] s[j])) % 5 == 0 ==> hline_len(s[j])
                    <= w,
        },
    decreases i,
{
    if i == 0 {
    } else {
        lemma_best_upto(s, i - 1);
        let wi = hline_len(s[i - 1]);
        match best_width_upto(s, i) {
            None => {},
            Some(w) => {
                if count_len(s, wi) % 5 == 0 {
                    match best_width_upto(s, i - 1) {
                        None => {
                            assert(hline_len(s[i - 1]) == w);
                        },
                        Some(b) => {
                            if w == wi {
                                assert(hline_len(s[i - 1]) == w);
                            } else {
                                let j0 = choose|j0: int|
                                    0 <= j0 < i - 1 && hline_len(#[trigger] s[j0]) == b;
                                assert(hline_len(s[j0]) == w);
                            }
                        },
                    }
                } else {
                    let j0 = choose|j0: int| 0 <= j0 < i - 1 && hline_len(#[trigger] s[j0]) == w;
                    assert(hline_len(s[j0]) == w);
                }
            },
        }
    }
}

/// The detected staff-line width is the largest qualifying length: it has
/// a positive occurrence count divisible by five, and no qualifying length
/// exceeds it; when none is detected, no length qualifies.
pub proof fn lemma_detect_width_max(s: Seq<HorzLine>)
    ensures
        match spec_detect_width(s) {
            None => forall|w: int| !qualifying(s, w),
            Some(w) => qualifying(s, w) && forall|w2: int| qualifying(s, w2) ==> w2 <= w,
        },
{
    lemma_best_upto(s, s.len() as int);
    match spec_detect_width(s) {
        None => {
            assert forall|w: int| !qualifying(s, w) by {
                if qualifying(s, w) {
                    lemma_count_pos(s, w);
                    let j = choose|j: int| 0 <= j < s.len() && hline_len(#[trigger] s[j]) == w;
                    assert(count_len(s, hline_len(s[j])) % 5 != 0);
                }
            }
        },
        Some(w) => {
            let j = choose|j: int| 0 <= j < s.len() && hline_len(#[trigger] s[j]) == w;
            lemma_count_occurrence(s, j);
            assert(qualifying(s, w));
            assert forall|w2: int| qualifying(s, w2) implies w2 <= w by {
                lemma_count_pos(s, w2);
                let k = choose|k: int| 0 <= k < s.len() && hline_len(#[trigger] s[k]) == w2;
                assert(count_len(s, hline_len(s[k])) % 5 == 0);
            }
        },
    }
}


/// A successful detection makes exactly one stanza of every ten staff-line
/// ys: twenty candidate ys yield exactly two stanzas, and a count not
/// divisible by ten cannot succeed.
pub proof fn lemma_stanza_count(ys: Seq<Fixed>, x: Fixed, w: Fixed, k: int)
    requires
        0 <= k <= ys.len(),
        spec_stanzas_of(ys, x, w, k) is Ok,
    ensures
        10 * spec_stanzas_of(ys, x, w, k)->Ok_0.len() == ys.len() - k,
    decreases ys.len() - k,
{
    if k >= ys.len() {
    } else {
        lemma_stanza_count(ys, x, w, k + 10);
    }
}


/// The symbol pass of one stanza moves no bar.
pub proof fn lemma_put_objects_pos(st: StanzaV, objs: Seq<Object>)
    ensures
        crate::stanza::bars_pos_eq(spec_put_objects(st, objs).0, st),
    decreases objs.len(),
{
    if objs.len() == 0 {
    } else {
        crate::stanza::lemma_put_object_pos(st, objs[0]);
        let st1 = spec_put_object(st, objs[0]).1;
        lemma_put_objects_pos(st1, objs.drop_first());
        crate::stanza::lemma_pos_eq_trans(spec_put_objects(st, objs).0, st1, st);
    }
}

/// The stem pass of one stanza moves no bar.
pub proof fn lemma_put_stems_pos(st: StanzaV, lines: Seq<VertLine>)
    ensures
        match spec_put_stems(st, lines) {
            Ok((st2, _)) => crate::stanza::bars_pos_eq(st2, st),
            Err(_) => true,
        },
    decreases lines.len(),
{
    if lines.len() == 0 {
    } else {
        crate::stanza::lemma_put_stem_pos(st, lines[0]);
        match spec_put_stem(st, lines[0]) {
            Err(_) => {},
            Ok((_, st1)) => {
                lemma_put_stems_pos(st1, lines.drop_first());
                match spec_put_stems(st1, lines.drop_first()) {
                    Err(_) => {},
                    Ok((st2, _)) => {
                        crate::stanza::lemma_pos_eq_trans(st2, st1, st);
                    },
                }
            },
        }
    }
}

/// The claim phase moves no bar of any stanza.
pub proof fn lemma_claim_phase_pos(sts: Seq<StanzaV>, objs: Seq<Object>, lines: Seq<VertLine>)
    ensures
        match spec_claim_phase(sts, objs, lines) {
            Ok((r, _, _)) => r.len() == sts.len() && forall|i: int|
                0 <= i < r.len() ==> crate::stanza::bars_pos_eq(#[trigger] r[i], sts[i]),
            Err(_) => true,
        },
    decreases sts.len(),
{
    if sts.len() == 0 {
    } else {
        let (st1, objs1) = spec_put_objects(sts.last(), objs);
        lemma_put_objects_pos(sts.last(), objs);
        match spec_put_stems(st1, lines) {
            Err(_) => {},
            Ok((st2, lines1)) => {
                lemma_put_stems_pos(st1, lines);
                crate::stanza::lemma_pos_eq_trans(st2, st1, sts.last());
                lemma_claim_phase_pos(sts.drop_last(), objs1, lines1);
                match spec_claim_phase(sts.drop_last(), objs1, lines1) {
                    Err(_) => {},
                    Ok((rest, _, _)) => {
                        let r = rest.push(st2);
                        assert forall|i: int|
                            0 <= i < r.len() implies crate::stanza::bars_pos_eq(
                            #[trigger] r[i],
                            sts[i],
                        ) by {
                            if i < rest.len() {
                                assert(crate::stanza::bars_pos_eq(rest[i], sts.drop_last()[i]));
                                assert(sts.drop_last()[i] == sts[i]);
                            } else {
                                assert(r[i] == st2);
                                assert(sts[i] == sts.last());
                            }
                        }
                    },
                }
            },
        }
    }
}

/// Every stanza of a successful detection starts with no bars.
pub proof fn lemma_detected_bars_empty(ys: Seq<Fixed>, x: Fixed, w: Fixed, k: int)
    requires
        spec_stanzas_of(ys, x, w, k) is Ok,
    ensures
        forall|m: int|
            0 <= m < spec_stanzas_of(ys, x, w, k)->Ok_0.len() ==> (#[trigger] spec_stanzas_of(
                ys,
                x,
                w,
                k,
            )->Ok_0[m]).bars == Seq::<crate::bar::BarV>::empty(),
    decreases ys.len() - k,
{
    let r = spec_stanzas_of(ys, x, w, k)->Ok_0;
    if k >= ys.len() {
    } else {
        lemma_detected_bars_empty(ys, x, w, k + 10);
        let rest = spec_stanzas_of(ys, x, w, k + 10)->Ok_0;
        assert forall|m: int| 0 <= m < r.len() implies (#[trigger] r[m]).bars == Seq::<
            crate::bar::BarV,
        >::empty() by {
            if m > 0 {
                assert(r[m] == rest[m - 1]);
                assert(rest[m - 1].bars == Seq::<crate::bar::BarV>::empty());
            }
        }
    }
}

/// After the bar phase, every stanza's bars lie strictly within its
/// horizontal span and ascend strictly in x.
pub proof fn lemma_bars_phase_ordered(sts: Seq<StanzaV>, lines: Seq<VertLine>)
    requires
        forall|i: int|
            0 <= i < sts.len() ==> crate::stanza::bars_span_ok(
                (#[trigger] sts[i]).bars,
                sts[i].x.raw as int,
                sts[i].width.raw as int,
            ) && crate::stanza::bars_distinct(sts[i].bars),
    ensures
        spec_bars_phase(sts, lines).0.len() == sts.len(),
        forall|i: int|
            0 <= i < sts.len() ==> crate::stanza::bars_in_span(
                #[trigger] spec_bars_phase(sts, lines).0[i],
            ) && crate::stanza::bars_strictly_sorted(spec_bars_phase(sts, lines).0[i].bars),
    decreases sts.len(),
{
    if sts.len() == 0 {
    } else {
        assert(crate::stanza::bars_span_ok(
            sts[0].bars,
            sts[0].x.raw as int,
            sts[0].width.raw as int,
        ) && crate::stanza::bars_distinct(sts[0].bars));
        crate::stanza::lemma_stanza_bars_ordered(sts[0], lines);
        let (st2, lines1) = spec_stanza_bars(sts[0], lines);
        assert(forall|i: int|
            0 <= i < sts.drop_first().len() ==> crate::stanza::bars_span_ok(
                (#[trigger] sts.drop_first()[i]).bars,
                sts.drop_first()[i].x.raw as int,
                sts.drop_first()[i].width.raw as int,
            ) && crate::stanza::bars_distinct(sts.drop_first()[i].bars));
        lemma_bars_phase_ordered(sts.drop_first(), lines1);
        let (rest, _) = spec_bars_phase(sts.drop_first(), lines1);
        let r = spec_bars_phase(sts, lines).0;
        assert forall|i: int| 0 <= i < sts.len() implies crate::stanza::bars_in_span(
            #[trigger] r[i],
        ) && crate::stanza::bars_strictly_sorted(r[i].bars) by {
            if i == 0 {
                assert(r[0] == st2);
            } else {
                assert(r[i] == rest[i - 1]);
                assert(crate::stanza::bars_in_span(spec_bars_phase(sts.drop_first(), lines1).0[i
                    - 1]) && crate::stanza::bars_strictly_sorted(
                    spec_bars_phase(sts.drop_first(), lines1).0[i - 1].bars,
                ));
            }
        }
    }
}

/// Through the whole pipeline, every stanza's bars lie strictly within its
/// horizontal span and ascend strictly in x: after the bar phase, after
/// the claim phase, and after its processing.
pub proof fn lemma_pipeline_bars_ordered(o: OutV)
    ensures
        match spec_detect_stanzas(o) {
            Err(_) => true,
            Ok(sts) => {
                let (sts1, lines1) = spec_bars_phase(sts, o.vert_lines);
                &&& forall|i: int|
                    0 <= i < sts1.len() ==> crate::stanza::bars_in_span(#[trigger] sts1[i])
                        && crate::stanza::bars_strictly_sorted(sts1[i].bars)
                &&& (match spec_claim_phase(sts1, o.objects, lines1) {
                    Err(_) => true,
                    Ok((sts2, _, _)) => forall|i: int|
                        0 <= i < sts2.len() ==> crate::stanza::bars_in_span(#[trigger] sts2[i])
                            && crate::stanza::bars_strictly_sorted(sts2[i].bars) && (match
                        spec_process(sts2[i]) {
                            Err(_) => true,
                            Ok((s3, _, _)) => crate::stanza::bars_in_span(s3)
                                && crate::stanza::bars_strictly_sorted(s3.bars),
                        }),
                })
            },
        },
{
    match spec_detect_stanzas(o) {
        Err(_) => {},
        Ok(sts) => {
            match spec_detect_width(o.horz_lines) {
                None => {},
                Some(w) => {
                    match first_cand(o.horz_lines, w) {
                        None => {},
                        Some(x) => {
                            lemma_detected_bars_empty(
                                ys_of(o.horz_lines, w),
                                x,
                                Fixed { raw: w as i64 },
                                0,
                            );
                        },
                    }
                },
            }
            assert forall|i: int| 0 <= i < sts.len() implies crate::stanza::bars_span_ok(
                (#[trigger] sts[i]).bars,
                sts[i].x.raw as int,
                sts[i].width.raw as int,
            ) && crate::stanza::bars_distinct(sts[i].bars) by {
                assert(sts[i].bars == Seq::<crate::bar::BarV>::empty());
            }
            lemma_bars_phase_ordered(sts, o.vert_lines);
            let (sts1, lines1) = spec_bars_phase(sts, o.vert_lines);
            match spec_claim_phase(sts1, o.objects, lines1) {
                Err(_) => {},
                Ok((sts2, _, _)) => {
                    lemma_claim_phase_pos(sts1, o.objects, lines1);
                    assert forall|i: int| 0 <= i < sts2.len() implies crate::stanza::bars_in_span(
                        #[trigger] sts2[i],
                    ) && crate::stanza::bars_strictly_sorted(sts2[i].bars) && (match spec_process(
                        sts2[i],
                    ) {
                        Err(_) => true,
                        Ok((s3, _, _)) => crate::stanza::bars_in_span(s3)
                            && crate::stanza::bars_strictly_sorted(s3.bars),
                    }) by {
                        assert(crate::stanza::bars_pos_eq(sts2[i], sts1[i]));
                        assert(crate::stanza::bars_in_span(sts1[i])
                            && crate::stanza::bars_strictly_sorted(sts1[i].bars));
                        crate::stanza::lemma_pos_eq_ordered(sts2[i], sts1[i]);
                        crate::stanza::lemma_process_pos(sts2[i]);
                        match spec_process(sts2[i]) {
                            Err(_) => {},
                            Ok((s3, _, _)) => {
                                crate::stanza::lemma_pos_eq_ordered(s3, sts2[i]);
                            },
                        }
                    }
                },
            }
        },
    }
}

} // verus!
