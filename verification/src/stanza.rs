//! A stanza: one detected staff pair, its bars, and the processing that
//! turns its symbols into two voices of timed notes.

use vstd::prelude::*;

use crate::bar::{bar_fresh, bar_wf, empty_bar, obj_ok, Bar, BarV};
use crate::fixed::{bounded, Fixed, RAW_BOUND};
use crate::geom::{Object, VertLine};
use crate::stems::stem_bounded;

verus! {

/// A stanza: anchor x, top y of the topmost staff line, the staff-line
/// width, the span from top to bottom line, the staff-line spacing, its
/// bars, and the head size learned from the first attachment.
#[derive(Debug)]
pub struct Stanza {
    pub x: Fixed,
    pub y: Fixed,
    pub width: Fixed,
    pub height: Fixed,
    pub scale: Fixed,
    pub bars: Vec<Bar>,
    pub head_size: Option<Fixed>,
}

/// A stanza as mathematics.
pub ghost struct StanzaV {
    pub x: Fixed,
    pub y: Fixed,
    pub width: Fixed,
    pub height: Fixed,
    pub scale: Fixed,
    pub bars: Seq<BarV>,
    pub head_size: Option<Fixed>,
}

/// The bars of an executable bar list, as mathematics.
pub open spec fn bars_view(s: Seq<Bar>) -> Seq<BarV> {
    s.map_values(|b: Bar| b@)
}

impl View for Stanza {
    type V = StanzaV;

    open spec fn view(&self) -> StanzaV {
        StanzaV {
            x: self.x,
            y: self.y,
            width: self.width,
            height: self.height,
            scale: self.scale,
            bars: bars_view(self.bars@),
            head_size: self.head_size,
        }
    }
}

/// The well-formed stanzas: all dimensions within the working range, a
/// positive staff-line spacing, a learned head size (if any) within three
/// times the range, and well-formed bars.
pub open spec fn stanza_wf(s: StanzaV) -> bool {
    &&& bounded(s.x)
    &&& bounded(s.y)
    &&& bounded(s.width)
    &&& bounded(s.height)
    &&& bounded(s.scale)
    &&& s.scale.raw > 0
    &&& match s.head_size {
        None => true,
        Some(h) => -3 * (RAW_BOUND as int) <= h.raw <= 3 * (RAW_BOUND as int),
    }
    &&& forall|i: int| 0 <= i < s.bars.len() ==> #[trigger] bar_wf(s.bars[i])
}

/// Every bar still waiting to be processed: no store has picked a current
/// stem.
pub open spec fn stanza_fresh(s: StanzaV) -> bool {
    forall|i: int| 0 <= i < s.bars.len() ==> #[trigger] bar_fresh(s.bars[i])
}

/// Every bar lies within the stanza's horizontal span.
pub open spec fn bars_in_span(s: StanzaV) -> bool {
    forall|i: int|
        0 <= i < s.bars.len() ==> s.x.raw <= (#[trigger] s.bars[i]).x.raw < s.x.raw + s.width.raw
}

/// No two bars share an x.
pub open spec fn bars_distinct(s: Seq<BarV>) -> bool {
    forall|i: int, j: int| 0 <= i < j < s.len() ==> s[i].x.raw != s[j].x.raw
}

/// Bars in strictly ascending x order.
pub open spec fn bars_strictly_sorted(s: Seq<BarV>) -> bool {
    forall|i: int, j: int| 0 <= i < j < s.len() ==> s[i].x.raw < s[j].x.raw
}

pub open spec fn imax(a: int, b: int) -> int {
    if a >= b {
        a
    } else {
        b
    }
}

pub open spec fn imin(a: int, b: int) -> int {
    if a >= b {
        b
    } else {
        a
    }
}

/// Whether the stem's vertical extent, merged with the band from `p1` to
/// `p2`, spans less than the two lengths together: the stem overlaps or
/// lies close to the band.
pub open spec fn spec_band_near(p1: int, p2: int, v: VertLine, scale: int) -> bool {
    let mx = imax(imax(p1, p2), imax(v.y1.raw as int, v.y2.raw as int));
    let mn = imin(imin(p1, p2), imin(v.y1.raw as int, v.y2.raw as int));
    mx - mn < (v.y2.raw - v.y1.raw) + 5 * scale
}

/// The stem lies near the upper five staff lines.
pub open spec fn spec_is_high(s: StanzaV, v: VertLine) -> bool {
    spec_band_near(s.y.raw as int, s.y.raw + 5 * s.scale.raw, v, s.scale.raw as int)
}

/// The stem lies near the lower five staff lines.
pub open spec fn spec_is_low(s: StanzaV, v: VertLine) -> bool {
    spec_band_near(
        s.y.raw + s.height.raw,
        s.y.raw + s.height.raw - 5 * s.scale.raw,
        v,
        s.scale.raw as int,
    )
}

/// The stem lies near the band between the two staves.
pub open spec fn spec_is_mid(s: StanzaV, v: VertLine) -> bool {
    spec_band_near(
        s.y.raw + 5 * s.scale.raw,
        s.y.raw + s.height.raw - 5 * s.scale.raw,
        v,
        s.scale.raw as int,
    )
}

/// What a barline candidate does to the stanza: a vertical line spanning
/// exactly from the top staff line to the bottom one is consumed; it
/// registers a bar when its x lies in the stanza's span and no bar is
/// already at that x. A full-span line outside the span, or at an already
/// registered x, is still consumed but registers nothing: it is a barline
/// by shape, so it must not fall through to stem classification, where a
/// full-span line would sit near both voice bands and be fatal.
pub open spec fn spec_insert_bar(s: StanzaV, l: VertLine) -> (bool, StanzaV) {
    if l.y1.raw == s.y.raw && l.y2.raw == s.y.raw + s.height.raw {
        let in_range = s.x.raw <= l.x.raw < s.x.raw + s.width.raw;
        let dup = exists|i: int| 0 <= i < s.bars.len() && (#[trigger] s.bars[i]).x.raw == l.x.raw;
        if in_range && !dup {
            (true, StanzaV { bars: s.bars.push(empty_bar(l.x)), ..s })
        } else {
            (true, s)
        }
    } else {
        (false, s)
    }
}

/// Ascending-by-x comparison of bars, ties keeping the first operand first.
pub open spec fn bar_le(a: BarV, b: BarV) -> bool {
    a.x.raw <= b.x.raw
}

/// Stable insertion of a bar into an x-ascending sequence.
pub open spec fn insert_bar_asc(s: Seq<BarV>, b: BarV) -> Seq<BarV>
    decreases s.len(),
{
    if s.len() == 0 {
        seq![b]
    } else if bar_le(s.last(), b) {
        s.push(b)
    } else {
        insert_bar_asc(s.drop_last(), b).push(s.last())
    }
}

/// Stable insertion sort of bars by ascending x.
pub open spec fn sort_bars_asc(s: Seq<BarV>) -> Seq<BarV>
    decreases s.len(),
{
    if s.len() == 0 {
        Seq::empty()
    } else {
        insert_bar_asc(sort_bars_asc(s.drop_last()), s.last())
    }
}

/// What sorting the bars and dropping the trailing (closing) bar leaves.
pub open spec fn spec_sort_bars(s: Seq<BarV>) -> Seq<BarV> {
    let sorted = sort_bars_asc(s);
    if sorted.len() == 0 {
        sorted
    } else {
        sorted.drop_last()
    }
}

/// Ordering of symbols within a bar: ascending x, ties broken by
/// descending y.
pub open spec fn obj_le(a: Object, b: Object) -> bool {
    a.point.x.raw < b.point.x.raw || (a.point.x.raw == b.point.x.raw && a.point.y.raw
        >= b.point.y.raw)
}

/// Stable insertion of a symbol into an ordered sequence.
pub open spec fn insert_obj(s: Seq<Object>, o: Object) -> Seq<Object>
    decreases s.len(),
{
    if s.len() == 0 {
        seq![o]
    } else if obj_le(s.last(), o) {
        s.push(o)
    } else {
        insert_obj(s.drop_last(), o).push(s.last())
    }
}

/// Stable insertion sort of symbols by x, then descending y.
pub open spec fn sort_objs(s: Seq<Object>) -> Seq<Object>
    decreases s.len(),
{
    if s.len() == 0 {
        Seq::empty()
    } else {
        insert_obj(sort_objs(s.drop_last()), s.last())
    }
}

/// The last bar, scanning from the right, whose x is strictly left of `x`.
pub open spec fn last_lt(bars: Seq<BarV>, x: int) -> Option<int>
    decreases bars.len(),
{
    if bars.len() == 0 {
        None
    } else if bars.last().x.raw < x {
        Some(bars.len() - 1)
    } else {
        last_lt(bars.drop_last(), x)
    }
}

/// What claiming a symbol does: a symbol below the stanza's top line is
/// claimed, and appended to the store of the last bar left of it.
pub open spec fn spec_put_object(s: StanzaV, o: Object) -> (bool, StanzaV) {
    if s.y.raw < o.point.y.raw {
        match last_lt(s.bars, o.point.x.raw as int) {
            None => (true, s),
            Some(k) => (
                true,
                StanzaV {
                    bars: s.bars.update(k, BarV { store: s.bars[k].store.push(o), ..s.bars[k] }),
                    ..s
                },
            ),
        }
    } else {
        (false, s)
    }
}

/// What classifying a stem candidate does: a line near exactly one of the
/// high and low bands (both at once is a recognition failure), or near the
/// middle, is pushed into the matching sub-store of the last bar left of
/// it; a line near none of the bands, or with no bar to its left, is left
/// alone.
pub open spec fn spec_put_stem(s: StanzaV, v: VertLine) -> Result<(bool, StanzaV), crate::recognizer::Error> {
    let high = spec_is_high(s, v);
    let low = spec_is_low(s, v);
    let mid = spec_is_mid(s, v);
    if high && low {
        Err(crate::recognizer::Error::RecognitionFailure)
    } else if !high && !low && !mid {
        Ok((false, s))
    } else {
        match last_lt(s.bars, v.x.raw as int) {
            None => Ok((false, s)),
            Some(k) => {
                let b = s.bars[k];
                let stems2 = if high {
                    crate::stems::StemsV {
                        high: crate::stems::StoreV {
                            stems: b.stems.high.stems.push(v),
                            ..b.stems.high
                        },
                        ..b.stems
                    }
                } else if low {
                    crate::stems::StemsV {
                        low: crate::stems::StoreV { stems: b.stems.low.stems.push(v), ..b.stems.low },
                        ..b.stems
                    }
                } else {
                    crate::stems::StemsV {
                        mid: crate::stems::StoreV { stems: b.stems.mid.stems.push(v), ..b.stems.mid },
                        ..b.stems
                    }
                };
                Ok((true, StanzaV { bars: s.bars.update(k, BarV { stems: stems2, ..b }), ..s }))
            },
        }
    }
}

impl Stanza {
    /// A stanza with no bars and no learned head size.
    pub fn new(x: Fixed, y: Fixed, width: Fixed, height: Fixed, scale: Fixed) -> (r: Stanza)
        ensures
            r@ == (StanzaV {
                x,
                y,
                width,
                height,
                scale,
                bars: Seq::<BarV>::empty(),
                head_size: None,
            }),
    {
        let r = Stanza { x, y, width, height, scale, bars: Vec::new(), head_size: None };
        proof {
            assert(r@.bars =~= Seq::<BarV>::empty());
        }
        r
    }

    /// Registers a barline candidate (see [`spec_insert_bar`]); returns
    /// whether the line was consumed as a barline.
    pub fn insert_bar(&mut self, line: &VertLine) -> (r: bool)
        requires
            bounded(old(self)@.x),
            bounded(old(self)@.y),
            bounded(old(self)@.width),
            bounded(old(self)@.height),
            stem_bounded(*line),
        ensures
            (r, final (self)@) == spec_insert_bar(old(self)@, *line),
    {
        if line.y1.raw == self.y.raw && line.y2.raw == self.y.raw + self.height.raw {
            if self.x.raw <= line.x.raw && line.x.raw < self.x.raw + self.width.raw {
                let mut dup = false;
                let mut i: usize = 0;
                while i < self.bars.len()
                    invariant
                        i <= self.bars@.len(),
                        self == old(self),
                        dup == exists|j: int|
                            0 <= j < i && (#[trigger] bars_view(self.bars@)[j]).x.raw
                                == line.x.raw,
                    decreases self.bars@.len() - i,
                {
                    if self.bars[i].x.raw == line.x.raw {
                        proof {
                            assert(bars_view(self.bars@)[i as int].x.raw == line.x.raw);
                        }
                        dup = true;
                    }
                    i += 1;
                }
                if !dup {
                    self.bars.push(Bar::new(line.x));
                    proof {
                        assert(bars_view(self.bars@) =~= bars_view(old(self).bars@).push(
                            empty_bar(line.x),
                        ));
                    }
                }
            }
            true
        } else {
            false
        }
    }

    /// Sorts the bars by ascending x and drops the trailing closing bar.
    pub fn sort_bars(&mut self)
        ensures
            final (self)@ == (StanzaV { bars: spec_sort_bars(old(self)@.bars), ..old(self)@ }),
    {
        sort_bars_exec(&mut self.bars);
        let _ = self.bars.pop();
        proof {
            let sorted = sort_bars_asc(bars_view(old(self).bars@));
            if sorted.len() > 0 {
                assert(bars_view(self.bars@) =~= sorted.drop_last());
            } else {
                assert(bars_view(self.bars@) =~= spec_sort_bars(bars_view(old(self).bars@)));
            }
        }
    }

    /// Claims a symbol below the stanza's top line (see
    /// [`spec_put_object`]); returns whether the symbol was claimed.
    pub fn put_object(&mut self, obj: &Object) -> (r: bool)
        ensures
            (r, final (self)@) == spec_put_object(old(self)@, *obj),
    {
        if self.y.raw < obj.point.y.raw {
            let x = obj.point.x;
            let mut k: usize = self.bars.len();
            proof {
                assert(bars_view(self.bars@).take(k as int) =~= bars_view(self.bars@));
            }
            while k > 0
                invariant
                    k <= self.bars@.len(),
                    self == old(self),
                    self.y.raw < obj.point.y.raw,
                    x == obj.point.x,
                    last_lt(bars_view(self.bars@), x.raw as int) == last_lt(
                        bars_view(self.bars@).take(k as int),
                        x.raw as int,
                    ),
                decreases k,
            {
                let bx = self.bars[k - 1].x;
                proof {
                    let bv = bars_view(self.bars@);
                    assert(bv.take(k as int).last() == bv[k as int - 1]);
                    assert(bv.take(k as int).drop_last() =~= bv.take(k as int - 1));
                    assert(bv[k as int - 1].x == bx);
                }
                if bx.raw < x.raw {
                    let ghost pre = bars_view(self.bars@);
                    let bar = &mut self.bars[k - 1];
                    bar.store.push(*obj);
                    proof {
                        assert(bars_view(self.bars@) =~= pre.update(
                            k as int - 1,
                            BarV { store: pre[k as int - 1].store.push(*obj), ..pre[k as int - 1] },
                        ));
                    }
                    return true;
                }
                k -= 1;
            }
            proof {
                assert(bars_view(self.bars@).take(0) =~= Seq::<BarV>::empty());
            }
            true
        } else {
            false
        }
    }

    /// Whether the stem lies near the upper five staff lines.
    pub fn is_high(&self, stem: &VertLine) -> (r: bool)
        requires
            bounded(self@.y),
            bounded(self@.scale),
            self@.scale.raw > 0,
            stem_bounded(*stem),
        ensures
            r == spec_is_high(self@, *stem),
    {
        band_near(self.y.raw, self.y.raw + 5 * self.scale.raw, stem, self.scale.raw)
    }

    /// Whether the stem lies near the lower five staff lines.
    pub fn is_low(&self, stem: &VertLine) -> (r: bool)
        requires
            bounded(self@.y),
            bounded(self@.height),
            bounded(self@.scale),
            self@.scale.raw > 0,
            stem_bounded(*stem),
        ensures
            r == spec_is_low(self@, *stem),
    {
        band_near(
            self.y.raw + self.height.raw,
            self.y.raw + self.height.raw - 5 * self.scale.raw,
            stem,
            self.scale.raw,
        )
    }

    /// Whether the stem lies near the band between the two staves.
    pub fn is_mid(&self, stem: &VertLine) -> (r: bool)
        requires
            bounded(self@.y),
            bounded(self@.height),
            bounded(self@.scale),
            self@.scale.raw > 0,
            stem_bounded(*stem),
        ensures
            r == spec_is_mid(self@, *stem),
    {
        band_near(
            self.y.raw + 5 * self.scale.raw,
            self.y.raw + self.height.raw - 5 * self.scale.raw,
            stem,
            self.scale.raw,
        )
    }

    /// Classifies a stem candidate and pushes it into the matching
    /// sub-store of the last bar left of it (see [`spec_put_stem`]);
    /// returns whether the line was consumed.
    pub fn put_stem(&mut self, stem: &VertLine) -> (r: Result<bool, crate::recognizer::Error>)
        requires
            bounded(old(self)@.y),
            bounded(old(self)@.height),
            bounded(old(self)@.scale),
            old(self)@.scale.raw > 0,
            stem_bounded(*stem),
        ensures
            match spec_put_stem(old(self)@, *stem) {
                Ok((c, s2)) => r == Ok::<bool, crate::recognizer::Error>(c) && final (self)@ == s2,
                Err(e) => r == Err::<bool, crate::recognizer::Error>(e) && final (self)@ == old(
                    self,
                )@,
            },
    {
        let high = self.is_high(stem);
        let low = self.is_low(stem);
        let mid = self.is_mid(stem);
        proof {
            assert(high == spec_is_high(old(self)@, *stem));
            assert(low == spec_is_low(old(self)@, *stem));
            assert(mid == spec_is_mid(old(self)@, *stem));
        }
        if high && low {
            return Err(crate::recognizer::Error::RecognitionFailure);
        }
        if !high && !low && !mid {
            return Ok(false);
        }
        let x = stem.x;
        let mut k: usize = self.bars.len();
        proof {
            assert(bars_view(self.bars@).take(k as int) =~= bars_view(self.bars@));
        }
        while k > 0
            invariant
                k <= self.bars@.len(),
                self == old(self),
                x == stem.x,
                high == spec_is_high(old(self)@, *stem),
                low == spec_is_low(old(self)@, *stem),
                mid == spec_is_mid(old(self)@, *stem),
                !(high && low),
                high || low || mid,
                last_lt(bars_view(self.bars@), x.raw as int) == last_lt(
                    bars_view(self.bars@).take(k as int),
                    x.raw as int,
                ),
            decreases k,
        {
            let bx = self.bars[k - 1].x;
            proof {
                let bv = bars_view(self.bars@);
                assert(bv.take(k as int).last() == bv[k as int - 1]);
                assert(bv.take(k as int).drop_last() =~= bv.take(k as int - 1));
                assert(bv[k as int - 1].x == bx);
            }
            if bx.raw < x.raw {
                let ghost pre = bars_view(self.bars@);
                let bar = &mut self.bars[k - 1];
                if high {
                    bar.stems.push_high(stem);
                } else if low {
                    bar.stems.push_low(stem);
                } else {
                    bar.stems.push_mid(stem);
                }
                proof {
                    assert(last_lt(bars_view(old(self).bars@), x.raw as int) == Some(
                        k as int - 1,
                    ));
                    let b = pre[k as int - 1];
                    let stems2 = if high {
                        crate::stems::StemsV {
                            high: crate::stems::StoreV {
                                stems: b.stems.high.stems.push(*stem),
                                ..b.stems.high
                            },
                            ..b.stems
                        }
                    } else if low {
                        crate::stems::StemsV {
                            low: crate::stems::StoreV {
                                stems: b.stems.low.stems.push(*stem),
                                ..b.stems.low
                            },
                            ..b.stems
                        }
                    } else {
                        crate::stems::StemsV {
                            mid: crate::stems::StoreV {
                                stems: b.stems.mid.stems.push(*stem),
                                ..b.stems.mid
                            },
                            ..b.stems
                        }
                    };
                    assert(bars_view(self.bars@) =~= pre.update(
                        k as int - 1,
                        BarV { stems: stems2, ..b },
                    ));
                }
                return Ok(true);
            }
            k -= 1;
        }
        proof {
            assert(bars_view(self.bars@).take(0) =~= Seq::<BarV>::empty());
        }
        Ok(false)
    }
}

/// Executable band-nearness test (see [`spec_band_near`]).
fn band_near(p1: i64, p2: i64, v: &VertLine, scale: i64) -> (r: bool)
    requires
        -8 * (RAW_BOUND as int) <= p1 <= 8 * (RAW_BOUND as int),
        -8 * (RAW_BOUND as int) <= p2 <= 8 * (RAW_BOUND as int),
        0 < scale <= RAW_BOUND,
        stem_bounded(*v),
    ensures
        r == spec_band_near(p1 as int, p2 as int, *v, scale as int),
{
    let m1 = if p1 >= p2 {
        p1
    } else {
        p2
    };
    let m2 = if v.y1.raw >= v.y2.raw {
        v.y1.raw
    } else {
        v.y2.raw
    };
    let mx = if m1 >= m2 {
        m1
    } else {
        m2
    };
    let n1 = if p1 >= p2 {
        p2
    } else {
        p1
    };
    let n2 = if v.y1.raw >= v.y2.raw {
        v.y2.raw
    } else {
        v.y1.raw
    };
    let mn = if n1 >= n2 {
        n2
    } else {
        n1
    };
    mx - mn < (v.y2.raw - v.y1.raw) + 5 * scale
}

fn insert_bar_sorted(v: &mut Vec<Bar>, item: Bar)
    ensures
        bars_view(final (v)@) == insert_bar_asc(bars_view(old(v)@), item@),
    decreases old(v)@.len(),
{
    if v.len() == 0 {
        v.push(item);
        proof {
            assert(bars_view(v@) =~= seq![item@]);
        }
        return ;
    }
    let lastx = v[v.len() - 1].x;
    proof {
        assert(bars_view(v@).last() == bars_view(v@)[v@.len() - 1]);
    }
    if lastx.raw <= item.x.raw {
        proof {
            let ghost pre = bars_view(v@);
            assert(bar_le(pre.last(), item@));
        }
        let ghost pre = bars_view(v@);
        v.push(item);
        proof {
            assert(bars_view(v@) =~= pre.push(item@));
        }
    } else {
        let ghost pre = bars_view(v@);
        let popped = match v.pop() {
            Some(p) => p,
            None => {
                proof {
                    assert(false);
                }
                Bar::new(item.x)
            },
        };
        proof {
            assert(bars_view(v@) =~= pre.drop_last());
            assert(popped@ == pre.last());
        }
        insert_bar_sorted(v, item);
        let ghost mid = bars_view(v@);
        v.push(popped);
        proof {
            assert(bars_view(v@) =~= mid.push(popped@));
        }
    }
}

fn sort_bars_exec(v: &mut Vec<Bar>)
    ensures
        bars_view(final (v)@) == sort_bars_asc(bars_view(old(v)@)),
    decreases old(v)@.len(),
{
    let ghost pre = bars_view(v@);
    match v.pop() {
        None => {
            proof {
                assert(bars_view(v@) =~= Seq::<BarV>::empty());
            }
        },
        Some(last) => {
            proof {
                assert(bars_view(v@) =~= pre.drop_last());
                assert(last@ == pre.last());
            }
            sort_bars_exec(v);
            insert_bar_sorted(v, last);
        },
    }
}

/// Stable insertion of a symbol, executable.
fn insert_obj_sorted(v: &mut Vec<Object>, item: Object)
    ensures
        final (v)@ == insert_obj(old(v)@, item),
    decreases old(v)@.len(),
{
    if v.len() == 0 {
        v.push(item);
        return ;
    }
    let last = v[v.len() - 1];
    if last.point.x.raw < item.point.x.raw || (last.point.x.raw == item.point.x.raw
        && last.point.y.raw >= item.point.y.raw) {
        v.push(item);
    } else {
        let popped = match v.pop() {
            Some(p) => p,
            None => {
                proof {
                    assert(false);
                }
                item
            },
        };
        insert_obj_sorted(v, item);
        v.push(popped);
    }
}

/// Stable insertion sort of the symbols of a bar, executable.
pub fn sort_objs_exec(v: &mut Vec<Object>)
    ensures
        final (v)@ == sort_objs(old(v)@),
    decreases old(v)@.len(),
{
    match v.pop() {
        None => {},
        Some(last) => {
            sort_objs_exec(v);
            insert_obj_sorted(v, last);
        },
    }
}


/// Stable insertion keeps every symbol well formed.
pub proof fn lemma_insert_obj_ok(s: Seq<Object>, o: Object)
    requires
        forall|i: int| 0 <= i < s.len() ==> #[trigger] obj_ok(s[i]),
        obj_ok(o),
    ensures
        forall|i: int| 0 <= i < insert_obj(s, o).len() ==> #[trigger] obj_ok(insert_obj(s, o)[i]),
    decreases s.len(),
{
    if s.len() == 0 {
    } else if obj_le(s.last(), o) {
        assert(obj_ok(s[s.len() - 1]));
        assert forall|i: int| 0 <= i < s.push(o).len() implies #[trigger] obj_ok(s.push(o)[i]) by {
            if i < s.len() {
                assert(obj_ok(s[i]));
            }
        }
    } else {
        assert(forall|i: int| 0 <= i < s.drop_last().len() ==> #[trigger] obj_ok(s.drop_last()[i]));
        lemma_insert_obj_ok(s.drop_last(), o);
        assert(obj_ok(s[s.len() - 1]));
        let t = insert_obj(s.drop_last(), o);
        assert forall|i: int| 0 <= i < t.push(s.last()).len() implies #[trigger] obj_ok(
            t.push(s.last())[i],
        ) by {
            if i < t.len() {
                assert(obj_ok(t[i]));
            }
        }
    }
}

/// Sorting keeps every symbol well formed.
pub proof fn lemma_sort_objs_ok(s: Seq<Object>)
    requires
        forall|i: int| 0 <= i < s.len() ==> #[trigger] obj_ok(s[i]),
    ensures
        forall|i: int| 0 <= i < sort_objs(s).len() ==> #[trigger] obj_ok(sort_objs(s)[i]),
    decreases s.len(),
{
    if s.len() == 0 {
    } else {
        assert(forall|i: int| 0 <= i < s.drop_last().len() ==> #[trigger] obj_ok(s.drop_last()[i]));
        lemma_sort_objs_ok(s.drop_last());
        assert(obj_ok(s[s.len() - 1]));
        lemma_insert_obj_ok(sort_objs(s.drop_last()), s.last());
    }
}

/// The geometry a bar's processing needs from its stanza, as raw integers.
pub ghost struct GeoV {
    pub y: int,
    pub height: int,
    pub scale: int,
}

/// The raw geometry of a stanza.
pub open spec fn geo_of(s: StanzaV) -> GeoV {
    GeoV { y: s.y.raw as int, height: s.height.raw as int, scale: s.scale.raw as int }
}

/// The running state while one bar's symbols are processed: the learned
/// head size, the bar's stem stores, and the two voice collectors.
pub ghost struct ProcSt {
    pub head_size: Option<Fixed>,
    pub stems: crate::stems::StemsV,
    pub c0: crate::collector::CollectorV,
    pub c1: crate::collector::CollectorV,
}

/// What one symbol does to the processing state. A symbol below the line
/// five spacings above the staff bottom belongs to channel 0 (the lower
/// voice), the rest to channel 1. Quarter and half noteheads learn the
/// head size on first sight, must attach to a stem, and record a quarter
/// or half position; whole noteheads record a whole position; an eighth
/// flag flushes the channel's pending quarters; a rest flushes and records
/// a rest; everything else is ignored.
pub open spec fn spec_proc_obj(g: GeoV, st: ProcSt, o: Object) -> Result<
    ProcSt,
    crate::recognizer::Error,
> {
    let ch0 = o.point.y.raw >= g.y + g.height - 5 * g.scale;
    let border = if ch0 {
        g.y + g.height - 6 * g.scale
    } else {
        g.y + 5 * g.scale
    };
    let num = Fixed { raw: (border - o.point.y.raw) as i64 };
    let den = Fixed { raw: g.scale as i64 };
    match o.t {
        crate::geom::Type::Head(sz) => if sz == 2 || sz == 4 {
            let st1 = if st.head_size is None {
                match crate::stems::spec_head_gap(st.stems, o) {
                    None => st,
                    Some(gap) => if gap.raw > g.scale {
                        ProcSt {
                            head_size: Some(
                                Fixed { raw: crate::stems::spec_head_size(gap.raw as int) as i64 },
                            ),
                            ..st
                        }
                    } else {
                        st
                    },
                }
            } else {
                st
            };
            let flex = Fixed { raw: crate::fixed::tdiv(g.scale, 2) as i64 };
            let att = crate::stems::spec_attach_stems(st1.stems, o, flex, st1.head_size);
            if !att.0 {
                Err(crate::recognizer::Error::RecognitionFailure)
            } else {
                let st2 = ProcSt { stems: att.1, ..st1 };
                if sz == 4 {
                    if ch0 {
                        Ok(
                            ProcSt {
                                c0: crate::collector::spec_put_quarter(st2.c0, o.point.x, num, den),
                                ..st2
                            },
                        )
                    } else {
                        Ok(
                            ProcSt {
                                c1: crate::collector::spec_put_quarter(st2.c1, o.point.x, num, den),
                                ..st2
                            },
                        )
                    }
                } else {
                    if ch0 {
                        Ok(
                            ProcSt {
                                c0: crate::collector::spec_put_half(st2.c0, o.point.x, num, den),
                                ..st2
                            },
                        )
                    } else {
                        Ok(
                            ProcSt {
                                c1: crate::collector::spec_put_half(st2.c1, o.point.x, num, den),
                                ..st2
                            },
                        )
                    }
                }
            }
        } else if sz == 1 {
            if ch0 {
                Ok(ProcSt { c0: crate::collector::spec_put_whole(st.c0, o.point.x, num, den), ..st })
            } else {
                Ok(ProcSt { c1: crate::collector::spec_put_whole(st.c1, o.point.x, num, den), ..st })
            }
        } else {
            Ok(st)
        },
        crate::geom::Type::Wing(n) => if n == 8 {
            if ch0 {
                Ok(ProcSt { c0: crate::collector::spec_put_wing(st.c0, o.point.x), ..st })
            } else {
                Ok(ProcSt { c1: crate::collector::spec_put_wing(st.c1, o.point.x), ..st })
            }
        } else {
            Ok(st)
        },
        crate::geom::Type::Rest(l) => if ch0 {
            Ok(ProcSt { c0: crate::collector::spec_put_rest(st.c0, o.point.x, l), ..st })
        } else {
            Ok(ProcSt { c1: crate::collector::spec_put_rest(st.c1, o.point.x, l), ..st })
        },
    }
}

/// Folds [`spec_proc_obj`] over the symbols of a bar.
pub open spec fn spec_proc_objs(g: GeoV, st: ProcSt, objs: Seq<Object>) -> Result<
    ProcSt,
    crate::recognizer::Error,
>
    decreases objs.len(),
{
    if objs.len() == 0 {
        Ok(st)
    } else {
        match spec_proc_obj(g, st, objs[0]) {
            Err(e) => Err(e),
            Ok(st1) => spec_proc_objs(g, st1, objs.drop_first()),
        }
    }
}

/// What processing one bar does: its symbols are sorted by x (ties by
/// descending y), its stem stores by descending x, the collectors are
/// reset, and every symbol is processed in order.
pub open spec fn spec_proc_bar(
    g: GeoV,
    head_size: Option<Fixed>,
    c0: crate::collector::CollectorV,
    c1: crate::collector::CollectorV,
    b: BarV,
) -> Result<
    (Option<Fixed>, crate::collector::CollectorV, crate::collector::CollectorV, BarV),
    crate::recognizer::Error,
> {
    let store1 = sort_objs(b.store);
    let stems1 = crate::stems::StemsV {
        high: crate::stems::StoreV {
            stems: crate::stems::sort_desc(b.stems.high.stems),
            current: None,
        },
        low: crate::stems::StoreV {
            stems: crate::stems::sort_desc(b.stems.low.stems),
            current: None,
        },
        mid: crate::stems::StoreV {
            stems: crate::stems::sort_desc(b.stems.mid.stems),
            current: None,
        },
    };
    let st0 = ProcSt {
        head_size,
        stems: stems1,
        c0: crate::collector::spec_prepare(c0),
        c1: crate::collector::spec_prepare(c1),
    };
    match spec_proc_objs(g, st0, store1) {
        Err(e) => Err(e),
        Ok(st) => Ok((st.head_size, st.c0, st.c1, BarV { store: store1, stems: st.stems, ..b })),
    }
}

/// Folds [`spec_proc_bar`] over the bars of a stanza in ascending order.
pub open spec fn spec_proc_bars(
    g: GeoV,
    head_size: Option<Fixed>,
    c0: crate::collector::CollectorV,
    c1: crate::collector::CollectorV,
    bars: Seq<BarV>,
) -> Result<
    (Option<Fixed>, crate::collector::CollectorV, crate::collector::CollectorV, Seq<BarV>),
    crate::recognizer::Error,
>
    decreases bars.len(),
{
    if bars.len() == 0 {
        Ok((head_size, c0, c1, Seq::empty()))
    } else {
        match spec_proc_bar(g, head_size, c0, c1, bars[0]) {
            Err(e) => Err(e),
            Ok((h1, c0a, c1a, b1)) => match spec_proc_bars(g, h1, c0a, c1a, bars.drop_first()) {
                Err(e) => Err(e),
                Ok((h2, c0b, c1b, rest)) => Ok((h2, c0b, c1b, seq![b1] + rest)),
            },
        }
    }
}

/// What processing the whole stanza does: both voices collected over its
/// bars, the learned head size recorded, each bar left with its sorted
/// symbols and consumed stems.
pub open spec fn spec_process(s: StanzaV) -> Result<
    (StanzaV, crate::collector::CollectorV, crate::collector::CollectorV),
    crate::recognizer::Error,
> {
    match spec_proc_bars(
        geo_of(s),
        s.head_size,
        crate::collector::empty_collector(),
        crate::collector::empty_collector(),
        s.bars,
    ) {
        Err(e) => Err(e),
        Ok((h, c0, c1, bars2)) => Ok((StanzaV { bars: bars2, head_size: h, ..s }, c0, c1)),
    }
}


impl Stanza {
    /// Processes the stanza bar by bar into its two voices (see
    /// [`spec_process`]): each bar's symbols are sorted and fed to the
    /// collectors, noteheads are attached to stems, and the learned head
    /// size is recorded on first sight.
    pub fn process(&mut self) -> (r: Result<
        (crate::collector::Collector, crate::collector::Collector),
        crate::recognizer::Error,
    >)
        requires
            stanza_wf(old(self)@),
            stanza_fresh(old(self)@),
        ensures
            match spec_process(old(self)@) {
                Ok((s2, c0v, c1v)) => r matches Ok(p) && p.0@ == c0v && p.1@ == c1v
                    && final (self)@ == s2,
                Err(e) => r == Err::<
                    (crate::collector::Collector, crate::collector::Collector),
                    crate::recognizer::Error,
                >(e),
            },
    {
        let ghost g = geo_of(old(self)@);
        let mut c0 = crate::collector::Collector::new();
        let mut c1 = crate::collector::Collector::new();
        proof {
            assert(c0@ == crate::collector::empty_collector());
            assert(c1@ == crate::collector::empty_collector());
        }
        let mut pending: Vec<Bar> = Vec::new();
        std::mem::swap(&mut pending, &mut self.bars);
        proof {
            assert(bars_view(self.bars@) =~= Seq::<BarV>::empty());
            assert(bars_view(self.bars@) + bars_view(pending@) =~= bars_view(pending@));
        }
        while pending.len() > 0
            invariant
                g == geo_of(old(self)@),
                self.x == old(self).x,
                self.y == old(self).y,
                self.width == old(self).width,
                self.height == old(self).height,
                self.scale == old(self).scale,
                bounded(self@.y),
                bounded(self@.height),
                bounded(self@.scale),
                self@.scale.raw > 0,
                match self.head_size {
                    None => true,
                    Some(h) => -3 * (RAW_BOUND as int) <= h.raw <= 3 * (RAW_BOUND as int),
                },
                crate::collector::collector_wf(c0@),
                crate::collector::collector_wf(c1@),
                forall|i: int|
                    0 <= i < pending@.len() ==> bar_wf(#[trigger] bars_view(pending@)[i]) && bar_fresh(
                        bars_view(pending@)[i],
                    ),
                spec_proc_bars(
                    g,
                    old(self)@.head_size,
                    crate::collector::empty_collector(),
                    crate::collector::empty_collector(),
                    old(self)@.bars,
                ) == match spec_proc_bars(g, self.head_size, c0@, c1@, bars_view(pending@)) {
                    Ok((h, a, b, rest)) => Ok::<_, crate::recognizer::Error>(
                        (h, a, b, bars_view(self.bars@) + rest),
                    ),
                    Err(e) => Err(e),
                },
            decreases pending@.len(),
        {
            let ghost pending_pre = bars_view(pending@);
            let ghost hs0 = self.head_size;
            let ghost c00 = c0@;
            let ghost c10 = c1@;
            let ghost done_pre = bars_view(self.bars@);
            let mut bar = pending.remove(0);
            let ghost barv0 = bar@;
            proof {
                assert(barv0 == pending_pre[0]);
                assert(bars_view(pending@) =~= pending_pre.drop_first());
                assert(bar_wf(barv0) && bar_fresh(barv0));
            }
            sort_objs_exec(&mut bar.store);
            proof {
                lemma_sort_objs_ok(barv0.store);
            }
            bar.stems.sort();
            proof {
                crate::stems::lemma_sort_desc_bounded(barv0.stems.high.stems);
                crate::stems::lemma_sort_desc_bounded(barv0.stems.low.stems);
                crate::stems::lemma_sort_desc_bounded(barv0.stems.mid.stems);
            }
            c0.prepare();
            c1.prepare();
            let ghost sstore = bar.store@;
            let ghost st0 = ProcSt { head_size: self.head_size, stems: bar.stems@, c0: c0@, c1: c1@ };
            proof {
                assert(sstore.skip(0) =~= sstore);
            }
            let mut j: usize = 0;
            while j < bar.store.len()
                invariant
                    j <= bar.store@.len(),
                    g == geo_of(old(self)@),
                    self.x == old(self).x,
                    self.y == old(self).y,
                    self.width == old(self).width,
                    self.height == old(self).height,
                    self.scale == old(self).scale,
                    bounded(self@.y),
                    bounded(self@.height),
                    bounded(self@.scale),
                    self@.scale.raw > 0,
                    match self.head_size {
                        None => true,
                        Some(h) => -3 * (RAW_BOUND as int) <= h.raw <= 3 * (RAW_BOUND as int),
                    },
                    crate::collector::collector_wf(c0@),
                    crate::collector::collector_wf(c1@),
                    bar.store@ == sstore,
                    bar.x == barv0.x,
                    forall|i: int| 0 <= i < sstore.len() ==> #[trigger] obj_ok(sstore[i]),
                    crate::stems::stems_bounded(bar.stems@),
                    bars_view(self.bars@) == done_pre,
                    pending_pre.len() > 0,
                    barv0 == pending_pre[0],
                    bars_view(pending@) == pending_pre.drop_first(),
                    sstore == sort_objs(barv0.store),
                    st0 == (ProcSt {
                        head_size: hs0,
                        stems: crate::stems::StemsV {
                            high: crate::stems::StoreV {
                                stems: crate::stems::sort_desc(barv0.stems.high.stems),
                                current: None,
                            },
                            low: crate::stems::StoreV {
                                stems: crate::stems::sort_desc(barv0.stems.low.stems),
                                current: None,
                            },
                            mid: crate::stems::StoreV {
                                stems: crate::stems::sort_desc(barv0.stems.mid.stems),
                                current: None,
                            },
                        },
                        c0: crate::collector::spec_prepare(c00),
                        c1: crate::collector::spec_prepare(c10),
                    }),
                    spec_proc_bars(
                        g,
                        old(self)@.head_size,
                        crate::collector::empty_collector(),
                        crate::collector::empty_collector(),
                        old(self)@.bars,
                    ) == match spec_proc_bars(g, hs0, c00, c10, pending_pre) {
                        Ok((h, a, b, rest)) => Ok::<_, crate::recognizer::Error>(
                            (h, a, b, done_pre + rest),
                        ),
                        Err(e) => Err(e),
                    },
                    spec_proc_objs(g, st0, sstore) == spec_proc_objs(
                        g,
                        ProcSt { head_size: self.head_size, stems: bar.stems@, c0: c0@, c1: c1@ },
                        sstore.skip(j as int),
                    ),
                decreases bar.store@.len() - j,
            {
                let ghost stj = ProcSt {
                    head_size: self.head_size,
                    stems: bar.stems@,
                    c0: c0@,
                    c1: c1@,
                };
                let obj = bar.store[j];
                proof {
                    assert(obj_ok(sstore[j as int]));
                    assert(sstore.skip(j as int)[0] == sstore[j as int]);
                    assert(sstore.skip(j as int).drop_first() =~= sstore.skip(j as int + 1));
                }
                let ch0 = obj.point.y.raw >= self.y.raw + self.height.raw - 5 * self.scale.raw;
                let border: i64 = if ch0 {
                    self.y.raw + self.height.raw - 6 * self.scale.raw
                } else {
                    self.y.raw + 5 * self.scale.raw
                };
                match obj.t {
                    crate::geom::Type::Head(sz) => {
                        if sz == 2 || sz == 4 {
                            if self.head_size.is_none() {
                                match bar.stems.get_head_size(&obj) {
                                    None => {},
                                    Some(gap) => {
                                        proof {
                                            crate::stems::lemma_head_gap_bounded(bar.stems@, obj);
                                        }
                                        if gap.raw > self.scale.raw {
                                            self.head_size = Some(crate::stems::head_size_of(gap));
                                        }
                                    },
                                }
                            }
                            let flex = Fixed::from_raw(crate::fixed::div_trunc(self.scale.raw, 2));
                            proof {
                                crate::fixed::lemma_tdiv_magnitude(self.scale.raw as int, 2);
                            }
                            let att = bar.stems.attach(&obj, flex, self.head_size);
                            proof {
                                crate::stems::lemma_attach_bounded(
                                    stj.stems,
                                    obj,
                                    flex,
                                    self.head_size,
                                );
                            }
                            if !att {
                                proof {
                                    let e = crate::recognizer::Error::RecognitionFailure;
                                    assert(spec_proc_obj(g, stj, obj) == Err::<ProcSt, _>(e));
                                    assert(spec_proc_objs(g, stj, sstore.skip(j as int)) == Err::<
                                        ProcSt,
                                        _,
                                    >(e));
                                    assert(spec_proc_objs(g, st0, sstore) == Err::<ProcSt, _>(e));
                                    assert(spec_proc_bar(g, hs0, c00, c10, barv0) == Err::<
                                        (
                                            Option<Fixed>,
                                            crate::collector::CollectorV,
                                            crate::collector::CollectorV,
                                            BarV,
                                        ),
                                        _,
                                    >(e));
                                    assert(spec_proc_bars(g, hs0, c00, c10, pending_pre) == Err::<
                                        (
                                            Option<Fixed>,
                                            crate::collector::CollectorV,
                                            crate::collector::CollectorV,
                                            Seq<BarV>,
                                        ),
                                        _,
                                    >(e));
                                }
                                return Err(crate::recognizer::Error::RecognitionFailure);
                            }
                            let num = Fixed::from_raw(border - obj.point.y.raw);
                            if sz == 4 {
                                if ch0 {
                                    c0.put_quarter(obj.point.x, num, self.scale);
                                } else {
                                    c1.put_quarter(obj.point.x, num, self.scale);
                                }
                            } else {
                                if ch0 {
                                    c0.put_half(obj.point.x, num, self.scale);
                                } else {
                                    c1.put_half(obj.point.x, num, self.scale);
                                }
                            }
                        } else if sz == 1 {
                            let num = Fixed::from_raw(border - obj.point.y.raw);
                            if ch0 {
                                c0.put_whole(obj.point.x, num, self.scale);
                            } else {
                                c1.put_whole(obj.point.x, num, self.scale);
                            }
                        }
                    },
                    crate::geom::Type::Wing(n) => {
                        if n == 8 {
                            if ch0 {
                                c0.put_wing(obj.point.x);
                            } else {
                                c1.put_wing(obj.point.x);
                            }
                        }
                    },
                    crate::geom::Type::Rest(l) => {
                        if ch0 {
                            c0.put_rest(obj.point.x, l);
                        } else {
                            c1.put_rest(obj.point.x, l);
                        }
                    },
                }
                proof {
                    assert(spec_proc_obj(g, stj, obj) == Ok::<ProcSt, crate::recognizer::Error>(
                        ProcSt { head_size: self.head_size, stems: bar.stems@, c0: c0@, c1: c1@ },
                    ));
                }
                j += 1;
            }
            proof {
                assert(sstore.skip(sstore.len() as int) =~= Seq::<Object>::empty());
                assert(spec_proc_bar(g, hs0, c00, c10, barv0) == Ok::<
                    _,
                    crate::recognizer::Error,
                >((self.head_size, c0@, c1@, BarV { store: sstore, stems: bar.stems@, ..barv0 })));
            }
            self.bars.push(bar);
            proof {
                assert(bar@ == (BarV { store: sstore, stems: bar@.stems, x: barv0.x }));
                assert(bars_view(self.bars@) =~= done_pre.push(bar@));
                assert(done_pre.push(bar@) =~= done_pre + seq![bar@]);
                let step = spec_proc_bars(g, hs0, c00, c10, pending_pre);
                match spec_proc_bars(g, self.head_size, c0@, c1@, bars_view(pending@)) {
                    Ok((h2, c0b, c1b, rest)) => {
                        assert((done_pre + seq![bar@]) + rest =~= done_pre + (seq![bar@] + rest));
                    },
                    Err(e) => {},
                }
            }
        }
        proof {
            assert(bars_view(pending@) =~= Seq::<BarV>::empty());
            match spec_proc_bars(g, self.head_size, c0@, c1@, bars_view(pending@)) {
                Ok((h, a, b, rest)) => {
                    assert(bars_view(self.bars@) + rest =~= bars_view(self.bars@));
                },
                Err(e) => {},
            }
        }
        Ok((c0, c1))
    }
}


/// A stanza both well formed and with untouched stem stores.
pub open spec fn stanza_ready(s: StanzaV) -> bool {
    stanza_wf(s) && stanza_fresh(s)
}

/// Stable insertion keeps every bar well formed and untouched.
pub proof fn lemma_insert_bar_asc_ready(s: Seq<BarV>, b: BarV)
    requires
        forall|i: int| 0 <= i < s.len() ==> bar_wf(#[trigger] s[i]) && bar_fresh(s[i]),
        bar_wf(b),
        bar_fresh(b),
    ensures
        forall|i: int|
            0 <= i < insert_bar_asc(s, b).len() ==> bar_wf(#[trigger] insert_bar_asc(s, b)[i])
                && bar_fresh(insert_bar_asc(s, b)[i]),
    decreases s.len(),
{
    if s.len() == 0 {
    } else if bar_le(s.last(), b) {
        assert(bar_wf(s[s.len() - 1]) && bar_fresh(s[s.len() - 1]));
        assert forall|i: int| 0 <= i < s.push(b).len() implies bar_wf(#[trigger] s.push(b)[i])
            && bar_fresh(s.push(b)[i]) by {
            if i < s.len() {
                assert(bar_wf(s[i]) && bar_fresh(s[i]));
            }
        }
    } else {
        assert(forall|i: int|
            0 <= i < s.drop_last().len() ==> bar_wf(#[trigger] s.drop_last()[i]) && bar_fresh(
                s.drop_last()[i],
            ));
        lemma_insert_bar_asc_ready(s.drop_last(), b);
        assert(bar_wf(s[s.len() - 1]) && bar_fresh(s[s.len() - 1]));
        let t = insert_bar_asc(s.drop_last(), b);
        assert forall|i: int| 0 <= i < t.push(s.last()).len() implies bar_wf(
            #[trigger] t.push(s.last())[i],
        ) && bar_fresh(t.push(s.last())[i]) by {
            if i < t.len() {
                assert(bar_wf(t[i]) && bar_fresh(t[i]));
            }
        }
    }
}

/// Sorting keeps every bar well formed and untouched.
pub proof fn lemma_sort_bars_asc_ready(s: Seq<BarV>)
    requires
        forall|i: int| 0 <= i < s.len() ==> bar_wf(#[trigger] s[i]) && bar_fresh(s[i]),
    ensures
        forall|i: int|
            0 <= i < sort_bars_asc(s).len() ==> bar_wf(#[trigger] sort_bars_asc(s)[i]) && bar_fresh(
                sort_bars_asc(s)[i],
            ),
    decreases s.len(),
{
    if s.len() == 0 {
    } else {
        assert(forall|i: int|
            0 <= i < s.drop_last().len() ==> bar_wf(#[trigger] s.drop_last()[i]) && bar_fresh(
                s.drop_last()[i],
            ));
        lemma_sort_bars_asc_ready(s.drop_last());
        assert(bar_wf(s[s.len() - 1]) && bar_fresh(s[s.len() - 1]));
        lemma_insert_bar_asc_ready(sort_bars_asc(s.drop_last()), s.last());
    }
}

/// Registering a barline keeps the stanza well formed and untouched.
pub proof fn lemma_insert_bar_ready(s: StanzaV, l: VertLine)
    requires
        stanza_ready(s),
        stem_bounded(l),
    ensures
        stanza_ready(spec_insert_bar(s, l).1),
{
    let s2 = spec_insert_bar(s, l).1;
    if s2.bars == s.bars.push(empty_bar(l.x)) {
        assert(bar_wf(empty_bar(l.x)));
        assert(bar_fresh(empty_bar(l.x)));
        assert forall|i: int| 0 <= i < s2.bars.len() implies bar_wf(#[trigger] s2.bars[i]) by {
            if i < s.bars.len() {
                assert(bar_wf(s.bars[i]));
            }
        }
        assert forall|i: int| 0 <= i < s2.bars.len() implies bar_fresh(#[trigger] s2.bars[i]) by {
            if i < s.bars.len() {
                assert(bar_fresh(s.bars[i]));
            }
        }
    }
}

/// Sorting the bars and dropping the closing one keeps the stanza well
/// formed and untouched.
pub proof fn lemma_sort_bars_ready(s: StanzaV)
    requires
        stanza_ready(s),
    ensures
        stanza_ready(StanzaV { bars: spec_sort_bars(s.bars), ..s }),
{
    lemma_sort_bars_asc_ready(s.bars);
    let sorted = sort_bars_asc(s.bars);
    if sorted.len() > 0 {
        assert forall|i: int| 0 <= i < sorted.drop_last().len() implies bar_wf(
            #[trigger] sorted.drop_last()[i],
        ) && bar_fresh(sorted.drop_last()[i]) by {
            assert(bar_wf(sorted[i]) && bar_fresh(sorted[i]));
        }
    }
}

/// Claiming a symbol keeps the stanza well formed and untouched.
pub proof fn lemma_put_object_ready(s: StanzaV, o: Object)
    requires
        stanza_ready(s),
        obj_ok(o),
    ensures
        stanza_ready(spec_put_object(s, o).1),
{
    let s2 = spec_put_object(s, o).1;
    if s.y.raw < o.point.y.raw {
        match last_lt(s.bars, o.point.x.raw as int) {
            None => {},
            Some(k) => {
                lemma_last_lt_in_range(s.bars, o.point.x.raw as int);
                let b = s.bars[k];
                assert(bar_wf(b) && bar_fresh(b));
                let b2 = BarV { store: b.store.push(o), ..b };
                assert forall|i: int| 0 <= i < b2.store.len() implies obj_ok(
                    #[trigger] b2.store[i],
                ) by {
                    if i < b.store.len() {
                        assert(obj_ok(b.store[i]));
                    }
                }
                assert(bar_wf(b2) && bar_fresh(b2));
                assert forall|i: int| 0 <= i < s2.bars.len() implies bar_wf(#[trigger] s2.bars[i])
                    && bar_fresh(s2.bars[i]) by {
                    if i != k {
                        assert(bar_wf(s.bars[i]) && bar_fresh(s.bars[i]));
                    }
                }
            },
        }
    }
}

/// The index found when scanning for the last bar left of `x` is in range.
pub proof fn lemma_last_lt_in_range(bars: Seq<BarV>, x: int)
    ensures
        match last_lt(bars, x) {
            None => true,
            Some(k) => 0 <= k < bars.len(),
        },
    decreases bars.len(),
{
    if bars.len() == 0 {
    } else if bars.last().x.raw < x {
    } else {
        lemma_last_lt_in_range(bars.drop_last(), x);
    }
}

/// Classifying a stem keeps the stanza well formed and untouched.
pub proof fn lemma_put_stem_ready(s: StanzaV, v: VertLine)
    requires
        stanza_ready(s),
        stem_bounded(v),
    ensures
        match spec_put_stem(s, v) {
            Ok((_, s2)) => stanza_ready(s2),
            Err(_) => true,
        },
{
    match spec_put_stem(s, v) {
        Err(_) => {},
        Ok((_, s2)) => {
            match last_lt(s.bars, v.x.raw as int) {
                None => {},
                Some(k) => {
                    lemma_last_lt_in_range(s.bars, v.x.raw as int);
                    let b = s.bars[k];
                    assert(bar_wf(b) && bar_fresh(b));
                    let b2 = s2.bars[k];
                    assert(b2.store == b.store);
                    assert forall|i: int| 0 <= i < b2.stems.high.stems.len() implies #[trigger]
                    crate::stems::stem_bounded(b2.stems.high.stems[i]) by {
                        if i < b.stems.high.stems.len() {
                            assert(crate::stems::stem_bounded(b.stems.high.stems[i]));
                        }
                    }
                    assert forall|i: int| 0 <= i < b2.stems.low.stems.len() implies #[trigger]
                    crate::stems::stem_bounded(b2.stems.low.stems[i]) by {
                        if i < b.stems.low.stems.len() {
                            assert(crate::stems::stem_bounded(b.stems.low.stems[i]));
                        }
                    }
                    assert forall|i: int| 0 <= i < b2.stems.mid.stems.len() implies #[trigger]
                    crate::stems::stem_bounded(b2.stems.mid.stems[i]) by {
                        if i < b.stems.mid.stems.len() {
                            assert(crate::stems::stem_bounded(b.stems.mid.stems[i]));
                        }
                    }
                    assert(bar_wf(b2) && bar_fresh(b2));
                    assert forall|i: int| 0 <= i < s2.bars.len() implies bar_wf(
                        #[trigger] s2.bars[i],
                    ) && bar_fresh(s2.bars[i]) by {
                        if i != k {
                            assert(bar_wf(s.bars[i]) && bar_fresh(s.bars[i]));
                        }
                    }
                },
            }
        },
    }
}


/// Whether some bar in the sequence sits at the x value `v`.
pub open spec fn bar_x_in(s: Seq<BarV>, v: int) -> bool {
    exists|j: int| 0 <= j < s.len() && (#[trigger] s[j]).x.raw == v
}

/// Every bar of the sequence lies within the horizontal span starting at
/// `x0` and `wdt` wide.
pub open spec fn bars_span_ok(s: Seq<BarV>, x0: int, wdt: int) -> bool {
    forall|i: int| 0 <= i < s.len() ==> x0 <= (#[trigger] s[i]).x.raw < x0 + wdt
}

/// Inserting a bar with a fresh x into a strictly ascending sequence keeps
/// it strictly ascending, and adds no x value but the new one.
pub proof fn lemma_insert_bar_asc_strict(s: Seq<BarV>, b: BarV)
    requires
        bars_strictly_sorted(s),
        forall|i: int| 0 <= i < s.len() ==> (#[trigger] s[i]).x.raw != b.x.raw,
    ensures
        bars_strictly_sorted(insert_bar_asc(s, b)),
        forall|i: int|
            0 <= i < insert_bar_asc(s, b).len() ==> (#[trigger] insert_bar_asc(s, b)[i]).x.raw
                == b.x.raw || bar_x_in(s, insert_bar_asc(s, b)[i].x.raw as int),
    decreases s.len(),
{
    let r = insert_bar_asc(s, b);
    if s.len() == 0 {
    } else if bar_le(s.last(), b) {
        assert(s[s.len() - 1].x.raw != b.x.raw);
        assert forall|i: int, j: int| 0 <= i < j < r.len() implies r[i].x.raw < r[j].x.raw by {
            if j < s.len() {
                assert(s[i].x.raw < s[j].x.raw);
            } else {
                if i < s.len() - 1 {
                    assert(s[i].x.raw < s[s.len() - 1].x.raw);
                }
            }
        }
        assert forall|i: int| 0 <= i < r.len() implies (#[trigger] r[i]).x.raw == b.x.raw
            || bar_x_in(s, r[i].x.raw as int) by {
            if i < s.len() {
                assert(s[i].x.raw == r[i].x.raw);
                assert(bar_x_in(s, r[i].x.raw as int));
            }
        }
    } else {
        assert(forall|i: int|
            0 <= i < s.drop_last().len() ==> (#[trigger] s.drop_last()[i]).x.raw != b.x.raw);
        lemma_insert_bar_asc_strict(s.drop_last(), b);
        let t = insert_bar_asc(s.drop_last(), b);
        assert forall|i: int| 0 <= i < t.len() implies t[i].x.raw < s.last().x.raw by {
            assert(t[i].x.raw == b.x.raw || bar_x_in(s.drop_last(), t[i].x.raw as int));
            if t[i].x.raw == b.x.raw {
            } else {
                let j = choose|j: int|
                    0 <= j < s.drop_last().len() && (#[trigger] s.drop_last()[j]).x.raw
                        == t[i].x.raw;
                assert(s[j].x.raw < s[s.len() - 1].x.raw);
            }
        }
        assert forall|i: int, j: int| 0 <= i < j < r.len() implies r[i].x.raw < r[j].x.raw by {
            if j < t.len() {
                assert(t[i].x.raw < t[j].x.raw);
            } else {
                assert(t[i].x.raw < s.last().x.raw);
            }
        }
        assert forall|i: int| 0 <= i < r.len() implies (#[trigger] r[i]).x.raw == b.x.raw
            || bar_x_in(s, r[i].x.raw as int) by {
            if i < t.len() {
                if t[i].x.raw != b.x.raw {
                    let j = choose|j: int|
                        0 <= j < s.drop_last().len() && (#[trigger] s.drop_last()[j]).x.raw
                            == t[i].x.raw;
                    assert(s[j].x.raw == r[i].x.raw);
                    assert(bar_x_in(s, r[i].x.raw as int));
                }
            } else {
                assert(r[i] == s.last());
                assert(s[s.len() - 1].x.raw == r[i].x.raw);
                assert(bar_x_in(s, r[i].x.raw as int));
            }
        }
    }
}

/// Sorting bars with pairwise distinct x yields a strictly ascending
/// sequence over the same x values.
pub proof fn lemma_sort_bars_asc_strict(s: Seq<BarV>)
    requires
        bars_distinct(s),
    ensures
        bars_strictly_sorted(sort_bars_asc(s)),
        forall|i: int|
            0 <= i < sort_bars_asc(s).len() ==> bar_x_in(
                s,
                (#[trigger] sort_bars_asc(s)[i]).x.raw as int,
            ),
    decreases s.len(),
{
    let r = sort_bars_asc(s);
    if s.len() == 0 {
    } else {
        assert(bars_distinct(s.drop_last()));
        lemma_sort_bars_asc_strict(s.drop_last());
        let t = sort_bars_asc(s.drop_last());
        assert forall|i: int| 0 <= i < t.len() implies (#[trigger] t[i]).x.raw
            != s.last().x.raw by {
            let j = choose|j: int|
                0 <= j < s.drop_last().len() && (#[trigger] s.drop_last()[j]).x.raw == t[i].x.raw;
            assert(s[j].x.raw != s[s.len() - 1].x.raw);
        }
        lemma_insert_bar_asc_strict(t, s.last());
        assert forall|i: int| 0 <= i < r.len() implies bar_x_in(
            s,
            (#[trigger] r[i]).x.raw as int,
        ) by {
            if r[i].x.raw == s.last().x.raw {
                assert(s[s.len() - 1].x.raw == r[i].x.raw);
                assert(bar_x_in(s, r[i].x.raw as int));
            } else {
                assert(bar_x_in(t, r[i].x.raw as int));
                let j = choose|j: int| 0 <= j < t.len() && (#[trigger] t[j]).x.raw == r[i].x.raw;
                assert(bar_x_in(s.drop_last(), t[j].x.raw as int));
                let k = choose|k: int|
                    0 <= k < s.drop_last().len() && (#[trigger] s.drop_last()[k]).x.raw
                        == t[j].x.raw;
                assert(s[k].x.raw == r[i].x.raw);
                assert(bar_x_in(s, r[i].x.raw as int));
            }
        }
    }
}

/// Taking barlines keeps the bars within the stanza's span and pairwise
/// distinct in x; the stanza's own frame does not move.
pub proof fn lemma_insert_bars_span(st: StanzaV, lines: Seq<VertLine>)
    requires
        bars_span_ok(st.bars, st.x.raw as int, st.width.raw as int),
        bars_distinct(st.bars),
    ensures
        ({
            let st2 = crate::recognizer::spec_insert_bars(st, lines).0;
            &&& st2.x == st.x
            &&& st2.width == st.width
            &&& bars_span_ok(st2.bars, st.x.raw as int, st.width.raw as int)
            &&& bars_distinct(st2.bars)
        }),
    decreases lines.len(),
{
    if lines.len() == 0 {
    } else {
        let (c, st1) = spec_insert_bar(st, lines[0]);
        assert(bars_span_ok(st1.bars, st.x.raw as int, st.width.raw as int) && bars_distinct(
            st1.bars,
        ) && st1.x == st.x && st1.width == st.width) by {
            if st1.bars != st.bars {
                let l = lines[0];
                assert(st1.bars == st.bars.push(empty_bar(l.x)));
                assert forall|i: int|
                    0 <= i < st1.bars.len() implies st.x.raw <= (#[trigger] st1.bars[i]).x.raw
                    < st.x.raw + st.width.raw by {
                    if i < st.bars.len() {
                        assert(st.x.raw <= st.bars[i].x.raw < st.x.raw + st.width.raw);
                    }
                }
                assert forall|i: int, j: int|
                    0 <= i < j < st1.bars.len() implies st1.bars[i].x.raw
                    != st1.bars[j].x.raw by {
                    if j < st.bars.len() {
                    } else {
                        assert(st1.bars[i] == st.bars[i]);
                        assert(!(exists|k: int|
                            0 <= k < st.bars.len() && (#[trigger] st.bars[k]).x.raw == l.x.raw));
                        assert(st.bars[i].x.raw != l.x.raw);
                    }
                }
            }
        }
        lemma_insert_bars_span(st1, lines.drop_first());
    }
}

/// After a stanza's bar phase the bars lie strictly within its horizontal
/// span and ascend strictly in x.
pub proof fn lemma_stanza_bars_ordered(st: StanzaV, lines: Seq<VertLine>)
    requires
        bars_span_ok(st.bars, st.x.raw as int, st.width.raw as int),
        bars_distinct(st.bars),
    ensures
        ({
            let st2 = crate::recognizer::spec_stanza_bars(st, lines).0;
            &&& bars_in_span(st2)
            &&& bars_strictly_sorted(st2.bars)
        }),
{
    lemma_insert_bars_span(st, lines);
    let st1 = crate::recognizer::spec_insert_bars(st, lines).0;
    lemma_sort_bars_asc_strict(st1.bars);
    let sorted = sort_bars_asc(st1.bars);
    let final_bars = spec_sort_bars(st1.bars);
    assert forall|i: int|
        0 <= i < final_bars.len() implies st1.x.raw <= (#[trigger] final_bars[i]).x.raw < st1.x.raw
        + st1.width.raw by {
        assert(final_bars[i] == sorted[i]);
        assert(bar_x_in(st1.bars, sorted[i].x.raw as int));
        let j = choose|j: int|
            0 <= j < st1.bars.len() && (#[trigger] st1.bars[j]).x.raw == sorted[i].x.raw;
        assert(st.x.raw <= st1.bars[j].x.raw < st.x.raw + st.width.raw);
    }
    assert forall|i: int, j: int|
        0 <= i < j < final_bars.len() implies final_bars[i].x.raw < final_bars[j].x.raw by {
        assert(final_bars[i] == sorted[i]);
        assert(final_bars[j] == sorted[j]);
    }
}


/// The first stanza keeps the second's frame and bar positions: same
/// anchor and width, equally many bars, each at the same x.
pub open spec fn bars_pos_eq(a: StanzaV, b: StanzaV) -> bool {
    &&& a.x == b.x
    &&& a.width == b.width
    &&& a.bars.len() == b.bars.len()
    &&& forall|j: int| 0 <= j < a.bars.len() ==> (#[trigger] a.bars[j]).x == b.bars[j].x
}

/// Frame-and-position equality is transitive.
pub proof fn lemma_pos_eq_trans(a: StanzaV, b: StanzaV, c: StanzaV)
    requires
        bars_pos_eq(a, b),
        bars_pos_eq(b, c),
    ensures
        bars_pos_eq(a, c),
{
    assert forall|j: int| 0 <= j < a.bars.len() implies (#[trigger] a.bars[j]).x == c.bars[j].x by {
        assert(a.bars[j].x == b.bars[j].x);
        assert(b.bars[j].x == c.bars[j].x);
    }
}

/// Frame-and-position equality carries the bar ordering invariant over.
pub proof fn lemma_pos_eq_ordered(a: StanzaV, b: StanzaV)
    requires
        bars_pos_eq(a, b),
        bars_in_span(b),
        bars_strictly_sorted(b.bars),
    ensures
        bars_in_span(a),
        bars_strictly_sorted(a.bars),
{
    assert forall|i: int|
        0 <= i < a.bars.len() implies a.x.raw <= (#[trigger] a.bars[i]).x.raw < a.x.raw
        + a.width.raw by {
        assert(a.bars[i].x == b.bars[i].x);
        assert(b.x.raw <= b.bars[i].x.raw < b.x.raw + b.width.raw);
    }
    assert forall|i: int, j: int|
        0 <= i < j < a.bars.len() implies a.bars[i].x.raw < a.bars[j].x.raw by {
        assert(a.bars[i].x == b.bars[i].x);
        assert(a.bars[j].x == b.bars[j].x);
        assert(b.bars[i].x.raw < b.bars[j].x.raw);
    }
}

/// Claiming a symbol moves no bar: the frame and every bar's x stay.
pub proof fn lemma_put_object_pos(s: StanzaV, o: Object)
    ensures
        bars_pos_eq(spec_put_object(s, o).1, s),
{
    let s2 = spec_put_object(s, o).1;
    lemma_last_lt_in_range(s.bars, o.point.x.raw as int);
    assert forall|j: int| 0 <= j < s2.bars.len() implies (#[trigger] s2.bars[j]).x
        == s.bars[j].x by {}
}

/// Classifying a stem moves no bar.
pub proof fn lemma_put_stem_pos(s: StanzaV, v: VertLine)
    ensures
        match spec_put_stem(s, v) {
            Ok((_, s2)) => bars_pos_eq(s2, s),
            Err(_) => true,
        },
{
    lemma_last_lt_in_range(s.bars, v.x.raw as int);
    match spec_put_stem(s, v) {
        Err(_) => {},
        Ok((_, s2)) => {
            assert forall|j: int| 0 <= j < s2.bars.len() implies (#[trigger] s2.bars[j]).x
                == s.bars[j].x by {}
        },
    }
}

/// Processing the bars keeps each bar's x, in order.
pub proof fn lemma_proc_bars_pos(
    g: GeoV,
    hs: Option<Fixed>,
    c0: crate::collector::CollectorV,
    c1: crate::collector::CollectorV,
    bars: Seq<BarV>,
)
    ensures
        match spec_proc_bars(g, hs, c0, c1, bars) {
            Ok((_, _, _, b2)) => b2.len() == bars.len() && forall|i: int|
                0 <= i < b2.len() ==> (#[trigger] b2[i]).x == bars[i].x,
            Err(_) => true,
        },
    decreases bars.len(),
{
    if bars.len() == 0 {
    } else {
        match spec_proc_bar(g, hs, c0, c1, bars[0]) {
            Err(_) => {},
            Ok((h1, c0a, c1a, b1)) => {
                lemma_proc_bars_pos(g, h1, c0a, c1a, bars.drop_first());
                match spec_proc_bars(g, h1, c0a, c1a, bars.drop_first()) {
                    Err(_) => {},
                    Ok((_, _, _, rest)) => {
                        let b2 = seq![b1] + rest;
                        assert forall|i: int| 0 <= i < b2.len() implies (#[trigger] b2[i]).x
                            == bars[i].x by {
                            if i == 0 {
                                assert(b1.x == bars[0].x);
                            } else {
                                assert(b2[i] == rest[i - 1]);
                                assert(rest[i - 1].x == bars.drop_first()[i - 1].x);
                            }
                        }
                    },
                }
            },
        }
    }
}

/// Processing a whole stanza moves no bar.
pub proof fn lemma_process_pos(s: StanzaV)
    ensures
        match spec_process(s) {
            Ok((s2, _, _)) => bars_pos_eq(s2, s),
            Err(_) => true,
        },
{
    lemma_proc_bars_pos(
        geo_of(s),
        s.head_size,
        crate::collector::empty_collector(),
        crate::collector::empty_collector(),
        s.bars,
    );
}

} // verus!
