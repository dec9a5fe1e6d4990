//! Per-bar stores of stem candidates, split into the high-voice, low-voice
//! and middle bands, with the attachment heuristic that binds noteheads to
//! stems.

use vstd::prelude::*;

use crate::fixed::{bounded, tdiv, Fixed};
use crate::geom::{Object, VertLine};

verus! {

/// One sub-store of stems: a remainder ordered by descending x, and the
/// stem most recently attached to in this bar.
#[derive(Debug)]
pub struct Store {
    pub stems: Vec<VertLine>,
    pub current: Option<VertLine>,
}

/// A sub-store as mathematics.
pub ghost struct StoreV {
    pub stems: Seq<VertLine>,
    pub current: Option<VertLine>,
}

impl View for Store {
    type V = StoreV;

    open spec fn view(&self) -> StoreV {
        StoreV { stems: self.stems@, current: self.current }
    }
}

/// All coordinates of a segment within the recognizer's working range.
pub open spec fn stem_bounded(v: VertLine) -> bool {
    bounded(v.x) && bounded(v.y1) && bounded(v.y2)
}

/// All stems of a sub-store within the working range.
pub open spec fn store_bounded(s: StoreV) -> bool {
    &&& forall|i: int| 0 <= i < s.stems.len() ==> #[trigger] stem_bounded(s.stems[i])
    &&& match s.current {
        None => true,
        Some(c) => stem_bounded(c),
    }
}

/// Whether the stem `s` can take the notehead `o`: the head starts at or
/// left of the stem, no further left than the learned head width allows,
/// and vertically within the stem give or take the flexibility.
pub open spec fn spec_attachable(s: VertLine, o: Object, flex: Fixed, width: Option<Fixed>) -> bool {
    &&& o.point.x.raw <= s.x.raw
    &&& match width {
        None => true,
        Some(w) => o.point.x.raw + w.raw >= s.x.raw,
    }
    &&& o.point.y.raw > s.y1.raw - flex.raw
    &&& o.point.y.raw < s.y2.raw + flex.raw
}

/// Attachment on one sub-store: the current stem is tried first; then the
/// top of the remainder, which is promoted to current when it accepts.
pub open spec fn spec_attach(s: StoreV, o: Object, flex: Fixed, width: Option<Fixed>) -> (
    bool,
    StoreV,
) {
    let tried_current = match s.current {
        None => false,
        Some(c) => spec_attachable(c, o, flex, width),
    };
    if s.stems.len() > 0 && spec_attachable(s.stems.last(), o, flex, width) {
        (true, StoreV { stems: s.stems.drop_last(), current: Some(s.stems.last()) })
    } else {
        (tried_current, s)
    }
}

/// Stable insertion of a segment into a sequence ordered by descending x:
/// the new element goes after every element with an x at least its own.
pub open spec fn insert_desc(s: Seq<VertLine>, v: VertLine) -> Seq<VertLine>
    decreases s.len(),
{
    if s.len() == 0 {
        seq![v]
    } else if s.last().x.raw >= v.x.raw {
        s.push(v)
    } else {
        insert_desc(s.drop_last(), v).push(s.last())
    }
}

/// Stable insertion sort by descending x.
pub open spec fn sort_desc(s: Seq<VertLine>) -> Seq<VertLine>
    decreases s.len(),
{
    if s.len() == 0 {
        Seq::empty()
    } else {
        insert_desc(sort_desc(s.drop_last()), s.last())
    }
}

fn insert_desc_exec(v: &mut Vec<VertLine>, item: VertLine)
    ensures
        final (v)@ == insert_desc(old(v)@, item),
    decreases old(v)@.len(),
{
    if v.len() == 0 {
        v.push(item);
        return ;
    }
    let last = v[v.len() - 1];
    if last.x.raw >= item.x.raw {
        v.push(item);
    } else {
        let popped = match v.pop() {
            Some(p) => p,
            None => {
                proof {
                    assert(false);
                }
                item
            },
        };
        insert_desc_exec(v, item);
        v.push(popped);
    }
}

fn sort_desc_exec(v: &mut Vec<VertLine>)
    ensures
        final (v)@ == sort_desc(old(v)@),
    decreases old(v)@.len(),
{
    match v.pop() {
        None => {},
        Some(last) => {
            sort_desc_exec(v);
            insert_desc_exec(v, last);
        },
    }
}

impl Store {
    /// An empty sub-store.
    pub fn new() -> (r: Store)
        ensures
            r@.stems =~= Seq::<VertLine>::empty(),
            r@.current is None,
    {
        Store { stems: Vec::new(), current: None }
    }

    /// Adds a stem candidate.
    pub fn push(&mut self, stem: &VertLine)
        ensures
            final (self)@ == (StoreV { stems: old(self)@.stems.push(*stem), ..old(self)@ }),
    {
        self.stems.push(*stem);
    }

    /// Orders the remainder by descending x; only meaningful before any
    /// attachment has picked a current stem.
    pub fn sort(&mut self)
        requires
            old(self)@.current is None,
        ensures
            final (self)@ == (StoreV { stems: sort_desc(old(self)@.stems), current: None }),
    {
        sort_desc_exec(&mut self.stems);
    }

    /// The gap from the notehead to the topmost remaining stem, if any.
    pub fn get_head_size(&self, obj: &Object) -> (r: Option<Fixed>)
        requires
            store_bounded(self@),
            bounded(obj.point.x),
        ensures
            r == spec_gap(self@, *obj),
    {
        if self.stems.len() == 0 {
            None
        } else {
            let last = self.stems[self.stems.len() - 1];
            assert(stem_bounded(last));
            Some(last.x.sub(obj.point.x))
        }
    }

    /// Whether the stem can take the notehead (see [`spec_attachable`]).
    pub fn attachable(stem: &VertLine, obj: &Object, flexibility: Fixed, width: Option<Fixed>) -> (r:
        bool)
        requires
            stem_bounded(*stem),
            bounded(obj.point.x),
            bounded(obj.point.y),
            bounded(flexibility),
            match width {
                None => true,
                Some(w) => -3 * (crate::fixed::RAW_BOUND as int) <= w.raw <= 3 * (
                crate::fixed::RAW_BOUND as int),
            },
        ensures
            r == spec_attachable(*stem, *obj, flexibility, width),
    {
        let horz_ok = obj.point.x.raw <= stem.x.raw && match width {
            None => true,
            Some(w) => obj.point.x.raw + w.raw >= stem.x.raw,
        };
        horz_ok && obj.point.y.raw > stem.y1.raw - flexibility.raw && obj.point.y.raw < stem.y2.raw
            + flexibility.raw
    }

    /// Tries to attach the notehead: first to the current stem, then to the
    /// top of the remainder, promoting it on success.
    pub fn attach(&mut self, obj: &Object, flexibility: Fixed, width: Option<Fixed>) -> (r: bool)
        requires
            store_bounded(old(self)@),
            bounded(obj.point.x),
            bounded(obj.point.y),
            bounded(flexibility),
            match width {
                None => true,
                Some(w) => -3 * (crate::fixed::RAW_BOUND as int) <= w.raw <= 3 * (
                crate::fixed::RAW_BOUND as int),
            },
        ensures
            (r, final (self)@) == spec_attach(old(self)@, *obj, flexibility, width),
    {
        let mut res = false;
        match &self.current {
            None => {},
            Some(c) => {
                if Store::attachable(c, obj, flexibility, width) {
                    res = true;
                }
            },
        }
        if self.stems.len() > 0 {
            let top = self.stems[self.stems.len() - 1];
            assert(stem_bounded(old(self)@.stems[old(self)@.stems.len() - 1]));
            if Store::attachable(&top, obj, flexibility, width) {
                self.current = self.stems.pop();
                return true;
            }
        }
        res
    }
}

/// The gap from a notehead to the topmost remaining stem of one sub-store.
pub open spec fn spec_gap(s: StoreV, o: Object) -> Option<Fixed> {
    if s.stems.len() == 0 {
        None
    } else {
        Some(Fixed { raw: (s.stems.last().x.raw - o.point.x.raw) as i64 })
    }
}

/// The smaller of two optional gaps, taking the present one when only one is.
pub open spec fn opt_min(a: Option<Fixed>, b: Option<Fixed>) -> Option<Fixed> {
    match (a, b) {
        (None, None) => None,
        (Some(x), None) => Some(x),
        (None, Some(y)) => Some(y),
        (Some(x), Some(y)) => if x.raw <= y.raw {
            Some(x)
        } else {
            Some(y)
        },
    }
}

/// The three sub-stores of a bar: high voice, low voice, and the middle.
#[derive(Debug)]
pub struct Stems {
    pub high: Store,
    pub low: Store,
    pub mid: Store,
}

/// The three sub-stores as mathematics.
pub ghost struct StemsV {
    pub high: StoreV,
    pub low: StoreV,
    pub mid: StoreV,
}

impl View for Stems {
    type V = StemsV;

    open spec fn view(&self) -> StemsV {
        StemsV { high: self.high@, low: self.low@, mid: self.mid@ }
    }
}

/// All three sub-stores within the working range.
pub open spec fn stems_bounded(s: StemsV) -> bool {
    store_bounded(s.high) && store_bounded(s.low) && store_bounded(s.mid)
}

/// No sub-store has picked a current stem yet.
pub open spec fn stems_fresh(s: StemsV) -> bool {
    s.high.current is None && s.low.current is None && s.mid.current is None
}

/// The smallest gap from the notehead to the topmost stem over the
/// non-empty sub-stores.
pub open spec fn spec_head_gap(s: StemsV, o: Object) -> Option<Fixed> {
    opt_min(opt_min(spec_gap(s.high, o), spec_gap(s.low, o)), spec_gap(s.mid, o))
}

/// Attachment over all three sub-stores: each is tried, and the notehead is
/// attached if any accepts it.
pub open spec fn spec_attach_stems(s: StemsV, o: Object, flex: Fixed, width: Option<Fixed>) -> (
    bool,
    StemsV,
) {
    let (rh, high) = spec_attach(s.high, o, flex, width);
    let (rl, low) = spec_attach(s.low, o, flex, width);
    let (rm, mid) = spec_attach(s.mid, o, flex, width);
    (rh || rl || rm, StemsV { high, low, mid })
}

impl Stems {
    /// Three empty sub-stores.
    pub fn new() -> (r: Stems)
        ensures
            r@.high.stems =~= Seq::<VertLine>::empty(),
            r@.low.stems =~= Seq::<VertLine>::empty(),
            r@.mid.stems =~= Seq::<VertLine>::empty(),
            stems_fresh(r@),
    {
        Stems { high: Store::new(), low: Store::new(), mid: Store::new() }
    }

    /// Orders every sub-store by descending x.
    pub fn sort(&mut self)
        requires
            stems_fresh(old(self)@),
        ensures
            final (self)@ == (StemsV {
                high: StoreV { stems: sort_desc(old(self)@.high.stems), current: None },
                low: StoreV { stems: sort_desc(old(self)@.low.stems), current: None },
                mid: StoreV { stems: sort_desc(old(self)@.mid.stems), current: None },
            }),
    {
        self.high.sort();
        self.low.sort();
        self.mid.sort();
    }

    pub fn push_high(&mut self, stem: &VertLine)
        ensures
            final (self)@ == (StemsV {
                high: StoreV { stems: old(self)@.high.stems.push(*stem), ..old(self)@.high },
                ..old(self)@
            }),
    {
        self.high.push(stem);
    }

    pub fn push_low(&mut self, stem: &VertLine)
        ensures
            final (self)@ == (StemsV {
                low: StoreV { stems: old(self)@.low.stems.push(*stem), ..old(self)@.low },
                ..old(self)@
            }),
    {
        self.low.push(stem);
    }

    pub fn push_mid(&mut self, stem: &VertLine)
        ensures
            final (self)@ == (StemsV {
                mid: StoreV { stems: old(self)@.mid.stems.push(*stem), ..old(self)@.mid },
                ..old(self)@
            }),
    {
        self.mid.push(stem);
    }

    /// The smallest gap from the notehead to the topmost stem of any
    /// non-empty sub-store: the raw measurement from which a stanza learns
    /// its head size.
    pub fn get_head_size(&self, obj: &Object) -> (r: Option<Fixed>)
        requires
            stems_bounded(self@),
            bounded(obj.point.x),
        ensures
            r == spec_head_gap(self@, *obj),
    {
        let gh = self.high.get_head_size(obj);
        let gl = self.low.get_head_size(obj);
        let gm = self.mid.get_head_size(obj);
        let m1 = match (gh, gl) {
            (None, None) => None,
            (Some(x), None) => Some(x),
            (None, Some(y)) => Some(y),
            (Some(x), Some(y)) => if x.raw <= y.raw {
                Some(x)
            } else {
                Some(y)
            },
        };
        match (m1, gm) {
            (None, None) => None,
            (Some(x), None) => Some(x),
            (None, Some(y)) => Some(y),
            (Some(x), Some(y)) => if x.raw <= y.raw {
                Some(x)
            } else {
                Some(y)
            },
        }
    }

    /// Tries every sub-store; the notehead is attached if any accepts it.
    pub fn attach(&mut self, obj: &Object, flexibility: Fixed, width: Option<Fixed>) -> (r: bool)
        requires
            stems_bounded(old(self)@),
            bounded(obj.point.x),
            bounded(obj.point.y),
            bounded(flexibility),
            match width {
                None => true,
                Some(w) => -3 * (crate::fixed::RAW_BOUND as int) <= w.raw <= 3 * (
                crate::fixed::RAW_BOUND as int),
            },
        ensures
            (r, final (self)@) == spec_attach_stems(old(self)@, *obj, flexibility, width),
    {
        let rh = self.high.attach(obj, flexibility, width);
        let rl = self.low.attach(obj, flexibility, width);
        let rm = self.mid.attach(obj, flexibility, width);
        rh || rl || rm
    }
}

/// The scaled head size a stanza learns from a raw gap: the gap widened by
/// a tenth, truncating toward zero.
pub open spec fn spec_head_size(gap: int) -> int {
    tdiv(11 * gap, 10)
}

/// Executable head-size scaling.
pub fn head_size_of(gap: Fixed) -> (r: Fixed)
    requires
        -2 * (crate::fixed::RAW_BOUND as int) <= gap.raw <= 2 * (crate::fixed::RAW_BOUND as int),
    ensures
        r.raw == spec_head_size(gap.raw as int),
        -3 * (crate::fixed::RAW_BOUND as int) <= r.raw <= 3 * (crate::fixed::RAW_BOUND as int),
{
    proof {
        crate::fixed::lemma_tdiv_magnitude(11 * gap.raw as int, 10);
    }
    crate::fixed::Fixed { raw: crate::fixed::div_trunc(11 * gap.raw, 10) }
}

/// Stable insertion keeps every stem within the working range.
pub proof fn lemma_insert_desc_bounded(s: Seq<VertLine>, v: VertLine)
    requires
        forall|i: int| 0 <= i < s.len() ==> #[trigger] stem_bounded(s[i]),
        stem_bounded(v),
    ensures
        forall|i: int| 0 <= i < insert_desc(s, v).len() ==> #[trigger] stem_bounded(
            insert_desc(s, v)[i],
        ),
    decreases s.len(),
{
    if s.len() == 0 {
    } else if s.last().x.raw >= v.x.raw {
        assert(stem_bounded(s[s.len() - 1]));
        assert forall|i: int| 0 <= i < s.push(v).len() implies #[trigger] stem_bounded(
            s.push(v)[i],
        ) by {
            if i < s.len() {
                assert(stem_bounded(s[i]));
            }
        }
    } else {
        assert(forall|i: int|
            0 <= i < s.drop_last().len() ==> #[trigger] stem_bounded(s.drop_last()[i]));
        lemma_insert_desc_bounded(s.drop_last(), v);
        assert(stem_bounded(s[s.len() - 1]));
        let t = insert_desc(s.drop_last(), v);
        assert forall|i: int| 0 <= i < t.push(s.last()).len() implies #[trigger] stem_bounded(
            t.push(s.last())[i],
        ) by {
            if i < t.len() {
                assert(stem_bounded(t[i]));
            }
        }
    }
}

/// Sorting keeps every stem within the working range.
pub proof fn lemma_sort_desc_bounded(s: Seq<VertLine>)
    requires
        forall|i: int| 0 <= i < s.len() ==> #[trigger] stem_bounded(s[i]),
    ensures
        forall|i: int| 0 <= i < sort_desc(s).len() ==> #[trigger] stem_bounded(sort_desc(s)[i]),
    decreases s.len(),
{
    if s.len() == 0 {
    } else {
        assert(forall|i: int|
            0 <= i < s.drop_last().len() ==> #[trigger] stem_bounded(s.drop_last()[i]));
        lemma_sort_desc_bounded(s.drop_last());
        lemma_insert_desc_bounded(sort_desc(s.drop_last()), s.last());
    }
}


/// Attachment keeps every stem of every sub-store within the working range.
pub proof fn lemma_attach_bounded(s: StemsV, o: Object, flex: Fixed, w: Option<Fixed>)
    requires
        stems_bounded(s),
    ensures
        stems_bounded(spec_attach_stems(s, o, flex, w).1),
{
    lemma_attach_store_bounded(s.high, o, flex, w);
    lemma_attach_store_bounded(s.low, o, flex, w);
    lemma_attach_store_bounded(s.mid, o, flex, w);
}

/// Attachment keeps every stem of one sub-store within the working range.
pub proof fn lemma_attach_store_bounded(s: StoreV, o: Object, flex: Fixed, w: Option<Fixed>)
    requires
        store_bounded(s),
    ensures
        store_bounded(spec_attach(s, o, flex, w).1),
{
    let r = spec_attach(s, o, flex, w).1;
    if s.stems.len() > 0 && spec_attachable(s.stems.last(), o, flex, w) {
        assert(stem_bounded(s.stems[s.stems.len() - 1]));
        assert forall|i: int| 0 <= i < r.stems.len() implies #[trigger] stem_bounded(r.stems[i]) by {
            assert(stem_bounded(s.stems[i]));
        }
    }
}


/// The head gap, when there is one, spans at most two working ranges.
pub proof fn lemma_head_gap_bounded(s: StemsV, o: Object)
    requires
        stems_bounded(s),
        bounded(o.point.x),
    ensures
        match spec_head_gap(s, o) {
            None => true,
            Some(g) => -2 * (crate::fixed::RAW_BOUND as int) <= g.raw <= 2 * (
            crate::fixed::RAW_BOUND as int),
        },
{
    if s.high.stems.len() > 0 {
        assert(stem_bounded(s.high.stems[s.high.stems.len() - 1]));
    }
    if s.low.stems.len() > 0 {
        assert(stem_bounded(s.low.stems[s.low.stems.len() - 1]));
    }
    if s.mid.stems.len() > 0 {
        assert(stem_bounded(s.mid.stems[s.mid.stems.len() - 1]));
    }
}

} // verus!
