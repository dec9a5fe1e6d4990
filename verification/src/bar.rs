//! A bar of a stanza: the vertical sub-division between two barlines,
//! identified by its leftmost x, owning its symbols and stem stores.

use vstd::prelude::*;

use crate::fixed::{bounded, Fixed};
use crate::geom::{Object, Type};
use crate::stems::{stems_bounded, stems_fresh, Stems, StemsV, StoreV};

verus! {

/// A bar: its leftmost x, the symbols that fall within it, and its stems.
#[derive(Debug)]
pub struct Bar {
    pub x: Fixed,
    pub store: Vec<Object>,
    pub stems: Stems,
}

/// A bar as mathematics.
pub ghost struct BarV {
    pub x: Fixed,
    pub store: Seq<Object>,
    pub stems: StemsV,
}

impl View for Bar {
    type V = BarV;

    open spec fn view(&self) -> BarV {
        BarV { x: self.x, store: self.store@, stems: self.stems@ }
    }
}

/// An empty bar at `x`.
pub open spec fn empty_bar(x: Fixed) -> BarV {
    BarV {
        x,
        store: Seq::empty(),
        stems: StemsV {
            high: StoreV { stems: Seq::empty(), current: None },
            low: StoreV { stems: Seq::empty(), current: None },
            mid: StoreV { stems: Seq::empty(), current: None },
        },
    }
}

/// A symbol the collector can take: coordinates within the working range,
/// and a non-zero denominator on a rest.
pub open spec fn obj_ok(o: Object) -> bool {
    &&& bounded(o.point.x)
    &&& bounded(o.point.y)
    &&& match o.t {
        Type::Rest(l) => l >= 1,
        _ => true,
    }
}

/// A bar whose x, symbols and stems are all within the working range.
pub open spec fn bar_wf(b: BarV) -> bool {
    &&& bounded(b.x)
    &&& forall|i: int| 0 <= i < b.store.len() ==> #[trigger] obj_ok(b.store[i])
    &&& stems_bounded(b.stems)
}

/// A bar none of whose stem stores has picked a current stem yet.
pub open spec fn bar_fresh(b: BarV) -> bool {
    stems_fresh(b.stems)
}

impl Bar {
    /// An empty bar at `x`.
    pub fn new(x: Fixed) -> (r: Bar)
        ensures
            r@.x == x,
            r@.store =~= Seq::<Object>::empty(),
            r@ == empty_bar(x),
    {
        let r = Bar { x, store: Vec::new(), stems: Stems::new() };
        proof {
            assert(r@.store =~= empty_bar(x).store);
            assert(r@.stems.high.stems =~= empty_bar(x).stems.high.stems);
            assert(r@.stems.low.stems =~= empty_bar(x).stems.low.stems);
            assert(r@.stems.mid.stems =~= empty_bar(x).stems.mid.stems);
        }
        r
    }
}

} // verus!
