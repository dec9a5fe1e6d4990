//! Canonical geometric primitives emitted by the stream interpreter:
//! axis-aligned lines, free lines, quadrangles, and typed point symbols.

use vstd::prelude::*;

use crate::fixed::Fixed;

verus! {

/// The smaller of two fixed-point quantities.
pub open spec fn fmin(a: Fixed, b: Fixed) -> Fixed {
    if a.raw <= b.raw {
        a
    } else {
        b
    }
}

/// The larger of two fixed-point quantities.
pub open spec fn fmax(a: Fixed, b: Fixed) -> Fixed {
    if a.raw <= b.raw {
        b
    } else {
        a
    }
}

/// A segment of arbitrary orientation.
#[derive(Clone, Copy, Debug, PartialEq, Eq, Hash, Structural)]
pub struct Line {
    pub x1: Fixed,
    pub y1: Fixed,
    pub x2: Fixed,
    pub y2: Fixed,
}

impl Line {
    pub fn new(x1: Fixed, y1: Fixed, x2: Fixed, y2: Fixed) -> (r: Line)
        ensures
            r == (Line { x1, y1, x2, y2 }),
    {
        Line { x1, y1, x2, y2 }
    }
}

/// A point in page coordinates.
#[derive(Clone, Copy, Debug, PartialEq, Eq, Hash, Structural)]
pub struct Point {
    pub x: Fixed,
    pub y: Fixed,
}

impl Point {
    pub fn new(x: Fixed, y: Fixed) -> (r: Point)
        ensures
            r == (Point { x, y }),
    {
        Point { x, y }
    }
}

/// A horizontal segment, canonicalised so that `x1 <= x2`.
#[derive(Clone, Copy, Debug, PartialEq, Eq, Hash, Structural)]
pub struct HorzLine {
    pub x1: Fixed,
    pub x2: Fixed,
    pub y: Fixed,
}

impl HorzLine {
    /// Builds the segment with its endpoints ordered, whichever order the
    /// arguments come in.
    pub fn new(x1: Fixed, x2: Fixed, y: Fixed) -> (r: HorzLine)
        ensures
            r == (HorzLine { x1: fmin(x1, x2), x2: fmax(x1, x2), y }),
            r.x1.raw <= r.x2.raw,
    {
        if x1.raw <= x2.raw {
            HorzLine { x1, x2, y }
        } else {
            HorzLine { x1: x2, x2: x1, y }
        }
    }

    /// Length of the segment.
    pub fn len(&self) -> (r: Fixed)
        requires
            self.x1.raw <= self.x2.raw,
            self.x2.raw - self.x1.raw <= i64::MAX,
        ensures
            r.raw == self.x2.raw - self.x1.raw,
    {
        self.x2.sub(self.x1)
    }
}

/// A vertical segment, canonicalised so that `y1 <= y2`.
#[derive(Clone, Copy, Debug, PartialEq, Eq, Hash, Structural)]
pub struct VertLine {
    pub x: Fixed,
    pub y1: Fixed,
    pub y2: Fixed,
}

impl VertLine {
    /// Builds the segment with its endpoints ordered, whichever order the
    /// arguments come in.
    pub fn new(x: Fixed, y1: Fixed, y2: Fixed) -> (r: VertLine)
        ensures
            r == (VertLine { x, y1: fmin(y1, y2), y2: fmax(y1, y2) }),
            r.y1.raw <= r.y2.raw,
    {
        if y1.raw <= y2.raw {
            VertLine { x, y1, y2 }
        } else {
            VertLine { x, y1: y2, y2: y1 }
        }
    }
}

/// Four vertices in encounter order.
#[derive(Clone, Copy, Debug, PartialEq, Eq, Hash, Structural)]
pub struct Quadrangle {
    pub p0: Point,
    pub p1: Point,
    pub p2: Point,
    pub p3: Point,
}

/// The classification of a finished path.
#[derive(Clone, Copy, Debug, PartialEq, Eq, Structural)]
pub enum PolygonRes {
    HorzLine(HorzLine),
    VertLine(VertLine),
    Line(Line),
    Quadrangle(Quadrangle),
    Empty,
}

/// A path under construction: the segments so far and the current point.
#[derive(Debug)]
pub struct Polygon {
    pub lines: Vec<Line>,
    pub point: Point,
}

/// What [`Polygon::build`] returns: single segments are classified by exact
/// endpoint coincidence, four segments become a quadrangle of their starting
/// points, the empty path is a no-op, and any other segment count is
/// unsupported.
pub open spec fn spec_build(lines: Seq<Line>) -> Option<PolygonRes> {
    if lines.len() == 0 {
        Some(PolygonRes::Empty)
    } else if lines.len() == 1 {
        let l = lines[0];
        if l.y1 == l.y2 {
            Some(PolygonRes::HorzLine(HorzLine { x1: fmin(l.x1, l.x2), x2: fmax(l.x1, l.x2), y: l.y1 }))
        } else if l.x1 == l.x2 {
            Some(PolygonRes::VertLine(VertLine { x: l.x1, y1: fmin(l.y1, l.y2), y2: fmax(l.y1, l.y2) }))
        } else {
            Some(PolygonRes::Line(l))
        }
    } else if lines.len() == 4 {
        Some(
            PolygonRes::Quadrangle(
                Quadrangle {
                    p0: Point { x: lines[0].x1, y: lines[0].y1 },
                    p1: Point { x: lines[1].x1, y: lines[1].y1 },
                    p2: Point { x: lines[2].x1, y: lines[2].y1 },
                    p3: Point { x: lines[3].x1, y: lines[3].y1 },
                },
            ),
        )
    } else {
        None
    }
}

impl Polygon {
    /// An empty path starting at `(x, y)`.
    pub fn new(x: Fixed, y: Fixed) -> (r: Polygon)
        ensures
            r.lines@ =~= Seq::<Line>::empty(),
            r.point == (Point { x, y }),
    {
        Polygon { lines: Vec::new(), point: Point { x, y } }
    }

    /// Extends the path with a segment from the current point to `(x, y)`.
    pub fn push(&mut self, x: Fixed, y: Fixed)
        ensures
            final (self).lines@ == old(self).lines@.push(
                Line { x1: old(self).point.x, y1: old(self).point.y, x2: x, y2: y },
            ),
            final (self).point == (Point { x, y }),
    {
        let line = Line { x1: self.point.x, y1: self.point.y, x2: x, y2: y };
        self.lines.push(line);
        self.point = Point { x, y };
    }

    /// Classifies the finished path; `None` for an unsupported segment count.
    pub fn build(&self) -> (r: Option<PolygonRes>)
        ensures
            r == spec_build(self.lines@),
    {
        if self.lines.len() == 0 {
            Some(PolygonRes::Empty)
        } else if self.lines.len() == 1 {
            let l = self.lines[0];
            if l.y1 == l.y2 {
                Some(PolygonRes::HorzLine(HorzLine::new(l.x1, l.x2, l.y1)))
            } else if l.x1 == l.x2 {
                Some(PolygonRes::VertLine(VertLine::new(l.x1, l.y1, l.y2)))
            } else {
                Some(PolygonRes::Line(l))
            }
        } else if self.lines.len() == 4 {
            Some(
                PolygonRes::Quadrangle(
                    Quadrangle {
                        p0: Point { x: self.lines[0].x1, y: self.lines[0].y1 },
                        p1: Point { x: self.lines[1].x1, y: self.lines[1].y1 },
                        p2: Point { x: self.lines[2].x1, y: self.lines[2].y1 },
                        p3: Point { x: self.lines[3].x1, y: self.lines[3].y1 },
                    },
                ),
            )
        } else {
            None
        }
    }
}

/// The recognised symbol classes: noteheads of a given size, duration flags,
/// and rests of a given denominator.
#[derive(Clone, Copy, Debug, PartialEq, Eq, Structural)]
pub enum Type {
    Head(u8),
    Wing(u8),
    Rest(u8),
}

/// A typed point symbol in page coordinates.
#[derive(Clone, Copy, Debug, PartialEq, Eq, Structural)]
pub struct Object {
    pub t: Type,
    pub point: Point,
}

impl Object {
    pub fn new(t: Type, point: Point) -> (r: Object)
        ensures
            r == (Object { t, point }),
    {
        Object { t, point }
    }
}


/// The symbol payloads the interpreter can emit: noteheads of sizes one,
/// two and four, eighth flags, and whole or eighth rests.
pub open spec fn emitted_type(t: Type) -> bool {
    match t {
        Type::Head(s) => s == 1 || s == 2 || s == 4,
        Type::Wing(n) => n == 8,
        Type::Rest(l) => l == 1 || l == 8,
    }
}

} // verus!
