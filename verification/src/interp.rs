//! The vector stream interpreter: walks a sequence of drawing operations,
//! resolves the graphics-state stack and the current transformation matrix,
//! and emits canonical geometry and typed point symbols in page coordinates.

use vstd::prelude::*;

use crate::fixed::Fixed;
use crate::geom::{spec_build, HorzLine, Line, Object, Point, Polygon, PolygonRes, Quadrangle, Type, VertLine};
use crate::matrix::{mul_fits, mul_i, xform_fits, xform_x, xform_y, Matrix, Vector};

verus! {

/// Largest magnitude, in raw fixed-point units, that a page coordinate may
/// take. Geometry beyond it is rejected so that every later computation of
/// the pipeline stays far from the integer limits.
pub const COORD_LIMIT: i64 = 1_000_000_000_000;

/// The fatal conditions of the interpreter (and of the surrounding stream
/// handling, whose variants the container reader shares).
#[derive(Clone, Copy, Debug, PartialEq, Eq, Structural)]
pub enum Error {
    /// The stream dictionary is malformed.
    Dict,
    /// An operand is not of the shape the operator expects.
    Object,
    /// An operator carries the wrong number of operands, or an operand
    /// produces geometry beyond the coordinate limit.
    Operand,
    /// The stream has no content.
    NoContent,
    /// An operator is not recognised.
    NotSupported,
    /// A path was finished with an unsupported number of segments.
    PathShape,
    /// A graphics-state restore with no saved state.
    StackUnderflow,
}

/// One operand of a drawing operation: a number (already narrowed to fixed
/// point at the boundary), a byte string, or anything else.
#[derive(Debug)]
pub enum Operand {
    Num(Fixed),
    Str(Vec<u8>),
    Other,
}

/// One drawing operation: an operator name and its operands.
#[derive(Debug)]
pub struct Op {
    pub name: Vec<u8>,
    pub operands: Vec<Operand>,
}

/// The classified operator.
#[derive(Clone, Copy, Debug, PartialEq, Eq, Structural)]
pub enum OpKind {
    /// `m`: finish the current path and start a new one.
    Move,
    /// `l`: append a segment to the current path.
    LineTo,
    /// `c`: a cubic curve; operands are validated, the curve is ignored.
    Curve,
    /// `h`: finish the current path.
    Close,
    /// `q`: push the current transformation matrix.
    Save,
    /// `Q`: pop the graphics-state stack.
    Restore,
    /// `cm`: concatenate a matrix onto the current transformation matrix.
    Concat,
    /// `Tm`: set the text matrix.
    TextMatrix,
    /// `Td`: set the text displacement.
    TextPos,
    /// `Tj`: show a string, possibly emitting a symbol.
    ShowText,
    /// An operator with no geometric effect.
    Ignored,
    /// Anything else: fatal.
    Unknown,
}

/// Classifies an operator name.
pub open spec fn spec_op_kind(name: Seq<u8>) -> OpKind {
    if name.len() == 1 {
        if name[0] == 109 {  // m
            OpKind::Move
        } else if name[0] == 108 {  // l
            OpKind::LineTo
        } else if name[0] == 99 {  // c
            OpKind::Curve
        } else if name[0] == 104 {  // h
            OpKind::Close
        } else if name[0] == 113 {  // q
            OpKind::Save
        } else if name[0] == 81 {  // Q
            OpKind::Restore
        } else if name[0] == 119 || name[0] == 74 || name[0] == 106 || name[0] == 100 || name[0]
            == 83 || name[0] == 110 {  // w J j d S n
            OpKind::Ignored
        } else {
            OpKind::Unknown
        }
    } else if name.len() == 2 {
        if name[0] == 99 && name[1] == 109 {  // cm
            OpKind::Concat
        } else if name[0] == 84 && name[1] == 109 {  // Tm
            OpKind::TextMatrix
        } else if name[0] == 84 && name[1] == 100 {  // Td
            OpKind::TextPos
        } else if name[0] == 84 && name[1] == 106 {  // Tj
            OpKind::ShowText
        } else if (name[0] == 103 && name[1] == 115)  // gs
            || (name[0] == 99 && name[1] == 115)  // cs
            || (name[0] == 67 && name[1] == 83)  // CS
            || (name[0] == 66 && name[1] == 42)  // B*
            || (name[0] == 102 && name[1] == 42)  // f*
            || (name[0] == 68 && name[1] == 111)  // Do
            || (name[0] == 87 && name[1] == 42)  // W*
            || (name[0] == 66 && name[1] == 84)  // BT
            || (name[0] == 69 && name[1] == 84)  // ET
            || (name[0] == 84 && name[1] == 102) {  // Tf
            OpKind::Ignored
        } else {
            OpKind::Unknown
        }
    } else if name.len() == 3 {
        if (name[0] == 83 && name[1] == 67 && name[2] == 78)  // SCN
            || (name[0] == 115 && name[1] == 99 && name[2] == 110) {  // scn
            OpKind::Ignored
        } else {
            OpKind::Unknown
        }
    } else {
        OpKind::Unknown
    }
}

/// Executable classification of an operator name.
pub fn op_kind(name: &Vec<u8>) -> (k: OpKind)
    ensures
        k == spec_op_kind(name@),
{
    if name.len() == 1 {
        let c = name[0];
        if c == 109 {
            OpKind::Move
        } else if c == 108 {
            OpKind::LineTo
        } else if c == 99 {
            OpKind::Curve
        } else if c == 104 {
            OpKind::Close
        } else if c == 113 {
            OpKind::Save
        } else if c == 81 {
            OpKind::Restore
        } else if c == 119 || c == 74 || c == 106 || c == 100 || c == 83 || c == 110 {
            OpKind::Ignored
        } else {
            OpKind::Unknown
        }
    } else if name.len() == 2 {
        let c0 = name[0];
        let c1 = name[1];
        if c0 == 99 && c1 == 109 {
            OpKind::Concat
        } else if c0 == 84 && c1 == 109 {
            OpKind::TextMatrix
        } else if c0 == 84 && c1 == 100 {
            OpKind::TextPos
        } else if c0 == 84 && c1 == 106 {
            OpKind::ShowText
        } else if (c0 == 103 && c1 == 115) || (c0 == 99 && c1 == 115) || (c0 == 67 && c1 == 83) || (
        c0 == 66 && c1 == 42) || (c0 == 102 && c1 == 42) || (c0 == 68 && c1 == 111) || (c0 == 87
            && c1 == 42) || (c0 == 66 && c1 == 84) || (c0 == 69 && c1 == 84) || (c0 == 84 && c1
            == 102) {
            OpKind::Ignored
        } else {
            OpKind::Unknown
        }
    } else if name.len() == 3 {
        let c0 = name[0];
        let c1 = name[1];
        let c2 = name[2];
        if (c0 == 83 && c1 == 67 && c2 == 78) || (c0 == 115 && c1 == 99 && c2 == 110) {
            OpKind::Ignored
        } else {
            OpKind::Unknown
        }
    } else {
        OpKind::Unknown
    }
}

/// The numeric payload of an operand (zero for the other shapes).
pub open spec fn op_num(o: Operand) -> Fixed {
    match o {
        Operand::Num(f) => f,
        _ => Fixed { raw: 0 },
    }
}

/// Reads two numeric operands: any non-numeric operand is an `Object`
/// error, the wrong count an `Operand` error.
pub open spec fn spec_nums2(args: Seq<Operand>) -> Result<(Fixed, Fixed), Error> {
    if exists|j: int| 0 <= j < args.len() && !(args[j] is Num) {
        Err(Error::Object)
    } else if args.len() != 2 {
        Err(Error::Operand)
    } else {
        Ok((op_num(args[0]), op_num(args[1])))
    }
}

/// Reads six numeric operands, as [`spec_nums2`] does two.
pub open spec fn spec_nums6(args: Seq<Operand>) -> Result<
    (Fixed, Fixed, Fixed, Fixed, Fixed, Fixed),
    Error,
> {
    if exists|j: int| 0 <= j < args.len() && !(args[j] is Num) {
        Err(Error::Object)
    } else if args.len() != 6 {
        Err(Error::Operand)
    } else {
        Ok(
            (
                op_num(args[0]),
                op_num(args[1]),
                op_num(args[2]),
                op_num(args[3]),
                op_num(args[4]),
                op_num(args[5]),
            ),
        )
    }
}

fn read_nums2(args: &Vec<Operand>) -> (r: Result<(Fixed, Fixed), Error>)
    ensures
        r == spec_nums2(args@),
{
    let mut i: usize = 0;
    while i < args.len()
        invariant
            i <= args@.len(),
            forall|j: int| 0 <= j < i ==> args@[j] is Num,
        decreases args@.len() - i,
    {
        match &args[i] {
            Operand::Num(_) => {},
            _ => {
                return Err(Error::Object);
            },
        }
        i += 1;
    }
    if args.len() != 2 {
        return Err(Error::Operand);
    }
    let x = match &args[0] {
        Operand::Num(f) => *f,
        _ => {
            proof {
                assert(false);
            }
            Fixed { raw: 0 }
        },
    };
    let y = match &args[1] {
        Operand::Num(f) => *f,
        _ => {
            proof {
                assert(false);
            }
            Fixed { raw: 0 }
        },
    };
    Ok((x, y))
}

fn read_num_at(args: &Vec<Operand>, i: usize) -> (r: Fixed)
    requires
        i < args@.len(),
        args@[i as int] is Num,
    ensures
        r == op_num(args@[i as int]),
{
    match &args[i] {
        Operand::Num(f) => *f,
        _ => {
            proof {
                assert(false);
            }
            Fixed { raw: 0 }
        },
    }
}

fn read_nums6(args: &Vec<Operand>) -> (r: Result<(Fixed, Fixed, Fixed, Fixed, Fixed, Fixed), Error>)
    ensures
        r == spec_nums6(args@),
{
    let mut i: usize = 0;
    while i < args.len()
        invariant
            i <= args@.len(),
            forall|j: int| 0 <= j < i ==> args@[j] is Num,
        decreases args@.len() - i,
    {
        match &args[i] {
            Operand::Num(_) => {},
            _ => {
                return Err(Error::Object);
            },
        }
        i += 1;
    }
    if args.len() != 6 {
        return Err(Error::Operand);
    }
    Ok(
        (
            read_num_at(args, 0),
            read_num_at(args, 1),
            read_num_at(args, 2),
            read_num_at(args, 3),
            read_num_at(args, 4),
            read_num_at(args, 5),
        ),
    )
}

/// The symbol class a shown string stands for, by its glyph codepoint.
pub open spec fn spec_symbol(bytes: Seq<u8>) -> Option<Type> {
    if bytes.len() == 2 && bytes[0] == 0 {
        if bytes[1] == 7 {
            Some(Type::Head(4))
        } else if bytes[1] == 8 {
            Some(Type::Wing(8))
        } else if bytes[1] == 9 {
            Some(Type::Rest(8))
        } else if bytes[1] == 10 {
            Some(Type::Head(1))
        } else if bytes[1] == 16 {
            Some(Type::Head(2))
        } else if bytes[1] == 3 {
            Some(Type::Rest(1))
        } else {
            None
        }
    } else {
        None
    }
}

fn symbol_of(bytes: &Vec<u8>) -> (r: Option<Type>)
    ensures
        r == spec_symbol(bytes@),
{
    if bytes.len() == 2 && bytes[0] == 0 {
        let c = bytes[1];
        if c == 7 {
            Some(Type::Head(4))
        } else if c == 8 {
            Some(Type::Wing(8))
        } else if c == 9 {
            Some(Type::Rest(8))
        } else if c == 10 {
            Some(Type::Head(1))
        } else if c == 16 {
            Some(Type::Head(2))
        } else if c == 3 {
            Some(Type::Rest(1))
        } else {
            None
        }
    } else {
        None
    }
}

/// The collected output of the interpreter, as mathematical sequences. The
/// four line collections behave as sets: an exact duplicate is not inserted
/// again.
pub ghost struct OutV {
    pub horz_lines: Seq<HorzLine>,
    pub vert_lines: Seq<VertLine>,
    pub lines: Seq<Line>,
    pub quadras: Seq<Quadrangle>,
    pub objects: Seq<Object>,
}

/// A path under construction, as mathematics.
pub ghost struct PolyV {
    pub lines: Seq<Line>,
    pub point: Point,
}

/// The whole interpreter state, as mathematics.
pub ghost struct StateV {
    pub ctm: Matrix,
    pub tm: Matrix,
    pub td_x: Fixed,
    pub td_y: Fixed,
    pub stack: Seq<Matrix>,
    pub path: Option<PolyV>,
    pub out: OutV,
}

/// Set-like insertion: already-present values are not duplicated.
pub open spec fn insert_unique<T>(s: Seq<T>, v: T) -> Seq<T> {
    if s.contains(v) {
        s
    } else {
        s.push(v)
    }
}

/// Routes a finished path into the collection for its classification.
pub open spec fn put_res(o: OutV, r: PolygonRes) -> OutV {
    match r {
        PolygonRes::HorzLine(h) => OutV { horz_lines: insert_unique(o.horz_lines, h), ..o },
        PolygonRes::VertLine(v) => OutV { vert_lines: insert_unique(o.vert_lines, v), ..o },
        PolygonRes::Line(l) => OutV { lines: insert_unique(o.lines, l), ..o },
        PolygonRes::Quadrangle(q) => OutV { quadras: insert_unique(o.quadras, q), ..o },
        PolygonRes::Empty => o,
    }
}

/// Finishes the current path, if any: classifies it and stores the result.
/// An unsupported segment count is fatal. The path slot itself is left for
/// the caller to reset or replace.
pub open spec fn finalize_path(st: StateV) -> Result<StateV, Error> {
    match st.path {
        None => Ok(st),
        Some(p) => match spec_build(p.lines) {
            None => Err(Error::PathShape),
            Some(r) => Ok(StateV { out: put_res(st.out, r), ..st }),
        },
    }
}

/// Whether a transformed point lies within the coordinate limit.
pub open spec fn in_limit(x: int, y: int) -> bool {
    &&& -(COORD_LIMIT as int) <= x <= COORD_LIMIT as int
    &&& -(COORD_LIMIT as int) <= y <= COORD_LIMIT as int
}

/// Applies `m` to `(x, y)`; an overflowed intermediate or a result beyond
/// the coordinate limit is an `Operand` error.
pub open spec fn spec_transform_limited(m: Matrix, x: Fixed, y: Fixed) -> Result<Point, Error> {
    if !xform_fits(m.v(), x.raw as int, y.raw as int) {
        Err(Error::Operand)
    } else {
        let px = xform_x(m.v(), x.raw as int, y.raw as int);
        let py = xform_y(m.v(), x.raw as int, y.raw as int);
        if !in_limit(px, py) {
            Err(Error::Operand)
        } else {
            Ok(Point { x: Fixed { raw: px as i64 }, y: Fixed { raw: py as i64 } })
        }
    }
}

fn transform_limited(m: &Matrix, x: Fixed, y: Fixed) -> (r: Result<Point, Error>)
    ensures
        r == spec_transform_limited(*m, x, y),
{
    match m.transform(x, y) {
        None => Err(Error::Operand),
        Some(p) => {
            if p.x.raw >= -COORD_LIMIT && p.x.raw <= COORD_LIMIT && p.y.raw >= -COORD_LIMIT
                && p.y.raw <= COORD_LIMIT {
                Ok(p)
            } else {
                Err(Error::Operand)
            }
        },
    }
}

/// Applies `m` to `(x, y)` with only the overflow check, not the coordinate
/// limit; used for the intermediate text-space position.
pub open spec fn spec_transform_checked(m: Matrix, x: Fixed, y: Fixed) -> Result<Point, Error> {
    if !xform_fits(m.v(), x.raw as int, y.raw as int) {
        Err(Error::Operand)
    } else {
        Ok(
            Point {
                x: Fixed { raw: xform_x(m.v(), x.raw as int, y.raw as int) as i64 },
                y: Fixed { raw: xform_y(m.v(), x.raw as int, y.raw as int) as i64 },
            },
        )
    }
}

fn transform_checked(m: &Matrix, x: Fixed, y: Fixed) -> (r: Result<Point, Error>)
    ensures
        r == spec_transform_checked(*m, x, y),
{
    match m.transform(x, y) {
        None => Err(Error::Operand),
        Some(p) => Ok(p),
    }
}

/// Composes `a` with `b`; an overflowed intermediate is an `Operand` error.
pub open spec fn spec_mul_checked(a: Matrix, b: Matrix) -> Result<Matrix, Error> {
    if !mul_fits(a.v(), b.v()) {
        Err(Error::Operand)
    } else {
        Ok(
            Matrix {
                r0: Vector {
                    a: Fixed { raw: mul_i(a.v(), b.v()).m00 as i64 },
                    b: Fixed { raw: mul_i(a.v(), b.v()).m01 as i64 },
                    c: Fixed { raw: mul_i(a.v(), b.v()).m02 as i64 },
                },
                r1: Vector {
                    a: Fixed { raw: mul_i(a.v(), b.v()).m10 as i64 },
                    b: Fixed { raw: mul_i(a.v(), b.v()).m11 as i64 },
                    c: Fixed { raw: mul_i(a.v(), b.v()).m12 as i64 },
                },
            },
        )
    }
}

/// One step of the interpreter on the operation `(name, args)`.
pub open spec fn spec_step(st: StateV, name: Seq<u8>, args: Seq<Operand>) -> Result<StateV, Error> {
    match spec_op_kind(name) {
        OpKind::Move => match spec_nums2(args) {
            Err(e) => Err(e),
            Ok((x, y)) => match spec_transform_limited(st.ctm, x, y) {
                Err(e) => Err(e),
                Ok(p) => match finalize_path(st) {
                    Err(e) => Err(e),
                    Ok(st1) => Ok(
                        StateV { path: Some(PolyV { lines: Seq::empty(), point: p }), ..st1 },
                    ),
                },
            },
        },
        OpKind::LineTo => match spec_nums2(args) {
            Err(e) => Err(e),
            Ok((x, y)) => match spec_transform_limited(st.ctm, x, y) {
                Err(e) => Err(e),
                Ok(p) => match st.path {
                    None => Ok(st),
                    Some(poly) => Ok(
                        StateV {
                            path: Some(
                                PolyV {
                                    lines: poly.lines.push(
                                        Line {
                                            x1: poly.point.x,
                                            y1: poly.point.y,
                                            x2: p.x,
                                            y2: p.y,
                                        },
                                    ),
                                    point: p,
                                },
                            ),
                            ..st
                        },
                    ),
                },
            },
        },
        OpKind::Curve => match spec_nums6(args) {
            Err(e) => Err(e),
            Ok(_) => Ok(st),
        },
        OpKind::Close => match finalize_path(st) {
            Err(e) => Err(e),
            Ok(st1) => Ok(StateV { path: None, ..st1 }),
        },
        OpKind::Save => Ok(StateV { stack: st.stack.push(st.ctm), ..st }),
        OpKind::Restore => {
            if st.stack.len() == 0 {
                Err(Error::StackUnderflow)
            } else {
                Ok(StateV { ctm: st.stack.last(), stack: st.stack.drop_last(), ..st })
            }
        },
        OpKind::Concat => match spec_nums6(args) {
            Err(e) => Err(e),
            Ok((a, b, c, d, e, f)) => match spec_mul_checked(
                st.ctm,
                Matrix { r0: Vector { a, b: c, c: e }, r1: Vector { a: b, b: d, c: f } },
            ) {
                Err(err) => Err(err),
                Ok(m) => Ok(StateV { ctm: m, ..st }),
            },
        },
        OpKind::TextMatrix => match spec_nums6(args) {
            Err(e) => Err(e),
            Ok((a, b, c, d, e, f)) => Ok(
                StateV {
                    tm: Matrix { r0: Vector { a, b: c, c: e }, r1: Vector { a: b, b: d, c: f } },
                    ..st
                },
            ),
        },
        OpKind::TextPos => match spec_nums2(args) {
            Err(e) => Err(e),
            Ok((x, y)) => Ok(StateV { td_x: x, td_y: y, ..st }),
        },
        OpKind::ShowText => {
            if args.len() == 0 {
                Err(Error::Operand)
            } else {
                match args[0] {
                    Operand::Str(bytes) => match spec_transform_checked(st.tm, st.td_x, st.td_y) {
                        Err(e) => Err(e),
                        Ok(p1) => match spec_transform_limited(st.ctm, p1.x, p1.y) {
                            Err(e) => Err(e),
                            Ok(p2) => match spec_symbol(bytes@) {
                                None => Ok(st),
                                Some(t) => Ok(
                                    StateV {
                                        out: OutV {
                                            objects: st.out.objects.push(Object { t, point: p2 }),
                                            ..st.out
                                        },
                                        ..st
                                    },
                                ),
                            },
                        },
                    },
                    _ => Ok(st),
                }
            }
        },
        OpKind::Ignored => Ok(st),
        OpKind::Unknown => Err(Error::NotSupported),
    }
}

/// Runs the interpreter over a whole operation sequence.
pub open spec fn spec_run_ops(st: StateV, ops: Seq<Op>) -> Result<StateV, Error>
    decreases ops.len(),
{
    if ops.len() == 0 {
        Ok(st)
    } else {
        match spec_step(st, ops[0].name@, ops[0].operands@) {
            Err(e) => Err(e),
            Ok(st1) => spec_run_ops(st1, ops.drop_first()),
        }
    }
}

/// The initial interpreter state: both matrices at the design-space
/// identity for the page height, an empty graphics-state stack (so a
/// restore with no preceding save is fatal), no text displacement, no
/// path, nothing collected.
pub open spec fn init_state(height: Fixed) -> StateV {
    let id = Matrix {
        r0: Vector { a: Fixed { raw: crate::fixed::SCALE }, b: Fixed { raw: 0 }, c: Fixed { raw: 0 } },
        r1: Vector {
            a: Fixed { raw: 0 },
            b: Fixed { raw: (-(crate::fixed::SCALE as int)) as i64 },
            c: height,
        },
    };
    StateV {
        ctm: id,
        tm: id,
        td_x: Fixed { raw: 0 },
        td_y: Fixed { raw: 0 },
        stack: Seq::empty(),
        path: None,
        out: OutV {
            horz_lines: Seq::empty(),
            vert_lines: Seq::empty(),
            lines: Seq::empty(),
            quadras: Seq::empty(),
            objects: Seq::empty(),
        },
    }
}

/// The whole interpretation of a stream: the operations run in order from
/// the initial state, and a path still open at the end of the stream is
/// finished exactly as a close would finish it.
pub open spec fn spec_parse(ops: Seq<Op>, height: Fixed) -> Result<OutV, Error> {
    match spec_run_ops(init_state(height), ops) {
        Err(e) => Err(e),
        Ok(st) => match finalize_path(st) {
            Err(e) => Err(e),
            Ok(st2) => Ok(st2.out),
        },
    }
}

/// The collected output of the interpreter. The four line collections
/// behave as sets of exact geometry; `objects` keeps emission order.
#[derive(Debug)]
pub struct Parser {
    pub horz_lines: Vec<HorzLine>,
    pub vert_lines: Vec<VertLine>,
    pub lines: Vec<Line>,
    pub quadras: Vec<Quadrangle>,
    pub objects: Vec<Object>,
}

impl View for Parser {
    type V = OutV;

    open spec fn view(&self) -> OutV {
        OutV {
            horz_lines: self.horz_lines@,
            vert_lines: self.vert_lines@,
            lines: self.lines@,
            quadras: self.quadras@,
            objects: self.objects@,
        }
    }
}

/// The executable interpreter state.
struct State {
    ctm: Matrix,
    tm: Matrix,
    td_x: Fixed,
    td_y: Fixed,
    stack: Vec<Matrix>,
    path: Option<Polygon>,
    out: Parser,
}

impl State {
    spec fn v(&self) -> StateV {
        StateV {
            ctm: self.ctm,
            tm: self.tm,
            td_x: self.td_x,
            td_y: self.td_y,
            stack: self.stack@,
            path: match self.path {
                None => None,
                Some(p) => Some(PolyV { lines: p.lines@, point: p.point }),
            },
            out: self.out@,
        }
    }
}

fn insert_horz(v: &mut Vec<HorzLine>, h: HorzLine)
    ensures
        final (v)@ == insert_unique(old(v)@, h),
{
    let mut i: usize = 0;
    while i < v.len()
        invariant
            i <= v@.len(),
            v == old(v),
            forall|j: int| 0 <= j < i ==> v@[j] != h,
        decreases v@.len() - i,
    {
        if v[i] == h {
            assert(v@.contains(h));
            return ;
        }
        i += 1;
    }
    assert(!v@.contains(h));
    v.push(h);
}

fn insert_vert(v: &mut Vec<VertLine>, h: VertLine)
    ensures
        final (v)@ == insert_unique(old(v)@, h),
{
    let mut i: usize = 0;
    while i < v.len()
        invariant
            i <= v@.len(),
            v == old(v),
            forall|j: int| 0 <= j < i ==> v@[j] != h,
        decreases v@.len() - i,
    {
        if v[i] == h {
            assert(v@.contains(h));
            return ;
        }
        i += 1;
    }
    assert(!v@.contains(h));
    v.push(h);
}

fn insert_line(v: &mut Vec<Line>, h: Line)
    ensures
        final (v)@ == insert_unique(old(v)@, h),
{
    let mut i: usize = 0;
    while i < v.len()
        invariant
            i <= v@.len(),
            v == old(v),
            forall|j: int| 0 <= j < i ==> v@[j] != h,
        decreases v@.len() - i,
    {
        if v[i] == h {
            assert(v@.contains(h));
            return ;
        }
        i += 1;
    }
    assert(!v@.contains(h));
    v.push(h);
}

fn insert_quad(v: &mut Vec<Quadrangle>, h: Quadrangle)
    ensures
        final (v)@ == insert_unique(old(v)@, h),
{
    let mut i: usize = 0;
    while i < v.len()
        invariant
            i <= v@.len(),
            v == old(v),
            forall|j: int| 0 <= j < i ==> v@[j] != h,
        decreases v@.len() - i,
    {
        if v[i] == h {
            assert(v@.contains(h));
            return ;
        }
        i += 1;
    }
    assert(!v@.contains(h));
    v.push(h);
}

impl State {
    /// Finishes the current path, if any, leaving the path slot untouched.
    fn finalize(&mut self) -> (r: Result<(), Error>)
        ensures
            match finalize_path(old(self).v()) {
                Ok(st1) => r is Ok && final (self).v() == st1,
                Err(e) => r == Err::<(), Error>(e),
            },
    {
        let res = match &self.path {
            None => {
                return Ok(());
            },
            Some(p) => p.build(),
        };
        match res {
            None => Err(Error::PathShape),
            Some(PolygonRes::HorzLine(h)) => {
                insert_horz(&mut self.out.horz_lines, h);
                Ok(())
            },
            Some(PolygonRes::VertLine(vl)) => {
                insert_vert(&mut self.out.vert_lines, vl);
                Ok(())
            },
            Some(PolygonRes::Line(l)) => {
                insert_line(&mut self.out.lines, l);
                Ok(())
            },
            Some(PolygonRes::Quadrangle(q)) => {
                insert_quad(&mut self.out.quadras, q);
                Ok(())
            },
            Some(PolygonRes::Empty) => Ok(()),
        }
    }

    /// One step of the interpreter.
    fn step(&mut self, op: &Op) -> (r: Result<(), Error>)
        ensures
            match spec_step(old(self).v(), op.name@, op.operands@) {
                Ok(st1) => r is Ok && final (self).v() == st1,
                Err(e) => r == Err::<(), Error>(e),
            },
    {
        match op_kind(&op.name) {
            OpKind::Move => {
                let (x, y) = match read_nums2(&op.operands) {
                    Ok(v) => v,
                    Err(e) => {
                        return Err(e);
                    },
                };
                let p = match transform_limited(&self.ctm, x, y) {
                    Ok(v) => v,
                    Err(e) => {
                        return Err(e);
                    },
                };
                match self.finalize() {
                    Ok(()) => {},
                    Err(e) => {
                        return Err(e);
                    },
                }
                self.path = Some(Polygon { lines: Vec::new(), point: p });
                Ok(())
            },
            OpKind::LineTo => {
                let (x, y) = match read_nums2(&op.operands) {
                    Ok(v) => v,
                    Err(e) => {
                        return Err(e);
                    },
                };
                let p = match transform_limited(&self.ctm, x, y) {
                    Ok(v) => v,
                    Err(e) => {
                        return Err(e);
                    },
                };
                match &mut self.path {
                    None => {},
                    Some(poly) => {
                        poly.push(p.x, p.y);
                    },
                }
                Ok(())
            },
            OpKind::Curve => {
                match read_nums6(&op.operands) {
                    Ok(_) => Ok(()),
                    Err(e) => Err(e),
                }
            },
            OpKind::Close => {
                match self.finalize() {
                    Ok(()) => {},
                    Err(e) => {
                        return Err(e);
                    },
                }
                self.path = None;
                Ok(())
            },
            OpKind::Save => {
                let m = self.ctm;
                self.stack.push(m);
                Ok(())
            },
            OpKind::Restore => {
                match self.stack.pop() {
                    None => Err(Error::StackUnderflow),
                    Some(m) => {
                        self.ctm = m;
                        Ok(())
                    },
                }
            },
            OpKind::Concat => {
                let (a, b, c, d, e, f) = match read_nums6(&op.operands) {
                    Ok(v) => v,
                    Err(e) => {
                        return Err(e);
                    },
                };
                let m2 = Matrix::new(a, b, c, d, e, f);
                match self.ctm.mul(&m2) {
                    None => Err(Error::Operand),
                    Some(m) => {
                        self.ctm = m;
                        Ok(())
                    },
                }
            },
            OpKind::TextMatrix => {
                let (a, b, c, d, e, f) = match read_nums6(&op.operands) {
                    Ok(v) => v,
                    Err(e) => {
                        return Err(e);
                    },
                };
                self.tm = Matrix::new(a, b, c, d, e, f);
                Ok(())
            },
            OpKind::TextPos => {
                let (x, y) = match read_nums2(&op.operands) {
                    Ok(v) => v,
                    Err(e) => {
                        return Err(e);
                    },
                };
                self.td_x = x;
                self.td_y = y;
                Ok(())
            },
            OpKind::ShowText => {
                if op.operands.len() == 0 {
                    return Err(Error::Operand);
                }
                let bytes = match &op.operands[0] {
                    Operand::Str(bytes) => bytes,
                    _ => {
                        return Ok(());
                    },
                };
                let p1 = match transform_checked(&self.tm, self.td_x, self.td_y) {
                    Ok(v) => v,
                    Err(e) => {
                        return Err(e);
                    },
                };
                let p2 = match transform_limited(&self.ctm, p1.x, p1.y) {
                    Ok(v) => v,
                    Err(e) => {
                        return Err(e);
                    },
                };
                match symbol_of(bytes) {
                    None => Ok(()),
                    Some(t) => {
                        self.out.objects.push(Object { t, point: p2 });
                        Ok(())
                    },
                }
            },
            OpKind::Ignored => Ok(()),
            OpKind::Unknown => Err(Error::NotSupported),
        }
    }
}

impl Parser {
    /// Interprets a whole operation stream on a page `height` units tall.
    /// On success the collected geometry is returned; the first fatal
    /// condition aborts the page instead. A path still open at the end of
    /// the stream is finished exactly as a close would finish it.
    pub fn new(ops: &Vec<Op>, height: Fixed) -> (r: Result<Parser, Error>)
        ensures
            match spec_parse(ops@, height) {
                Ok(o) => r matches Ok(p) && p@ == o && out_ok(o),
                Err(e) => r == Err::<Parser, Error>(e),
            },
    {
        let id = Matrix::identity(height);
        let stack: Vec<Matrix> = Vec::new();
        let mut st = State {
            ctm: id,
            tm: id,
            td_x: Fixed { raw: 0 },
            td_y: Fixed { raw: 0 },
            stack,
            path: None,
            out: Parser {
                horz_lines: Vec::new(),
                vert_lines: Vec::new(),
                lines: Vec::new(),
                quadras: Vec::new(),
                objects: Vec::new(),
            },
        };
        assert(st.v() == init_state(height)) by {
            assert(st.v().stack =~= init_state(height).stack);
            assert(st.v().out.horz_lines =~= init_state(height).out.horz_lines);
            assert(st.v().out.vert_lines =~= init_state(height).out.vert_lines);
            assert(st.v().out.lines =~= init_state(height).out.lines);
            assert(st.v().out.quadras =~= init_state(height).out.quadras);
            assert(st.v().out.objects =~= init_state(height).out.objects);
        }
        proof {
            assert(ops@.skip(0) =~= ops@);
        }
        let mut i: usize = 0;
        while i < ops.len()
            invariant
                i <= ops@.len(),
                spec_run_ops(init_state(height), ops@) == spec_run_ops(st.v(), ops@.skip(i as int)),
            decreases ops@.len() - i,
        {
            let ghost pre = st.v();
            let op = &ops[i];
            proof {
                assert(ops@.skip(i as int)[0] == ops@[i as int]);
                assert(ops@.skip(i as int).drop_first() =~= ops@.skip(i as int + 1));
            }
            match st.step(op) {
                Ok(()) => {},
                Err(e) => {
                    proof {
                        assert(spec_run_ops(pre, ops@.skip(i as int)) == Err::<StateV, Error>(e));
                    }
                    return Err(e);
                },
            }
            i += 1;
        }
        proof {
            assert(ops@.skip(ops@.len() as int) =~= Seq::<Op>::empty());
            assert(state_ok(init_state(height)));
            lemma_run_ok(init_state(height), ops@);
        }
        let ghost ran = st.v();
        match st.finalize() {
            Ok(()) => {},
            Err(e) => {
                return Err(e);
            },
        }
        proof {
            lemma_finalize_ok(ran);
        }
        let State { out, .. } = st;
        Ok(out)
    }
}


/// A page point within the coordinate limit.
pub open spec fn point_ok(p: Point) -> bool {
    in_limit(p.x.raw as int, p.y.raw as int)
}

/// A segment whose endpoints are both within the coordinate limit.
pub open spec fn line_ok(l: Line) -> bool {
    in_limit(l.x1.raw as int, l.y1.raw as int) && in_limit(l.x2.raw as int, l.y2.raw as int)
}

/// A canonical, bounded horizontal segment.
pub open spec fn horz_ok(h: HorzLine) -> bool {
    &&& h.x1.raw <= h.x2.raw
    &&& in_limit(h.x1.raw as int, h.y.raw as int)
    &&& in_limit(h.x2.raw as int, h.y.raw as int)
}

/// A canonical, bounded vertical segment.
pub open spec fn vert_ok(v: VertLine) -> bool {
    &&& v.y1.raw <= v.y2.raw
    &&& in_limit(v.x.raw as int, v.y1.raw as int)
    &&& in_limit(v.x.raw as int, v.y2.raw as int)
}

/// A quadrangle with all four vertices bounded.
pub open spec fn quad_ok(q: Quadrangle) -> bool {
    point_ok(q.p0) && point_ok(q.p1) && point_ok(q.p2) && point_ok(q.p3)
}

/// Every collected primitive is canonical and bounded.
pub open spec fn out_ok(o: OutV) -> bool {
    &&& forall|i: int| 0 <= i < o.horz_lines.len() ==> #[trigger] horz_ok(o.horz_lines[i])
    &&& forall|i: int| 0 <= i < o.vert_lines.len() ==> #[trigger] vert_ok(o.vert_lines[i])
    &&& forall|i: int| 0 <= i < o.lines.len() ==> #[trigger] line_ok(o.lines[i])
    &&& forall|i: int| 0 <= i < o.quadras.len() ==> #[trigger] quad_ok(o.quadras[i])
    &&& forall|i: int| 0 <= i < o.objects.len() ==> #[trigger] point_ok(o.objects[i].point)
    &&& forall|i: int|
        0 <= i < o.objects.len() ==> crate::geom::emitted_type((#[trigger] o.objects[i]).t)
}

/// A path whose current point and segments are all bounded.
pub open spec fn path_ok(p: PolyV) -> bool {
    &&& point_ok(p.point)
    &&& forall|i: int| 0 <= i < p.lines.len() ==> #[trigger] line_ok(p.lines[i])
}

/// The state invariant of the interpreter: everything collected so far, and
/// the path under construction, is canonical and bounded.
pub open spec fn state_ok(st: StateV) -> bool {
    &&& out_ok(st.out)
    &&& match st.path {
        None => true,
        Some(p) => path_ok(p),
    }
}

/// Classifying a bounded path yields a canonical, bounded primitive.
proof fn lemma_put_res_ok(o: OutV, p: PolyV)
    requires
        out_ok(o),
        path_ok(p),
        spec_build(p.lines) is Some,
    ensures
        out_ok(put_res(o, spec_build(p.lines)->Some_0)),
{
    let r = spec_build(p.lines)->Some_0;
    match r {
        PolygonRes::HorzLine(h) => {
            assert(line_ok(p.lines[0]));
            assert(horz_ok(h));
            let s2 = insert_unique(o.horz_lines, h);
            assert forall|i: int| 0 <= i < s2.len() implies #[trigger] horz_ok(s2[i]) by {
                if i < o.horz_lines.len() {
                    assert(horz_ok(o.horz_lines[i]));
                }
            }
        },
        PolygonRes::VertLine(v) => {
            assert(line_ok(p.lines[0]));
            assert(vert_ok(v));
            let s2 = insert_unique(o.vert_lines, v);
            assert forall|i: int| 0 <= i < s2.len() implies #[trigger] vert_ok(s2[i]) by {
                if i < o.vert_lines.len() {
                    assert(vert_ok(o.vert_lines[i]));
                }
            }
        },
        PolygonRes::Line(l) => {
            assert(line_ok(p.lines[0]));
            let s2 = insert_unique(o.lines, l);
            assert forall|i: int| 0 <= i < s2.len() implies #[trigger] line_ok(s2[i]) by {
                if i < o.lines.len() {
                    assert(line_ok(o.lines[i]));
                }
            }
        },
        PolygonRes::Quadrangle(q) => {
            assert(line_ok(p.lines[0]));
            assert(line_ok(p.lines[1]));
            assert(line_ok(p.lines[2]));
            assert(line_ok(p.lines[3]));
            assert(quad_ok(q));
            let s2 = insert_unique(o.quadras, q);
            assert forall|i: int| 0 <= i < s2.len() implies #[trigger] quad_ok(s2[i]) by {
                if i < o.quadras.len() {
                    assert(quad_ok(o.quadras[i]));
                }
            }
        },
        PolygonRes::Empty => {},
    }
}

/// One successful step keeps the state invariant.
proof fn lemma_step_ok(st: StateV, name: Seq<u8>, args: Seq<Operand>)
    requires
        state_ok(st),
        spec_step(st, name, args) is Ok,
    ensures
        state_ok(spec_step(st, name, args)->Ok_0),
{
    let st2 = spec_step(st, name, args)->Ok_0;
    match spec_op_kind(name) {
        OpKind::Move => {
            match st.path {
                None => {},
                Some(p) => {
                    lemma_put_res_ok(st.out, p);
                },
            }
        },
        OpKind::LineTo => {
            match st.path {
                None => {},
                Some(p) => {
                    let pt = spec_transform_limited(st.ctm, op_num(args[0]), op_num(args[1]))->Ok_0;
                    let l = Line { x1: p.point.x, y1: p.point.y, x2: pt.x, y2: pt.y };
                    assert(line_ok(l));
                    let s2 = p.lines.push(l);
                    assert forall|i: int| 0 <= i < s2.len() implies #[trigger] line_ok(s2[i]) by {
                        if i < p.lines.len() {
                            assert(line_ok(p.lines[i]));
                        }
                    }
                },
            }
        },
        OpKind::Close => {
            match st.path {
                None => {},
                Some(p) => {
                    lemma_put_res_ok(st.out, p);
                },
            }
        },
        OpKind::ShowText => {
            match args[0] {
                Operand::Str(bytes) => {
                    match spec_symbol(bytes@) {
                        None => {},
                        Some(t) => {
                            let p1 = spec_transform_checked(st.tm, st.td_x, st.td_y)->Ok_0;
                            let p2 = spec_transform_limited(st.ctm, p1.x, p1.y)->Ok_0;
                            let s2 = st.out.objects.push(Object { t, point: p2 });
                            assert(crate::geom::emitted_type(t));
                            assert forall|i: int| 0 <= i < s2.len() implies #[trigger] point_ok(
                                s2[i].point,
                            ) by {
                                if i < st.out.objects.len() {
                                    assert(point_ok(st.out.objects[i].point));
                                }
                            }
                            assert forall|i: int|
                                0 <= i < s2.len() implies crate::geom::emitted_type(
                                (#[trigger] s2[i]).t,
                            ) by {
                                if i < st.out.objects.len() {
                                    assert(crate::geom::emitted_type(st.out.objects[i].t));
                                }
                            }
                        },
                    }
                },
                _ => {},
            }
        },
        _ => {},
    }
}

/// A successful run from a well-formed state ends in a well-formed state.
pub proof fn lemma_run_ok(st: StateV, ops: Seq<Op>)
    requires
        state_ok(st),
        spec_run_ops(st, ops) is Ok,
    ensures
        state_ok(spec_run_ops(st, ops)->Ok_0),
    decreases ops.len(),
{
    if ops.len() == 0 {
    } else {
        lemma_step_ok(st, ops[0].name@, ops[0].operands@);
        let st1 = spec_step(st, ops[0].name@, ops[0].operands@)->Ok_0;
        lemma_run_ok(st1, ops.drop_first());
    }
}

/// Finishing the trailing path keeps the state well formed.
proof fn lemma_finalize_ok(st: StateV)
    requires
        state_ok(st),
        finalize_path(st) is Ok,
    ensures
        state_ok(finalize_path(st)->Ok_0),
{
    match st.path {
        None => {},
        Some(p) => {
            lemma_put_res_ok(st.out, p);
        },
    }
}

/// Every vertical line the interpreter emits has `y1 <= y2`, and every
/// horizontal line `x1 <= x2`; all coordinates lie within the limit.
pub proof fn lemma_emitted_lines_canonical(o: OutV)
    requires
        out_ok(o),
    ensures
        forall|i: int|
            0 <= i < o.horz_lines.len() ==> #[trigger] o.horz_lines[i].x1.raw
                <= o.horz_lines[i].x2.raw,
        forall|i: int|
            0 <= i < o.vert_lines.len() ==> #[trigger] o.vert_lines[i].y1.raw
                <= o.vert_lines[i].y2.raw,
{
    assert forall|i: int|
        0 <= i < o.horz_lines.len() implies #[trigger] o.horz_lines[i].x1.raw
        <= o.horz_lines[i].x2.raw by {
        assert(horz_ok(o.horz_lines[i]));
    }
    assert forall|i: int|
        0 <= i < o.vert_lines.len() implies #[trigger] o.vert_lines[i].y1.raw
        <= o.vert_lines[i].y2.raw by {
        assert(vert_ok(o.vert_lines[i]));
    }
}


/// Showing a string that matches no codepoint never changes the state and
/// never emits a symbol: the step either returns the state untouched or,
/// when the glyph position cannot be computed, aborts.
pub proof fn lemma_unrecognised_show_is_silent(st: StateV, name: Seq<u8>, args: Seq<Operand>)
    requires
        spec_op_kind(name) == OpKind::ShowText,
        args.len() > 0,
        args[0] is Str,
        spec_symbol(args[0]->Str_0@) is None,
    ensures
        spec_step(st, name, args) == Ok::<StateV, Error>(st) || spec_step(st, name, args) == Err::<
            StateV,
            Error,
        >(Error::Operand),
{
}

/// Running a concatenation of streams runs the first, then the second
/// from where the first ended.
pub proof fn lemma_run_concat(st: StateV, a: Seq<Op>, b: Seq<Op>)
    ensures
        spec_run_ops(st, a + b) == match spec_run_ops(st, a) {
            Ok(s1) => spec_run_ops(s1, b),
            Err(e) => Err(e),
        },
    decreases a.len(),
{
    if a.len() == 0 {
        assert(a + b =~= b);
    } else {
        assert((a + b)[0] == a[0]);
        assert((a + b).drop_first() =~= a.drop_first() + b);
        match spec_step(st, a[0].name@, a[0].operands@) {
            Err(_) => {},
            Ok(st1) => {
                lemma_run_concat(st1, a.drop_first(), b);
            },
        }
    }
}

/// A show of an unrecognised string can be cut from a stream without
/// changing the run, provided the glyph position computes at that point
/// (when it does not, the run aborts there either way).
pub proof fn lemma_unrecognised_show_elision(st: StateV, pre: Seq<Op>, tj: Op, post: Seq<Op>)
    requires
        spec_op_kind(tj.name@) == OpKind::ShowText,
        tj.operands@.len() > 0,
        tj.operands@[0] is Str,
        spec_symbol(tj.operands@[0]->Str_0@) is None,
        match spec_run_ops(st, pre) {
            Err(_) => true,
            Ok(s1) => spec_transform_checked(s1.tm, s1.td_x, s1.td_y) matches Ok(p1)
                && spec_transform_limited(s1.ctm, p1.x, p1.y) is Ok,
        },
    ensures
        spec_run_ops(st, pre + seq![tj] + post) == spec_run_ops(st, pre + post),
{
    lemma_run_concat(st, pre + seq![tj], post);
    lemma_run_concat(st, pre, seq![tj]);
    lemma_run_concat(st, pre, post);
    assert((pre + seq![tj]) + post =~= pre + seq![tj] + post);
    match spec_run_ops(st, pre) {
        Err(_) => {},
        Ok(s1) => {
            assert(seq![tj][0] == tj);
            assert(seq![tj].drop_first() =~= Seq::<Op>::empty());
            assert(spec_step(s1, tj.name@, tj.operands@) == Ok::<StateV, Error>(s1));
            assert(spec_run_ops(s1, Seq::<Op>::empty()) == Ok::<StateV, Error>(s1));
            assert(spec_run_ops(s1, seq![tj]) == Ok::<StateV, Error>(s1));
        },
    }
}

/// The elision carries over to whole-stream interpretation: cutting the
/// unrecognised show changes neither the result nor the error.
pub proof fn lemma_unrecognised_show_parse(height: Fixed, pre: Seq<Op>, tj: Op, post: Seq<Op>)
    requires
        spec_op_kind(tj.name@) == OpKind::ShowText,
        tj.operands@.len() > 0,
        tj.operands@[0] is Str,
        spec_symbol(tj.operands@[0]->Str_0@) is None,
        match spec_run_ops(init_state(height), pre) {
            Err(_) => true,
            Ok(s1) => spec_transform_checked(s1.tm, s1.td_x, s1.td_y) matches Ok(p1)
                && spec_transform_limited(s1.ctm, p1.x, p1.y) is Ok,
        },
    ensures
        spec_parse(pre + seq![tj] + post, height) == spec_parse(pre + post, height),
{
    lemma_unrecognised_show_elision(init_state(height), pre, tj, post);
}

} // verus!
