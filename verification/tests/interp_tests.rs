use staffscan::fixed::Fixed;
use staffscan::geom::{HorzLine, Point, Quadrangle, Type};
use staffscan::interp::{Error, Op, Operand, Parser};

fn whole(v: i64) -> Fixed {
    Fixed::new(v)
}

fn op(name: &str, operands: Vec<Operand>) -> Op {
    Op { name: name.as_bytes().to_vec(), operands }
}

fn num(v: i64) -> Operand {
    Operand::Num(Fixed::new(v))
}

/// Prefix that composes the design-space flip with itself, leaving the
/// mathematical identity as the current transformation matrix.
fn unflip() -> Op {
    op("cm", vec![num(1), num(0), num(0), num(-1), num(0), num(900)])
}

fn parse(ops: Vec<Op>) -> Result<Parser, Error> {
    Parser::new(&ops, whole(900))
}

#[test]
fn single_horizontal_segment() {
    let p = parse(vec![
        unflip(),
        op("m", vec![num(10), num(20)]),
        op("l", vec![num(110), num(20)]),
        op("h", vec![]),
    ])
    .unwrap();
    assert_eq!(p.horz_lines, vec![HorzLine { x1: whole(10), x2: whole(110), y: whole(20) }]);
    assert!(p.vert_lines.is_empty());
    assert!(p.lines.is_empty());
    assert!(p.quadras.is_empty());
}

#[test]
fn reversed_segment_is_canonicalised() {
    // no close: the path still open at the end of the stream is finished
    let p = parse(vec![
        unflip(),
        op("m", vec![num(110), num(20)]),
        op("l", vec![num(10), num(20)]),
    ])
    .unwrap();
    assert_eq!(p.horz_lines, vec![HorzLine { x1: whole(10), x2: whole(110), y: whole(20) }]);
}

#[test]
fn trailing_unsupported_path_is_fatal() {
    // a two-segment path open at the end of the stream fails like a close
    assert_eq!(
        parse(vec![
            op("m", vec![num(0), num(0)]),
            op("l", vec![num(1), num(0)]),
            op("l", vec![num(2), num(0)]),
        ])
        .err(),
        Some(Error::PathShape)
    );
}

#[test]
fn save_restore_scopes_the_matrix() {
    let p = parse(vec![
        unflip(),
        op("q", vec![]),
        op("cm", vec![num(2), num(0), num(0), num(2), num(0), num(0)]),
        op("m", vec![num(0), num(0)]),
        op("l", vec![num(1), num(0)]),
        op("h", vec![]),
        op("Q", vec![]),
        op("m", vec![num(0), num(0)]),
        op("l", vec![num(1), num(0)]),
        op("h", vec![]),
    ])
    .unwrap();
    assert_eq!(
        p.horz_lines,
        vec![
            HorzLine { x1: whole(0), x2: whole(2), y: whole(0) },
            HorzLine { x1: whole(0), x2: whole(1), y: whole(0) },
        ]
    );
}

#[test]
fn closed_four_segment_path_is_a_quadrangle() {
    let p = parse(vec![
        unflip(),
        op("m", vec![num(0), num(0)]),
        op("l", vec![num(10), num(0)]),
        op("l", vec![num(10), num(10)]),
        op("l", vec![num(0), num(10)]),
        op("l", vec![num(0), num(0)]),
        op("h", vec![]),
    ])
    .unwrap();
    assert_eq!(
        p.quadras,
        vec![Quadrangle {
            p0: Point { x: whole(0), y: whole(0) },
            p1: Point { x: whole(10), y: whole(0) },
            p2: Point { x: whole(10), y: whole(10) },
            p3: Point { x: whole(0), y: whole(10) },
        }]
    );
    assert!(p.horz_lines.is_empty());
}

#[test]
fn unrecognised_show_string_is_silent() {
    let p = parse(vec![
        unflip(),
        op("Tm", vec![num(1), num(0), num(0), num(1), num(0), num(0)]),
        op("Td", vec![num(5), num(7)]),
        op("Tj", vec![Operand::Str(vec![9, 9])]),
    ])
    .unwrap();
    assert!(p.objects.is_empty());
}

#[test]
fn recognised_show_string_emits_a_symbol() {
    let p = parse(vec![
        unflip(),
        op("Tm", vec![num(1), num(0), num(0), num(1), num(0), num(0)]),
        op("Td", vec![num(5), num(7)]),
        op("Tj", vec![Operand::Str(vec![0, 7])]),
        op("Tj", vec![Operand::Str(vec![0, 10])]),
    ])
    .unwrap();
    assert_eq!(p.objects.len(), 2);
    assert_eq!(p.objects[0].t, Type::Head(4));
    assert_eq!(p.objects[0].point, Point { x: whole(5), y: whole(7) });
    assert_eq!(p.objects[1].t, Type::Head(1));
}

#[test]
fn duplicate_segments_are_deduplicated() {
    let p = parse(vec![
        unflip(),
        op("m", vec![num(0), num(0)]),
        op("l", vec![num(5), num(0)]),
        op("h", vec![]),
        op("m", vec![num(0), num(0)]),
        op("l", vec![num(5), num(0)]),
        op("h", vec![]),
    ])
    .unwrap();
    assert_eq!(p.horz_lines.len(), 1);
}

#[test]
fn unknown_operator_is_fatal() {
    assert_eq!(parse(vec![op("zz", vec![])]).err(), Some(Error::NotSupported));
}

#[test]
fn restore_without_a_save_underflows() {
    // The graphics-state stack starts empty: the very first unmatched
    // restore is fatal.
    assert_eq!(parse(vec![op("Q", vec![])]).err(), Some(Error::StackUnderflow));
}

#[test]
fn restore_is_fatal_only_past_the_saves() {
    let ok = parse(vec![op("q", vec![]), op("Q", vec![])]);
    assert!(ok.is_ok());
    assert_eq!(
        parse(vec![op("q", vec![]), op("Q", vec![]), op("Q", vec![])]).err(),
        Some(Error::StackUnderflow)
    );
}

#[test]
fn two_segment_path_is_an_unsupported_shape() {
    assert_eq!(
        parse(vec![
            op("m", vec![num(0), num(0)]),
            op("l", vec![num(1), num(0)]),
            op("l", vec![num(2), num(0)]),
            op("h", vec![]),
        ])
        .err(),
        Some(Error::PathShape)
    );
}

#[test]
fn wrong_arity_is_an_operand_error() {
    assert_eq!(parse(vec![op("m", vec![num(0)])]).err(), Some(Error::Operand));
}

#[test]
fn non_numeric_operand_is_an_object_error() {
    assert_eq!(
        parse(vec![op("m", vec![Operand::Str(vec![1]), num(0)])]).err(),
        Some(Error::Object)
    );
}

#[test]
fn ignored_operators_change_nothing() {
    let p = parse(vec![
        op("w", vec![num(5)]),
        op("gs", vec![]),
        op("BT", vec![]),
        op("ET", vec![]),
        op("S", vec![]),
    ])
    .unwrap();
    assert!(p.horz_lines.is_empty());
    assert!(p.objects.is_empty());
}

#[test]
fn vertical_segment_is_canonicalised() {
    let p = parse(vec![
        unflip(),
        op("m", vec![num(4), num(50)]),
        op("l", vec![num(4), num(10)]),
        op("h", vec![]),
    ])
    .unwrap();
    assert_eq!(p.vert_lines.len(), 1);
    assert_eq!(p.vert_lines[0].y1, whole(10));
    assert_eq!(p.vert_lines[0].y2, whole(50));
    assert!(p.vert_lines[0].y1.raw <= p.vert_lines[0].y2.raw);
}
