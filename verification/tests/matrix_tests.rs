use staffscan::fixed::{Fixed, SCALE};
use staffscan::geom::Point;
use staffscan::matrix::Matrix;

fn whole(v: i64) -> Fixed {
    Fixed::new(v)
}

#[test]
fn identity_flips_y() {
    let m = Matrix::identity(whole(900));
    let p = m.transform(whole(10), whole(20)).unwrap();
    assert_eq!(p, Point { x: whole(10), y: whole(880) });
}

#[test]
fn translation_moves_points() {
    let m = Matrix::new(whole(1), whole(0), whole(0), whole(1), whole(5), whole(-3));
    let p = m.transform(whole(2), whole(7)).unwrap();
    assert_eq!(p, Point { x: whole(7), y: whole(4) });
}

#[test]
fn compose_then_transform_matches_transforming_twice() {
    // Whole-unit entries, so no fixed-point product truncates.
    let a = Matrix::new(whole(2), whole(1), whole(0), whole(3), whole(4), whole(-2));
    let b = Matrix::new(whole(1), whole(-1), whole(2), whole(5), whole(7), whole(11));
    let ab = a.mul(&b).unwrap();
    let x = whole(3);
    let y = whole(-4);
    let inner = b.transform(x, y).unwrap();
    let outer = a.transform(inner.x, inner.y).unwrap();
    let direct = ab.transform(x, y).unwrap();
    assert_eq!(direct, outer);
}

#[test]
fn vector_components_read_back() {
    let v = staffscan::matrix::Vector::new(whole(1), whole(2), whole(3));
    assert_eq!(v.get(0), whole(1));
    assert_eq!(v.get(1), whole(2));
    assert_eq!(v.get(2), whole(3));
    let m = Matrix::new(whole(1), whole(2), whole(3), whole(4), whole(5), whole(6));
    // layout [[a, c, e], [b, d, f]]
    assert_eq!(m.get(0, 0), whole(1));
    assert_eq!(m.get(0, 1), whole(3));
    assert_eq!(m.get(0, 2), whole(5));
    assert_eq!(m.get(1, 0), whole(2));
    assert_eq!(m.get(1, 1), whole(4));
    assert_eq!(m.get(1, 2), whole(6));
}

#[test]
fn compose_rounding_stays_small() {
    // fractional entries truncate; the two orders stay within the stated
    // rounding band of 8 * bound / SCALE + 6 raw units
    let raw = Fixed::from_raw;
    let a = Matrix::new(raw(5000), raw(1234), raw(3333), raw(-5000), raw(77), raw(9));
    let b = Matrix::new(raw(9999), raw(55), raw(-77), raw(10001), raw(12345), raw(-31));
    let x = raw(17777);
    let y = raw(-9999);
    let bound: i64 = 20000;
    let allowance = 8 * bound / SCALE + 6;
    let ab = a.mul(&b).unwrap();
    let inner = b.transform(x, y).unwrap();
    let outer = a.transform(inner.x, inner.y).unwrap();
    let direct = ab.transform(x, y).unwrap();
    assert!((direct.x.raw - outer.x.raw).abs() <= allowance);
    assert!((direct.y.raw - outer.y.raw).abs() <= allowance);
}
