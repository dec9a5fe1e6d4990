use staffscan::fixed::{div_trunc, Fixed, SCALE};

#[test]
fn add_commutes_and_associates() {
    let a = Fixed::new(3);
    let b = Fixed::new(-7);
    let c = Fixed::new(11);
    assert_eq!(a.add(b), b.add(a));
    assert_eq!(a.add(b).add(c), a.add(b.add(c)));
}

#[test]
fn mul_commutes() {
    let a = Fixed::from_raw(12345);
    let b = Fixed::from_raw(-6789);
    assert_eq!(a.mul(b), b.mul(a));
}

#[test]
fn mul_by_one_is_identity() {
    let one = Fixed::new(1);
    let a = Fixed::from_raw(98765);
    assert_eq!(a.mul(one), a);
    let n = Fixed::from_raw(-98765);
    assert_eq!(n.mul(one), n);
}

#[test]
fn mul_rescales_and_truncates() {
    // 1.5 * 2.5 == 3.75
    let a = Fixed::from_raw(15000);
    let b = Fixed::from_raw(25000);
    assert_eq!(a.mul(b).raw, 37500);
    // truncation toward zero on a negative product
    let c = Fixed::from_raw(-1);
    let d = Fixed::from_raw(9999);
    assert_eq!(c.mul(d).raw, 0);
}

#[test]
fn real_round_trip_stays_within_one_step() {
    let xs = [0.0f64, 1.2345, -2.7182, 931.4159, -0.0001];
    for &x in xs.iter() {
        let f = Fixed::from_raw((x * SCALE as f64) as i64);
        let back = f.raw as f64 / SCALE as f64;
        assert!((back - x).abs() <= 1.0 / SCALE as f64);
    }
}

#[test]
fn div_trunc_truncates_toward_zero() {
    assert_eq!(div_trunc(7, 2), 3);
    assert_eq!(div_trunc(-7, 2), -3);
    assert_eq!(div_trunc(6, 3), 2);
    assert_eq!(div_trunc(-6, 3), -2);
}
