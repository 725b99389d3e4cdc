use pge::fixed::Fixed;

fn fx(v: f64) -> Fixed {
    Fixed { raw: (v * 4294967296.0).round() as i64 }
}

fn val(f: Fixed) -> f64 {
    f.raw as f64 / 4294967296.0
}

#[test]
fn whole_numbers_go_in_and_out() {
    assert_eq!(Fixed::from_int(3).raw, 3 << 32);
    assert_eq!(Fixed::from_int(-3).raw, -(3i64 << 32));
    assert_eq!(Fixed::from_int(7).to_int(), 7);
    assert_eq!(fx(7.9).to_int(), 7);
    assert_eq!(fx(-7.9).to_int(), -7);
    assert_eq!(Fixed { raw: i64::MAX }.to_int(), i32::MAX);
    assert_eq!(Fixed { raw: i64::MIN }.to_int(), i32::MIN);
    assert_eq!(Fixed::zero().raw, 0);
    assert_eq!(Fixed::one().raw, 1 << 32);
    assert_eq!(Fixed::half().raw, 1 << 31);
}

#[test]
fn sums_saturate() {
    assert_eq!(fx(1.5).add(fx(2.25)), fx(3.75));
    assert_eq!(fx(1.5).sub(fx(2.25)), fx(-0.75));
    assert_eq!(fx(1.5).neg(), fx(-1.5));
    let top = Fixed { raw: i64::MAX };
    let bottom = Fixed { raw: i64::MIN };
    assert_eq!(top.add(Fixed::one()), top);
    assert_eq!(bottom.sub(Fixed::one()), bottom);
    assert_eq!(bottom.neg(), top);
}

#[test]
fn products_round_down_and_saturate() {
    assert_eq!(fx(1.5).mul(fx(2.5)), fx(3.75));
    assert_eq!(fx(-1.5).mul(fx(2.5)), fx(-3.75));
    // the smallest step times a half: rounded down to zero, and to minus one step
    assert_eq!(Fixed { raw: 1 }.mul(Fixed::half()), Fixed { raw: 0 });
    assert_eq!(Fixed { raw: -1 }.mul(Fixed::half()), Fixed { raw: -1 });
    let top = Fixed { raw: i64::MAX };
    assert_eq!(top.mul(fx(2.0)), top);
    assert_eq!(top.mul(fx(-2.0)), Fixed { raw: i64::MIN });
}

#[test]
fn quotients_round_toward_zero_and_saturate() {
    assert_eq!(fx(3.75).div(fx(2.5)), fx(1.5));
    assert_eq!(fx(-3.75).div(fx(2.5)), fx(-1.5));
    assert_eq!(fx(3.75).div(fx(-2.5)), fx(-1.5));
    assert_eq!(Fixed::one().div(Fixed::from_int(3)), Fixed { raw: 1431655765 });
    assert_eq!(Fixed::one().neg().div(Fixed::from_int(3)), Fixed { raw: -1431655765 });
    // by zero
    assert_eq!(fx(1.0).div(Fixed::zero()), Fixed { raw: i64::MAX });
    assert_eq!(fx(-1.0).div(Fixed::zero()), Fixed { raw: i64::MIN });
    assert_eq!(Fixed::zero().div(Fixed::zero()), Fixed::zero());
    // beyond the range
    assert_eq!(Fixed { raw: i64::MAX }.div(fx(0.5)), Fixed { raw: i64::MAX });
}

#[test]
fn square_roots() {
    assert_eq!(fx(4.0).sqrt(), fx(2.0));
    assert_eq!(fx(2.25).sqrt(), fx(1.5));
    assert_eq!(Fixed::zero().sqrt(), Fixed::zero());
    assert_eq!(fx(-4.0).sqrt(), Fixed::zero());
    // rounded down: the root of two
    assert_eq!(fx(2.0).sqrt(), Fixed { raw: 6074000999 });
    assert!((val(Fixed { raw: i64::MAX }.sqrt()) - 46340.95).abs() < 0.01);
}

#[test]
fn sine_and_cosine_are_close() {
    let mut worst: f64 = 0.0;
    let mut a = -20.0;
    while a < 20.0 {
        worst = worst.max((val(fx(a).sin()) - f64::sin(a)).abs());
        worst = worst.max((val(fx(a).cos()) - f64::cos(a)).abs());
        a += 0.01;
    }
    assert!(worst < 1e-7, "worst error {}", worst);
    assert_eq!(Fixed::zero().sin(), Fixed::zero());
    assert!((val(fx(0.5).tan()) - f64::tan(0.5)).abs() < 1e-7);
}

#[test]
fn depth_is_recovered_from_its_inverse() {
    let one = Fixed { raw: 1 << 32 };
    assert_eq!(one.div(one.div(Fixed { raw: 1 << 33 })), Fixed { raw: 1 << 33 });
    assert_eq!(one.div(one.div(Fixed { raw: 3 })), Fixed { raw: 3 });
    assert_eq!(one.div(one.div(Fixed { raw: i64::MAX })), Fixed { raw: i64::MAX });
    assert_eq!(one.div(one.div(Fixed { raw: 429496730 })), Fixed { raw: 429496730 });
    // a hundred comes back larger by 9600 steps of the grid, two millionths
    assert_eq!(one.div(one.div(Fixed { raw: 100 << 32 })), Fixed { raw: 429496739200 });
    assert_eq!(one.div(one.div(Fixed { raw: 12345678901234 })), Fixed { raw: 12345681242970 });
    for raw in [3i64, 4, 5, 1000, 429496730, 1 << 32, 100 << 32, 12345678901234, 1 << 50, i64::MAX - 1, i64::MAX] {
        let back = one.div(one.div(Fixed { raw })).raw;
        assert!(raw <= back, "{} came back as {}", raw, back);
        assert!(((back - raw) as i128) << 64 <= (back as i128) * (raw as i128 - 1), "{} came back as {}", raw, back);
    }
}
