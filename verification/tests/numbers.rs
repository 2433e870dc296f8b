use nexus_rbd::fixed::Fixed;
use nexus_rbd::pad::Pad;
use nexus_rbd::scalar::{Scalar, abs, clamp, half, inv, max_flt, maybe_inv, safe_div, two};
use nexus_rbd::space::{V2, cap_magnitude_vec2};
use nexus_rbd::batch::{udiv, umod};

fn fx(n: i64) -> Fixed {
    Fixed { raw: n * 65536 }
}

#[test]
fn fixed_arithmetic() {
    assert_eq!(fx(3).plus(fx(4)), fx(7));
    assert_eq!(fx(3).minus(fx(4)), fx(-1));
    assert_eq!(fx(3).times(fx(-4)), fx(-12));
    assert_eq!(fx(7).over(fx(2)).raw, 7 * 65536 / 2);
    assert_eq!(fx(-7).over(fx(2)).raw, -7 * 65536 / 2);
    assert_eq!(fx(1).over(fx(-3)).raw, -21846);
    assert_eq!(fx(5).over(fx(0)), fx(0));
    assert_eq!(fx(5).negate(), fx(-5));
}

#[test]
fn fixed_saturates() {
    let big = Fixed { raw: i64::MAX };
    let small = Fixed { raw: i64::MIN };
    assert_eq!(big.plus(fx(1)), big);
    assert_eq!(small.minus(fx(1)), small);
    assert_eq!(big.times(big), big);
    assert_eq!(big.times(small), small);
    assert_eq!(small.negate(), big);
}

#[test]
fn fixed_products_round_down() {
    assert_eq!(Fixed { raw: 1 }.times(Fixed { raw: 1 }).raw, 0);
    assert_eq!(Fixed { raw: -1 }.times(Fixed { raw: 1 }).raw, -1);
    assert_eq!(Fixed { raw: 32768 }.times(Fixed { raw: -3 }).raw, -2);
}

#[test]
fn fixed_keeps_order() {
    assert!(fx(-2).lt(fx(1)));
    assert!(!fx(1).lt(fx(1)));
    assert!(fx(1).le(fx(1)));
    assert_eq!(fx(-2).maximum(fx(1)), fx(1));
    assert_eq!(fx(-2).minimum(fx(1)), fx(-2));
    let half = Fixed { raw: 32768 };
    for raw in [-70000, -65536, -3, -1, 0, 1, 3, 65536, 70000] {
        let x = Fixed { raw };
        let y = half.times(x);
        if raw >= 0 {
            assert!(0 <= y.raw && y.raw <= raw);
        } else {
            assert!(raw <= y.raw && y.raw <= 0);
        }
    }
}

#[test]
fn fixed_decimals() {
    assert_eq!(Fixed::dec(5, -1).raw, 32768);
    assert_eq!(Fixed::dec(25, -2).raw, 16384);
    assert_eq!(Fixed::dec(12, 1), fx(120));
    assert_eq!(Fixed::dec(-981, -2).raw, -642909);
    assert_eq!(Fixed::dec(1, 38).raw, i64::MAX);
    assert_eq!(half::<Fixed>().raw, 32768);
    assert_eq!(two::<Fixed>(), fx(2));
}

#[test]
fn fixed_square_roots() {
    assert_eq!(fx(9).sqrt(), fx(3));
    assert_eq!(fx(2).sqrt().raw, 92681);
    assert_eq!(fx(-4).sqrt(), fx(0));
    assert_eq!(Fixed { raw: 1 }.sqrt().raw, 256);
}

#[test]
fn fixed_angles() {
    assert_eq!(fx(0).sin(), fx(0));
    let quarter = Fixed { raw: 102944 };
    assert!((quarter.sin().raw - 65536).abs() < 40);
    assert!(quarter.cos().raw.abs() < 40);
    assert!((fx(0).cos().raw - 65536).abs() < 40);
    assert!((Fixed { raw: 34315 }.sin().raw - 32768).abs() < 40);
    assert!((fx(1).atan2(fx(1)).raw - 51472).abs() < 400);
    assert!((fx(1).atan2(fx(-1)).raw - 154416).abs() < 400);
    assert_eq!(fx(0).atan2(fx(1)), fx(0));
}

#[test]
fn clamps_and_quotients() {
    assert_eq!(clamp(fx(5), fx(-1), fx(3)), fx(3));
    assert_eq!(clamp(fx(-5), fx(-1), fx(3)), fx(-1));
    assert_eq!(clamp(fx(2), fx(-1), fx(3)), fx(2));
    assert_eq!(clamp(fx(2), fx(4), fx(3)), fx(3));
    assert_eq!(abs(fx(-2)), fx(2));
    assert_eq!(safe_div(fx(6), fx(3)), fx(2));
    assert_eq!(safe_div(fx(6), fx(0)), fx(0));
    assert_eq!(inv(fx(4)).raw, 16384);
    assert_eq!(inv(fx(0)), fx(0));
    assert_eq!(maybe_inv(fx(0)), fx(0));
    assert_eq!(maybe_inv(fx(-2)).raw, -32768);
    assert_eq!(max_flt::<Fixed>().raw, i64::MAX);
}

#[test]
fn magnitudes_are_capped() {
    let v = V2 { x: fx(3), y: fx(4) };
    let same = cap_magnitude_vec2(v, fx(5));
    assert_eq!((same.x, same.y), (fx(3), fx(4)));
    let capped = cap_magnitude_vec2(V2 { x: fx(6), y: fx(8) }, fx(5));
    assert_eq!((capped.x, capped.y), (fx(3), fx(4)));
}

#[test]
fn quotients_and_remainders() {
    assert_eq!(udiv(17, 5), 3);
    assert_eq!(umod(17, 5), 2);
}

#[test]
fn padding_keeps_the_value() {
    let mut p: Pad<u32, u8> = Pad::new(7);
    assert_eq!(*p, 7);
    assert_eq!(p.1, 0);
    *p = 9;
    assert_eq!(p, Pad(9, 0));
    assert_eq!(Pad::<u32, u8>::from(3), Pad(3, 0));
}
