use rosbag_msgs::float::{fmt_f32_bits, fmt_f64_bits};
use rosbag_msgs::fmt::{fmt_i64, fmt_padded, fmt_u64};

#[test]
fn integers_as_display_writes_them() {
    assert_eq!(fmt_u64(0), "0");
    assert_eq!(fmt_u64(12345), "12345");
    assert_eq!(fmt_u64(u64::MAX), u64::MAX.to_string());
    assert_eq!(fmt_i64(-42), "-42");
    assert_eq!(fmt_i64(i64::MIN), i64::MIN.to_string());
}

#[test]
fn padded_integers_as_zero_width_format() {
    assert_eq!(fmt_padded(5, 9), format!("{:09}", 5));
    assert_eq!(fmt_padded(-5, 9), format!("{:09}", -5));
    assert_eq!(fmt_padded(123456789012, 3), "123456789012");
    assert_eq!(fmt_padded(7, 3), "007");
}

fn check64(x: f64) {
    assert_eq!(fmt_f64_bits(x.to_bits()), format!("{:.3}", x), "value {:e}", x);
}

fn check32(x: f32) {
    assert_eq!(fmt_f32_bits(x.to_bits()), format!("{:.3}", x), "value {:e}", x);
}

#[test]
fn float_text_special_values() {
    check64(0.0);
    check64(-0.0);
    check64(f64::NAN);
    check64(f64::INFINITY);
    check64(f64::NEG_INFINITY);
    check64(f64::MAX);
    check64(f64::MIN);
    check64(f64::MIN_POSITIVE);
    check64(5e-324);
    check32(f32::MAX);
    check32(f32::MIN_POSITIVE);
    check32(f32::NAN);
    check32(-0.0);
}

#[test]
fn float_text_rounds_to_nearest_even_thousandth() {
    assert_eq!(fmt_f64_bits(0.0625f64.to_bits()), "0.062");
    assert_eq!(fmt_f64_bits(0.1875f64.to_bits()), "0.188");
    assert_eq!(fmt_f64_bits(1.5f64.to_bits()), "1.500");
    assert_eq!(fmt_f64_bits((-2.25f64).to_bits()), "-2.250");
    check64(0.0625);
    check64(0.1875);
    check64(2.0005);
    check64(0.0005);
    check64(0.0004999);
    check64(1e15 + 0.5);
    check64(4503599627370496.5);
    check64(9007199254740993.0);
    check64(123456789.123456789);
    check64(1e300);
    check64(-1e-300);
    check32(0.0625);
    check32(3.14159);
    check32(16777217.0);
}

#[test]
fn float_text_matches_std_on_many_values() {
    let mut state: u64 = 0x1234_5678_9abc_def0;
    for _ in 0..20000 {
        state ^= state << 13;
        state ^= state >> 7;
        state ^= state << 17;
        let x = f64::from_bits(state);
        check64(x);
        let small = (state % 2_000_000) as f64 / 1024.0 - 900.0;
        check64(small);
        let y = f32::from_bits((state >> 32) as u32);
        check32(y);
    }
}
