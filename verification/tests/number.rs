//! The exact decimal number model.

use harp::number::Number;
use harp::reader::{Reader, Tok};

fn to_f64(n: &Number) -> f64 {
    let magnitude = n.mant as f64 / 10f64.powi(n.scale as i32);
    if n.neg {
        -magnitude
    } else {
        magnitude
    }
}

#[test]
fn number_canonical_form_test() {
    // Trailing fractional zeros are traded against the scale.
    assert_eq!(Number::from_parts(false, 3140, 3), Number::from_parts(false, 314, 2));
    // Zero has one form only.
    assert_eq!(Number::from_parts(true, 0, 7), Number::from_parts(false, 0, 0));
}

#[test]
fn number_arithmetic_exact_test() {
    let tenth = Number::from_parts(false, 1, 1);
    let fifth = Number::from_parts(false, 2, 1);
    let sum = tenth.checked_add(fifth).unwrap();
    assert_eq!(sum, Number::from_parts(false, 3, 1));

    let five = Number::from_parts(false, 5, 0);
    let half = Number::from_parts(false, 5, 1);
    assert_eq!(five.checked_mul(half).unwrap(), Number::from_parts(false, 25, 1));
    assert_eq!(five.checked_sub(half).unwrap(), Number::from_parts(false, 45, 1));

    let max = Number::from_parts(false, u64::MAX, 0);
    let one = Number::from_parts(false, 1, 0);
    assert_eq!(max.checked_add(one), None);
}

#[test]
fn number_render_test() {
    assert_eq!(render_string(Number::from_parts(false, 5, 3)), "0.005");
    assert_eq!(render_string(Number::from_parts(false, 100, 0)), "100");
    assert_eq!(render_string(Number::from_parts(true, 321, 1)), "-32.1");
}

fn render_string(n: Number) -> String {
    n.render().into_iter().collect()
}

#[test]
fn number_token_value_matches_float_test() {
    // The lexed exact value agrees with the text read as a float.
    let mut lexer = Reader::new("3.14159 -0.125 41");
    for expected in [3.14159f64, -0.125f64, 41f64] {
        match lexer.next_token().unwrap() {
            Tok::Number(n, _) => assert_eq!(to_f64(&n), expected),
            other => panic!("expected a number token, got {:?}", other),
        }
    }
}
