//! Tests of the value comparison evaluator and the JSON pointer.

use core::cmp::Ordering;
use row::expr::{evaluate_json_comparison, partial_cmp_json_values};
use row::value::Value;
use row::workflow::Comparison;

fn f(x: f64) -> Value {
    Value::Float {
        bits: x.to_bits(),
        text: format!("{}", x),
    }
}

#[test]
fn cmp_valid_json() {
    assert_eq!(
        partial_cmp_json_values(&Value::Int(0), &Value::Int(10)),
        Some(Ordering::Less)
    );
    assert_eq!(
        partial_cmp_json_values(&Value::Int(10), &Value::Int(0)),
        Some(Ordering::Greater)
    );
    assert_eq!(
        partial_cmp_json_values(&Value::Int(0), &Value::Int(0)),
        Some(Ordering::Equal)
    );
    assert_eq!(
        partial_cmp_json_values(
            &Value::Str("abcd".to_string()),
            &Value::Str("abce".to_string())
        ),
        Some(Ordering::Less)
    );
    assert_eq!(
        partial_cmp_json_values(
            &Value::Str("abcd".to_string()),
            &Value::Str("abcd".to_string())
        ),
        Some(Ordering::Equal)
    );
    assert_eq!(
        partial_cmp_json_values(
            &Value::Str("abce".to_string()),
            &Value::Str("abcd".to_string())
        ),
        Some(Ordering::Greater)
    );
    assert_eq!(
        partial_cmp_json_values(&f(1.0), &f(2.0)),
        Some(Ordering::Less)
    );
    assert_eq!(
        partial_cmp_json_values(&f(1.0), &f(1.0)),
        Some(Ordering::Equal)
    );
    assert_eq!(
        partial_cmp_json_values(&f(2.0), &f(1.0)),
        Some(Ordering::Greater)
    );
    assert_eq!(
        partial_cmp_json_values(&Value::Bool(false), &Value::Bool(true)),
        Some(Ordering::Less)
    );
    assert_eq!(
        partial_cmp_json_values(&Value::Bool(true), &Value::Bool(false)),
        Some(Ordering::Greater)
    );
    assert_eq!(
        partial_cmp_json_values(&Value::Bool(true), &Value::Bool(true)),
        Some(Ordering::Equal)
    );
    assert_eq!(
        partial_cmp_json_values(&Value::Null, &Value::Null),
        Some(Ordering::Equal)
    );

    let a = Value::Array(vec![Value::Int(14), Value::Str("j".to_string()), f(3.5)]);
    let b = Value::Array(vec![Value::Int(13), Value::Str("j".to_string()), f(3.5)]);
    let c = Value::Array(vec![Value::Int(13), Value::Str("j".to_string()), f(3.0)]);

    assert_eq!(partial_cmp_json_values(&a, &b), Some(Ordering::Greater));
    assert_eq!(partial_cmp_json_values(&b, &a), Some(Ordering::Less));
    assert_eq!(partial_cmp_json_values(&b, &c), Some(Ordering::Greater));
}

#[test]
fn cmp_mixed_numbers() {
    assert_eq!(
        partial_cmp_json_values(&Value::Int(3), &f(3.5)),
        Some(Ordering::Less)
    );
    assert_eq!(
        partial_cmp_json_values(&f(3.5), &Value::Int(3)),
        Some(Ordering::Greater)
    );
    assert_eq!(
        partial_cmp_json_values(&Value::Int(4), &f(4.0)),
        Some(Ordering::Equal)
    );
    assert_eq!(
        partial_cmp_json_values(&Value::Int(-2), &f(-1.5)),
        Some(Ordering::Less)
    );
    assert_eq!(partial_cmp_json_values(&Value::Int(1), &f(f64::NAN)), None);
}

#[test]
fn cmp_mixed_numbers_rounding() {
    // The integer side converts to double precision before comparing:
    // 2^53 + 1 rounds down to 2^53, and 2^53 + 3 rounds up (ties to even).
    let big = 9007199254740992.0_f64; // 2^53
    assert_eq!(
        partial_cmp_json_values(&Value::Int(9007199254740993), &f(big)),
        Some(Ordering::Equal)
    );
    assert_eq!(
        partial_cmp_json_values(&Value::Int(9007199254740995), &f(big + 2.0)),
        Some(Ordering::Greater)
    );
    assert_eq!(
        partial_cmp_json_values(&Value::Int(9007199254740996), &f(big + 4.0)),
        Some(Ordering::Equal)
    );
}

#[test]
fn cmp_invalid_types_json() {
    assert_eq!(
        partial_cmp_json_values(&Value::Int(10), &Value::Str("abcd".to_string())),
        None
    );
}

#[test]
fn cmp_invalid_tuple_json() {
    let a = Value::Array(vec![Value::Int(14), Value::Str("j".to_string()), f(3.5)]);
    let b = Value::Array(vec![Value::Int(13), Value::Str("j".to_string())]);
    assert_eq!(partial_cmp_json_values(&a, &b), None);
}

#[test]
fn eval() {
    assert_eq!(
        evaluate_json_comparison(&Comparison::EqualTo, &Value::Int(5), &Value::Int(5)),
        Some(true)
    );
    assert_eq!(
        evaluate_json_comparison(
            &Comparison::GreaterThanOrEqualTo,
            &Value::Int(5),
            &Value::Int(5)
        ),
        Some(true)
    );
    assert_eq!(
        evaluate_json_comparison(&Comparison::LessThanOrEqualTo, &Value::Int(5), &Value::Int(5)),
        Some(true)
    );
    assert_eq!(
        evaluate_json_comparison(&Comparison::EqualTo, &Value::Int(5), &Value::Int(10)),
        Some(false)
    );
    assert_eq!(
        evaluate_json_comparison(&Comparison::GreaterThan, &Value::Int(5), &Value::Int(10)),
        Some(false)
    );
    assert_eq!(
        evaluate_json_comparison(
            &Comparison::GreaterThanOrEqualTo,
            &Value::Int(5),
            &Value::Int(10)
        ),
        Some(false)
    );
    assert_eq!(
        evaluate_json_comparison(
            &Comparison::GreaterThanOrEqualTo,
            &Value::Int(6),
            &Value::Int(5)
        ),
        Some(true)
    );
    assert_eq!(
        evaluate_json_comparison(&Comparison::LessThan, &Value::Int(5), &Value::Int(10)),
        Some(true)
    );
    assert_eq!(
        evaluate_json_comparison(&Comparison::LessThanOrEqualTo, &Value::Int(5), &Value::Int(10)),
        Some(true)
    );
    assert_eq!(
        evaluate_json_comparison(&Comparison::LessThanOrEqualTo, &Value::Int(5), &Value::Int(4)),
        Some(false)
    );
}

#[test]
fn pointer_resolution() {
    let v = Value::Object(vec![
        (
            "a".to_string(),
            Value::Array(vec![Value::Int(1), Value::Int(2)]),
        ),
        ("b~x".to_string(), Value::Int(7)),
    ]);
    assert_eq!(v.pointer(""), Some(&v));
    assert_eq!(v.pointer("/a/0"), Some(&Value::Int(1)));
    assert_eq!(v.pointer("/a/1"), Some(&Value::Int(2)));
    assert_eq!(v.pointer("/a/2"), None);
    assert_eq!(v.pointer("/b~0x"), Some(&Value::Int(7)));
    assert_eq!(v.pointer("/c"), None);
    assert_eq!(v.pointer("a"), None);
}
