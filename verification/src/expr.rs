//! The value-comparison evaluator: a partial ordering over JSON values and
//! the include-filter comparison operators built on it.

use vstd::prelude::*;
use crate::numeric;
use crate::text;
use crate::value::{lemma_values_model, spec_value_cmp, spec_value_cmp_seq, values_model, Value};
use crate::workflow::Comparison;

verus! {

use core::cmp::Ordering;

/// Compares two values lexicographically.
///
/// Returns `Some(ordering)` when an ordering can be determined, otherwise
/// `None`.
#[verifier::loop_isolation(false)]
pub fn partial_cmp_json_values(a: &Value, b: &Value) -> (r: Option<Ordering>)
    ensures
        r == spec_value_cmp(a@, b@),
    decreases *a,
{
    match (a, b) {
        (Value::Str(x), Value::Str(y)) => Some(text::str_cmp(x.as_str(), y.as_str())),
        (Value::Bool(x), Value::Bool(y)) => if x == y {
            Some(Ordering::Equal)
        } else if !*x {
            Some(Ordering::Less)
        } else {
            Some(Ordering::Greater)
        },
        (Value::Null, Value::Null) => Some(Ordering::Equal),
        (Value::Int(x), Value::Int(y)) => if x < y {
            Some(Ordering::Less)
        } else if x == y {
            Some(Ordering::Equal)
        } else {
            Some(Ordering::Greater)
        },
        (Value::Float { bits: x, .. }, Value::Float { bits: y, .. }) => numeric::double_cmp(
            *x,
            *y,
        ),
        (Value::Int(x), Value::Float { bits: y, .. }) => numeric::int_double_cmp(*x, *y),
        (Value::Float { bits: x, .. }, Value::Int(y)) => match numeric::int_double_cmp(*y, *x) {
            Some(Ordering::Less) => Some(Ordering::Greater),
            Some(Ordering::Greater) => Some(Ordering::Less),
            Some(Ordering::Equal) => Some(Ordering::Equal),
            None => None,
        },
        (Value::Array(x), Value::Array(y)) => {
            if x.len() != y.len() {
                proof {
                    lemma_values_model(x@);
                    lemma_values_model(y@);
                }
                return None;
            }
            let ghost xm = values_model(x@);
            let ghost ym = values_model(y@);
            let mut i: usize = 0;
            proof {
                lemma_values_model(x@);
                lemma_values_model(y@);
                assert(xm.skip(0) =~= xm);
                assert(ym.skip(0) =~= ym);
            }
            while i < x.len()
                invariant
                    i <= x@.len(),
                    x@.len() == y@.len(),
                    spec_value_cmp(a@, b@) == spec_value_cmp_seq(
                        xm.skip(i as int),
                        ym.skip(i as int),
                    ),
                    a == Value::Array(*x),
                decreases x@.len() - i,
            {
                proof {
                    assert(xm.skip(i as int)[0] == xm[i as int]);
                    assert(ym.skip(i as int)[0] == ym[i as int]);
                    assert(*x == a->Array_0);
                    assert(decreases_to!(*a => a->Array_0));
                    assert(decreases_to!(*x => x@));
                    assert(decreases_to!(x@ => x@[i as int]));
                    assert(decreases_to!(*a => x@[i as int]));
                }
                let c = partial_cmp_json_values(&x[i], &y[i]);
                match c {
                    Some(Ordering::Equal) => {},
                    _ => {
                        return c;
                    },
                }
                proof {
                    assert(xm.skip(i as int).drop_first() =~= xm.skip(i as int + 1));
                    assert(ym.skip(i as int).drop_first() =~= ym.skip(i as int + 1));
                }
                i = i + 1;
            }
            assert(xm.skip(i as int).len() == 0);
            Some(Ordering::Equal)
        },
        _ => None,
    }
}

/// What a comparison operator yields for a given ordering, when one exists.
pub open spec fn spec_evaluate_comparison(c: Comparison, a: crate::value::Json, b: crate::value::Json) -> Option<bool> {
    match spec_value_cmp(a, b) {
        None => None,
        Some(o) => Some(
            match c {
                Comparison::LessThan => o == Ordering::Less,
                Comparison::LessThanOrEqualTo => o != Ordering::Greater,
                Comparison::EqualTo => o == Ordering::Equal,
                Comparison::GreaterThanOrEqualTo => o != Ordering::Less,
                Comparison::GreaterThan => o == Ordering::Greater,
            },
        ),
    }
}

/// Compares two values with the given comparison operator.
///
/// Returns `Some(outcome)` when an ordering can be determined, otherwise
/// `None`.
pub fn evaluate_json_comparison(comparison: &Comparison, a: &Value, b: &Value) -> (r: Option<
    bool,
>)
    ensures
        r == spec_evaluate_comparison(*comparison, a@, b@),
{
    match partial_cmp_json_values(a, b) {
        None => None,
        Some(o) => Some(
            match (comparison, o) {
                (Comparison::LessThan, Ordering::Less) => true,
                (Comparison::LessThanOrEqualTo, Ordering::Less) => true,
                (Comparison::LessThanOrEqualTo, Ordering::Equal) => true,
                (Comparison::EqualTo, Ordering::Equal) => true,
                (Comparison::GreaterThanOrEqualTo, Ordering::Greater) => true,
                (Comparison::GreaterThanOrEqualTo, Ordering::Equal) => true,
                (Comparison::GreaterThan, Ordering::Greater) => true,
                _ => false,
            },
        ),
    }
}

} // verus!
