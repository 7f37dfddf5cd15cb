//! The JSON value model.
//!
//! Each workspace directory may carry one JSON document. The engine reads
//! such values to filter directories (include conditions), to order them
//! (sort keys), and to substitute them into command templates. Values are
//! held as plain data: numbers are either 64-bit integers or double-precision
//! encodings carried as bits together with their original rendering.
//!
//! Contracts speak of [`Json`], the mathematical model of a value: the view
//! of a [`Value`] is the `Json` tree it represents.

use vstd::prelude::*;
use crate::numeric;
use crate::text;

verus! {

use core::cmp::Ordering;

/// A JSON value.
///
/// A non-integer number is held as `Float { bits, text }`: the bits of its
/// double-precision encoding (used for ordering) beside the number's textual
/// rendering (used when the value is written back out).
#[derive(Debug, PartialEq)]
pub enum Value {
    Null,
    Bool(bool),
    Int(i64),
    Float { bits: u64, text: String },
    Str(String),
    Array(Vec<Value>),
    Object(Vec<(String, Value)>),
}

/// The mathematical model of a JSON value.
#[verifier::ext_equal]
pub enum Json {
    Null,
    Bool(bool),
    Int(int),
    Float { bits: u64, text: Seq<char> },
    Str(Seq<char>),
    Array(Seq<Json>),
    Object(Seq<(Seq<char>, Json)>),
}

/// The model of a value.
pub open spec fn value_model(v: Value) -> Json
    decreases v,
{
    match v {
        Value::Null => Json::Null,
        Value::Bool(b) => Json::Bool(b),
        Value::Int(i) => Json::Int(i as int),
        Value::Float { bits, text } => Json::Float { bits, text: text@ },
        Value::Str(s) => Json::Str(s@),
        Value::Array(items) => Json::Array(values_model(items@)),
        Value::Object(fields) => Json::Object(fields_model(fields@)),
    }
}

/// The models of a sequence of values.
pub open spec fn values_model(s: Seq<Value>) -> Seq<Json>
    decreases s,
{
    if s.len() == 0 {
        Seq::empty()
    } else {
        seq![value_model(s[0])] + values_model(s.drop_first())
    }
}

/// The models of a sequence of object fields.
pub open spec fn fields_model(s: Seq<(String, Value)>) -> Seq<(Seq<char>, Json)>
    decreases s,
{
    if s.len() == 0 {
        Seq::empty()
    } else {
        seq![(s[0].0@, value_model(s[0].1))] + fields_model(s.drop_first())
    }
}

impl View for Value {
    type V = Json;

    open spec fn view(&self) -> Json {
        value_model(*self)
    }
}

/// `values_model` maps the sequence element by element.
pub proof fn lemma_values_model(s: Seq<Value>)
    ensures
        values_model(s).len() == s.len(),
        forall|i: int| 0 <= i < s.len() ==> values_model(s)[i] == value_model(#[trigger] s[i]),
    decreases s,
{
    if s.len() != 0 {
        lemma_values_model(s.drop_first());
        assert forall|i: int| 0 <= i < s.len() implies values_model(s)[i] == value_model(
            #[trigger] s[i],
        ) by {
            if i > 0 {
                assert(values_model(s.drop_first())[i - 1] == value_model(s.drop_first()[i - 1]));
                assert(s.drop_first()[i - 1] == s[i]);
            }
        }
    }
}

/// `fields_model` maps the sequence element by element.
pub proof fn lemma_fields_model(s: Seq<(String, Value)>)
    ensures
        fields_model(s).len() == s.len(),
        forall|i: int|
            0 <= i < s.len() ==> fields_model(s)[i] == ((#[trigger] s[i]).0@, value_model(
                s[i].1,
            )),
    decreases s,
{
    if s.len() != 0 {
        lemma_fields_model(s.drop_first());
        assert forall|i: int| 0 <= i < s.len() implies fields_model(s)[i] == ((#[trigger] s[i]).0@,
            value_model(s[i].1),
        ) by {
            if i > 0 {
                assert(fields_model(s.drop_first())[i - 1] == (s.drop_first()[i - 1].0@,
                    value_model(s.drop_first()[i - 1].1),
                ));
                assert(s.drop_first()[i - 1] == s[i]);
            }
        }
    }
}

/// Lexicographic order of two values, when one exists.
///
/// Two strings, booleans, or nulls compare directly; two integers compare
/// as integers; any other pair of numbers compares as double precision, the
/// integer side rounded by its conversion; two arrays of equal length
/// compare element by element. Everything else - mixed types, arrays of
/// unequal length, objects, and any comparison touching a NaN encoding -
/// has no order.
pub open spec fn spec_value_cmp(a: Json, b: Json) -> Option<Ordering>
    decreases a,
{
    match (a, b) {
        (Json::Str(x), Json::Str(y)) => Some(text::spec_str_cmp(x, y)),
        (Json::Bool(x), Json::Bool(y)) => if x == y {
            Some(Ordering::Equal)
        } else if !x {
            Some(Ordering::Less)
        } else {
            Some(Ordering::Greater)
        },
        (Json::Null, Json::Null) => Some(Ordering::Equal),
        (Json::Int(x), Json::Int(y)) => if x < y {
            Some(Ordering::Less)
        } else if x == y {
            Some(Ordering::Equal)
        } else {
            Some(Ordering::Greater)
        },
        (Json::Float { bits: x, .. }, Json::Float { bits: y, .. }) => numeric::spec_double_cmp(
            x,
            y,
        ),
        (Json::Int(x), Json::Float { bits: y, .. }) => numeric::spec_int_double_cmp(x, y),
        (Json::Float { bits: x, .. }, Json::Int(y)) => match numeric::spec_int_double_cmp(y, x) {
            Some(o) => Some(numeric::reverse_ordering(o)),
            None => None,
        },
        (Json::Array(x), Json::Array(y)) => if x.len() != y.len() {
            None
        } else {
            spec_value_cmp_seq(x, y)
        },
        _ => None,
    }
}

/// Element-wise lexicographic order of two equal-length value sequences:
/// decided by the first pair that is not `Equal`; `None` as soon as an
/// undecided pair is reached first.
pub open spec fn spec_value_cmp_seq(x: Seq<Json>, y: Seq<Json>) -> Option<Ordering>
    recommends
        x.len() == y.len(),
    decreases x,
{
    if x.len() == 0 {
        Some(Ordering::Equal)
    } else {
        match spec_value_cmp(x[0], y[0]) {
            Some(Ordering::Equal) => spec_value_cmp_seq(x.drop_first(), y.drop_first()),
            r => r,
        }
    }
}

/// First index of `'/'` in `s`, or `s.len()` when there is none.
pub open spec fn spec_seg_end(s: Seq<char>) -> int
    decreases s.len(),
{
    if s.len() == 0 {
        0
    } else if s[0] == '/' {
        0
    } else {
        1 + spec_seg_end(s.drop_first())
    }
}

pub proof fn lemma_seg_end(s: Seq<char>)
    ensures
        0 <= spec_seg_end(s) <= s.len(),
        spec_seg_end(s) < s.len() ==> s[spec_seg_end(s)] == '/',
        forall|i: int| 0 <= i < spec_seg_end(s) ==> s[i] != '/',
    decreases s.len(),
{
    if s.len() != 0 && s[0] != '/' {
        lemma_seg_end(s.drop_first());
        assert forall|i: int| 0 <= i < spec_seg_end(s) implies s[i] != '/' by {
            if i > 0 {
                assert(s.drop_first()[i - 1] == s[i]);
            }
        }
    }
}

/// A JSON-pointer segment with `~1` read as `'/'` and `~0` as `'~'`.
pub open spec fn spec_unescape(s: Seq<char>) -> Seq<char>
    decreases s.len(),
{
    if s.len() == 0 {
        Seq::empty()
    } else if s[0] == '~' && s.len() >= 2 && s[1] == '0' {
        seq!['~'] + spec_unescape(s.skip(2))
    } else if s[0] == '~' && s.len() >= 2 && s[1] == '1' {
        seq!['/'] + spec_unescape(s.skip(2))
    } else {
        seq![s[0]] + spec_unescape(s.skip(1))
    }
}

/// True when `s` is one or more decimal digits.
pub open spec fn spec_is_digits(s: Seq<char>) -> bool {
    s.len() > 0 && forall|i: int| 0 <= i < s.len() ==> 48 <= #[trigger] (s[i] as u32) <= 57
}

/// The value of a decimal digit string.
pub open spec fn spec_dec_value(s: Seq<char>) -> nat
    decreases s.len(),
{
    if s.len() == 0 {
        0
    } else {
        spec_dec_value(s.drop_last()) * 10 + (if s.last() as u32 >= 48 {
            (s.last() as u32 - 48) as nat
        } else {
            0
        })
    }
}

/// First value bound to `key` in an object's fields.
pub open spec fn spec_field_value(fields: Seq<(Seq<char>, Json)>, key: Seq<char>) -> Option<Json>
    decreases fields.len(),
{
    if fields.len() == 0 {
        None
    } else if fields[0].0 == key {
        Some(fields[0].1)
    } else {
        spec_field_value(fields.drop_first(), key)
    }
}

/// Resolution of a JSON pointer against a value, per the standard fragment
/// syntax: the empty pointer selects the whole value; otherwise the pointer
/// is `'/'`-separated segments, each naming an object field (after unescaping
/// `~1` and `~0`) or a decimal array index.
pub open spec fn spec_pointer(v: Json, p: Seq<char>) -> Option<Json>
    decreases p.len(),
    via spec_pointer_decreases
{
    if p.len() == 0 {
        Some(v)
    } else if p[0] != '/' {
        None
    } else {
        let rest = p.skip(1);
        let end = spec_seg_end(rest);
        let seg = rest.take(end);
        let tail = rest.skip(end);
        match v {
            Json::Object(fields) => match spec_field_value(fields, spec_unescape(seg)) {
                Some(child) => spec_pointer(child, tail),
                None => None,
            },
            Json::Array(items) => if spec_is_digits(seg) && spec_dec_value(seg) < items.len() {
                spec_pointer(items[spec_dec_value(seg) as int], tail)
            } else {
                None
            },
            _ => None,
        }
    }
}

#[via_fn]
proof fn spec_pointer_decreases(v: Json, p: Seq<char>) {
    if p.len() != 0 && p[0] == '/' {
        lemma_seg_end(p.skip(1));
    }
}

impl Clone for Value {
    /// A deep copy whose model equals the original's.
    #[verifier::loop_isolation(false)]
    fn clone(&self) -> (res: Self)
        ensures
            res@ == self@,
        decreases *self,
    {
        match self {
            Value::Null => Value::Null,
            Value::Bool(b) => Value::Bool(*b),
            Value::Int(i) => Value::Int(*i),
            Value::Float { bits, text } => Value::Float { bits: *bits, text: text.clone() },
            Value::Str(s) => Value::Str(s.clone()),
            Value::Array(items) => {
                let mut out: Vec<Value> = Vec::new();
                let mut i: usize = 0;
                while i < items.len()
                    invariant
                        i <= items@.len(),
                        out@.len() == i,
                        forall|j: int|
                            0 <= j < i ==> value_model(#[trigger] out@[j]) == value_model(
                                items@[j],
                            ),
                        self == Value::Array(*items),
                    decreases items@.len() - i,
                {
                    proof {
                        assert(*items == self->Array_0);
                        assert(decreases_to!(*self => self->Array_0));
                        assert(decreases_to!(*items => items@));
                        assert(decreases_to!(items@ => items@[i as int]));
                        assert(decreases_to!(*self => items@[i as int]));
                    }
                    out.push(items[i].clone());
                    i = i + 1;
                }
                proof {
                    lemma_values_model(out@);
                    lemma_values_model(items@);
                    assert forall|j: int| 0 <= j < items@.len() implies values_model(out@)[j]
                        == values_model(items@)[j] by {
                        assert(value_model(out@[j]) == value_model(items@[j]));
                    }
                    assert(values_model(out@) =~= values_model(items@));
                }
                Value::Array(out)
            },
            Value::Object(fields) => {
                let mut out: Vec<(String, Value)> = Vec::new();
                let mut i: usize = 0;
                while i < fields.len()
                    invariant
                        i <= fields@.len(),
                        out@.len() == i,
                        forall|j: int|
                            0 <= j < i ==> (#[trigger] out@[j]).0@ == fields@[j].0@
                                && value_model(out@[j].1) == value_model(fields@[j].1),
                        self == Value::Object(*fields),
                    decreases fields@.len() - i,
                {
                    proof {
                        assert(*fields == self->Object_0);
                        assert(decreases_to!(*self => self->Object_0));
                        assert(decreases_to!(*fields => fields@));
                        assert(decreases_to!(fields@ => fields@[i as int]));
                        assert(decreases_to!(fields@[i as int] => fields@[i as int].1));
                        assert(decreases_to!(*self => fields@[i as int].1));
                    }
                    out.push((fields[i].0.clone(), fields[i].1.clone()));
                    i = i + 1;
                }
                proof {
                    lemma_fields_model(out@);
                    lemma_fields_model(fields@);
                    assert forall|j: int| 0 <= j < fields@.len() implies fields_model(out@)[j]
                        == fields_model(fields@)[j] by {
                        assert(out@[j].0@ == fields@[j].0@);
                        assert(value_model(out@[j].1) == value_model(fields@[j].1));
                    }
                    assert(fields_model(out@) =~= fields_model(fields@));
                }
                Value::Object(out)
            },
        }
    }
}

/// Copy a value list. The copy has the same models.
#[verifier::loop_isolation(false)]
pub fn clone_value_vec(v: &Vec<Value>) -> (r: Vec<Value>)
    ensures
        values_model(r@) == values_model(v@),
        r@.len() == v@.len(),
{
    let mut r: Vec<Value> = Vec::new();
    let mut i: usize = 0;
    while i < v.len()
        invariant
            i <= v@.len(),
            r@.len() == i,
            forall|j: int|
                0 <= j < i ==> value_model(#[trigger] r@[j]) == value_model(v@[j]),
        decreases v@.len() - i,
    {
        r.push(v[i].clone());
        i = i + 1;
    }
    proof {
        lemma_values_model(r@);
        lemma_values_model(v@);
        assert forall|j: int|
            0 <= j < v@.len() implies values_model(r@)[j] == values_model(v@)[j] by {
            assert(values_model(r@)[j] == value_model(r@[j]));
            assert(values_model(v@)[j] == value_model(v@[j]));
        }
        assert(values_model(r@) =~= values_model(v@));
    }
    r
}

impl Value {
    /// Resolve a JSON pointer against this value.
    pub fn pointer<'a>(&'a self, pointer: &str) -> (r: Option<&'a Value>)
        ensures
            match r {
                Some(c) => spec_pointer(self@, pointer@) == Some(c@),
                None => spec_pointer(self@, pointer@) is None,
            },
    {
        let len = pointer.unicode_len();
        let r = pointer_at(self, pointer, len, 0);
        proof {
            assert(pointer@.skip(0) =~= pointer@);
        }
        r
    }
}

/// Resolve the pointer suffix that starts at character `pos`.
#[verifier::loop_isolation(false)]
#[verifier::rlimit(100)]
fn pointer_at<'a>(v: &'a Value, p: &str, len: usize, pos: usize) -> (r: Option<&'a Value>)
    requires
        len == p@.len(),
        pos <= len,
    ensures
        match r {
            Some(c) => spec_pointer(v@, p@.skip(pos as int)) == Some(c@),
            None => spec_pointer(v@, p@.skip(pos as int)) is None,
        },
    decreases len - pos,
{
    let ghost suffix = p@.skip(pos as int);
    if pos == len {
        assert(suffix.len() == 0);
        return Some(v);
    }
    if p.get_char(pos) != '/' {
        assert(suffix[0] == p@[pos as int]);
        return None;
    }
    let ghost rest = suffix.skip(1);
    proof {
        assert(rest =~= p@.skip(pos as int + 1));
        lemma_seg_end(rest);
    }
    // Find the end of this segment: the next '/' or the end of the pointer.
    let mut end: usize = pos + 1;
    while end < len && p.get_char(end) != '/'
        invariant
            pos + 1 <= end <= len,
            forall|i: int| pos + 1 <= i < end ==> p@[i] != '/',
        decreases len - end,
    {
        end = end + 1;
    }
    proof {
        assert forall|i: int| 0 <= i < (end - pos - 1) implies rest[i] != '/' by {
            assert(rest[i] == p@[pos as int + 1 + i]);
        }
        if end < len {
            assert(rest[end - pos - 1] == p@[end as int]);
        }
        // The scanned bound is exactly the segment end of the suffix.
        if spec_seg_end(rest) < end - pos - 1 {
            assert(rest[spec_seg_end(rest)] == '/');
        }
        if spec_seg_end(rest) > end - pos - 1 {
            assert(end - pos - 1 < rest.len());
        }
        assert(spec_seg_end(rest) == end - pos - 1);
    }
    let ghost seg = rest.take((end - pos - 1) as int);
    let ghost tail = rest.skip((end - pos - 1) as int);
    proof {
        assert(tail =~= p@.skip(end as int));
    }
    match v {
        Value::Object(fields) => {
            // Unescape the segment while collecting it.
            let mut key = String::new();
            let mut j: usize = pos + 1;
            proof {
                assert(seg.skip(0) =~= seg);
            }
            while j < end
                invariant
                    pos + 1 <= j <= end,
                    spec_unescape(seg) == key@ + spec_unescape(seg.skip((j - pos - 1) as int)),
                decreases end - j,
            {
                let ghost before = seg.skip((j - pos - 1) as int);
                proof {
                    assert(before[0] == seg[(j - pos - 1) as int]);
                    assert(seg[(j - pos - 1) as int] == p@[j as int]);
                }
                let c = p.get_char(j);
                if c == '~' && j + 1 < end {
                    let c2 = p.get_char(j + 1);
                    proof {
                        assert(before[1] == seg[(j - pos) as int]);
                        assert(seg[(j - pos) as int] == p@[j as int + 1]);
                    }
                    if c2 == '0' {
                        text::push_char(&mut key, '~');
                        proof {
                            assert(before.skip(2) =~= seg.skip((j + 2 - pos - 1) as int));
                        }
                        j = j + 2;
                        continue ;
                    }
                    if c2 == '1' {
                        text::push_char(&mut key, '/');
                        proof {
                            assert(before.skip(2) =~= seg.skip((j + 2 - pos - 1) as int));
                        }
                        j = j + 2;
                        continue ;
                    }
                }
                text::push_char(&mut key, c);
                proof {
                    if before.len() >= 2 {
                        assert(before[1] == seg[(j - pos) as int]);
                        assert(seg[(j - pos) as int] == p@[j as int + 1]);
                    }
                    assert(before.skip(1) =~= seg.skip((j - pos) as int));
                }
                j = j + 1;
            }
            proof {
                assert(seg.skip((end - pos - 1) as int) =~= Seq::<char>::empty());
                assert(spec_unescape(seg) == key@);
                lemma_fields_model(fields@);
            }
            // Look the key up among the fields.
            let ghost fm = fields_model(fields@);
            let mut i: usize = 0;
            proof {
                assert(fm.skip(0) =~= fm);
            }
            while i < fields.len()
                invariant
                    i <= fields@.len(),
                    spec_field_value(fm, key@) == spec_field_value(fm.skip(i as int), key@),
                decreases fields@.len() - i,
            {
                proof {
                    assert(fm.skip(i as int)[0] == fm[i as int]);
                }
                if fields[i].0.eq(&key) {
                    return pointer_at(&fields[i].1, p, len, end);
                }
                proof {
                    assert(fm.skip(i as int).drop_first() =~= fm.skip(i as int + 1));
                }
                i = i + 1;
            }
            proof {
                assert(fm.skip(fields@.len() as int).len() == 0);
            }
            None
        },
        Value::Array(items) => {
            // Parse the segment as a decimal index, saturating once the value
            // can no longer name a valid element.
            let mut idx: u128 = 0;
            let mut too_big: bool = false;
            let mut j: usize = pos + 1;
            if j == end {
                assert(!spec_is_digits(seg));
                return None;
            }
            while j < end
                invariant
                    pos + 1 <= j <= end,
                    end > pos + 1,
                    forall|i: int|
                        0 <= i < (j - pos - 1) ==> 48 <= #[trigger] (seg[i] as u32) <= 57,
                    !too_big ==> idx == spec_dec_value(seg.take((j - pos - 1) as int)),
                    too_big ==> spec_dec_value(seg.take((j - pos - 1) as int))
                        > 0xFFFF_FFFF_FFFF_FFFF,
                decreases end - j,
            {
                let c = p.get_char(j);
                proof {
                    assert(seg[(j - pos - 1) as int] == p@[j as int]);
                }
                let cv = c as u32;
                if cv < 48 || cv > 57 {
                    assert(!spec_is_digits(seg));
                    return None;
                }
                let d: u128 = (cv - 48) as u128;
                let ghost prev = seg.take((j - pos - 1) as int);
                proof {
                    assert(seg.take((j - pos) as int).drop_last() =~= prev);
                    assert(seg.take((j - pos) as int).last() == seg[(j - pos - 1) as int]);
                }
                if too_big || idx > 0xFFFF_FFFF_FFFF_FFFF {
                    proof {
                        let v0 = spec_dec_value(prev);
                        let dd = (seg[(j - pos - 1) as int] as u32 - 48) as nat;
                        assert(v0 > 0xFFFF_FFFF_FFFF_FFFF);
                        assert(v0 * 10 + dd > 0xFFFF_FFFF_FFFF_FFFF) by (nonlinear_arith)
                            requires
                                v0 > 0xFFFF_FFFF_FFFF_FFFF,
                        ;
                    }
                    too_big = true;
                } else {
                    idx = idx * 10 + d;
                }
                j = j + 1;
            }
            proof {
                assert(seg.take((end - pos - 1) as int) =~= seg);
                assert(spec_is_digits(seg));
                lemma_values_model(items@);
            }
            let n = items.len();
            if too_big || idx >= n as u128 {
                return None;
            }
            pointer_at(&items[idx as usize], p, len, end)
        },
        _ => None,
    }
}

} // verus!
