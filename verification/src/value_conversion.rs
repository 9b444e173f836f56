//! Converting stored values into strongly typed scalars and arrays.
//!
//! Each conversion is parameterised by `(section, key)` so that its errors
//! carry their place in the document.  Scalars demand an exact shape, with
//! two widenings: a float accepts an integer (upcast to the 64-bit float
//! encoding), and a timestamp accepts a string that parses as one.  Arrays
//! convert elementwise; the first failing element aborts the conversion and
//! its error is annotated with the element's index.

use vstd::prelude::*;
use vstd::string::StringExecFns;

use crate::error::{indexed_message, ConferError, ErrModel};
use crate::value::{Timestamp, Val, ConferValue};

verus! {

/// What a 64-bit integer converts to when it is widened to the 64-bit float
/// encoding (round to nearest).
pub uninterp spec fn float_bits_of_int(v: i64) -> u64;

/// Relies on Rust's numeric conversion from `i64` to the 64-bit float type:
/// the result depends on the argument alone.
#[verifier::external_body]
fn int_to_float_bits(v: i64) -> (r: u64)
    ensures
        r == float_bits_of_int(v),
{
    match toml::Value::Float(v as _) {
        toml::Value::Float(f) => f.to_bits(),
        _ => 0,
    }
}

/// Whether some text is a well-formed timestamp, and its canonical text when
/// it is.
pub uninterp spec fn datetime_of_text(s: Seq<char>) -> Option<Seq<char>>;

/// Relies on toml's `Timestamp::from_str` and its display form: whether text
/// parses as a TOML datetime, and the canonical text of the parsed value,
/// depend on the text alone.  The error text is toml's own and is promised
/// nothing.
#[verifier::external_body]
fn parse_datetime_text(s: &str) -> (r: Result<String, String>)
    ensures
        (r is Ok <==> datetime_of_text(s@) is Some),
        (r matches Ok(c) ==> datetime_of_text(s@) == Some(c@)),
{
    match <toml::value::Datetime as core::str::FromStr>::from_str(s) {
        Ok(d) => Ok(d.to_string()),
        Err(e) => Err(e.to_string()),
    }
}

/// The name of a value's shape.
pub open spec fn describe_model(v: Val) -> Seq<char> {
    match v {
        Val::Text(_) => "string"@,
        Val::Int(_) => "integer"@,
        Val::Float(_) => "float"@,
        Val::Bool(_) => "boolean"@,
        Val::Timestamp(_) => "datetime"@,
        Val::Arr(_) => "array"@,
        Val::Tab(_) => "table"@,
    }
}

/// Human-readable name of a value's shape.
pub fn describe(value: &ConferValue) -> (r: &'static str)
    ensures
        r@ == describe_model(value.model()),
{
    match value {
        ConferValue::String(_) => "string",
        ConferValue::Integer(_) => "integer",
        ConferValue::Float(_) => "float",
        ConferValue::Boolean(_) => "boolean",
        ConferValue::Timestamp(_) => "datetime",
        ConferValue::Array(_) => "array",
        ConferValue::Table(_) => "table",
    }
}

/// The model of a `TypeMismatch` error at `section.key`.
pub open spec fn mismatch(section: Seq<char>, key: Seq<char>, expected: Seq<char>, found: Seq<
    char,
>) -> ErrModel {
    ErrModel::TypeMismatch { section, key, expected, found }
}

/// Converts a value to a string; the value must be a string.
pub fn string(section: &str, key: &str, value: ConferValue) -> (r: Result<String, ConferError>)
    ensures
        (match value.model() {
            Val::Text(t) => r matches Ok(s) && s@ == t,
            m => r matches Err(e) && e.model() == mismatch(section@, key@, "string"@, describe_model(m)),
        }),
{
    match value {
        ConferValue::String(s) => Ok(s),
        other => Err(ConferError::type_mismatch(section, key, "string", describe(&other))),
    }
}

/// Converts a value to a 64-bit signed integer; the value must be an integer.
pub fn integer(section: &str, key: &str, value: ConferValue) -> (r: Result<i64, ConferError>)
    ensures
        (match value.model() {
            Val::Int(v) => r matches Ok(x) && x == v,
            m => r matches Err(e) && e.model() == mismatch(section@, key@, "integer"@, describe_model(m)),
        }),
{
    match value {
        ConferValue::Integer(v) => Ok(v),
        other => Err(ConferError::type_mismatch(section, key, "integer", describe(&other))),
    }
}

/// Converts a value to the 64-bit float encoding; a float is taken as it is
/// and an integer is widened.
pub fn float(section: &str, key: &str, value: ConferValue) -> (r: Result<u64, ConferError>)
    ensures
        (match value.model() {
            Val::Float(b) => r matches Ok(x) && x == b,
            Val::Int(v) => r matches Ok(x) && x == float_bits_of_int(v),
            m => r matches Err(e) && e.model() == mismatch(section@, key@, "float"@, describe_model(m)),
        }),
{
    match value {
        ConferValue::Float(b) => Ok(b),
        ConferValue::Integer(v) => Ok(int_to_float_bits(v)),
        other => Err(ConferError::type_mismatch(section, key, "float", describe(&other))),
    }
}

/// Converts a value to a boolean; the value must be a boolean.
pub fn boolean(section: &str, key: &str, value: ConferValue) -> (r: Result<bool, ConferError>)
    ensures
        (match value.model() {
            Val::Bool(v) => r matches Ok(x) && x == v,
            m => r matches Err(e) && e.model() == mismatch(section@, key@, "boolean"@, describe_model(m)),
        }),
{
    match value {
        ConferValue::Boolean(v) => Ok(v),
        other => Err(ConferError::type_mismatch(section, key, "boolean", describe(&other))),
    }
}

/// Converts a value to a timestamp; a timestamp is taken as it is, a string
/// is parsed (and fails with `ValueParse` when malformed).
pub fn datetime(section: &str, key: &str, value: ConferValue) -> (r: Result<Timestamp, ConferError>)
    ensures
        (match value.model() {
            Val::Timestamp(t) => r matches Ok(d) && d.model() == t,
            Val::Text(s) => match datetime_of_text(s) {
                Some(c) => r matches Ok(d) && d.model() == c,
                None => r matches Err(e) && (e.model() matches ErrModel::ValueParse {
                    section: es,
                    key: ek,
                    message: _,
                } && es == section@ && ek == key@),
            },
            m => r matches Err(e) && e.model() == mismatch(section@, key@, "datetime"@, describe_model(m)),
        }),
{
    match value {
        ConferValue::Timestamp(d) => Ok(d),
        ConferValue::String(s) => parse_datetime(section, key, s.as_str()),
        other => Err(ConferError::type_mismatch(section, key, "datetime", describe(&other))),
    }
}

/// Parses a timestamp from text, mapping a failure to `ValueParse` with the
/// parser's own words appended.
fn parse_datetime(section: &str, key: &str, raw: &str) -> (r: Result<Timestamp, ConferError>)
    ensures
        (match datetime_of_text(raw@) {
            Some(c) => r matches Ok(d) && d.model() == c,
            None => r matches Err(e) && (e.model() matches ErrModel::ValueParse {
                section: es,
                key: ek,
                message: _,
            } && es == section@ && ek == key@),
        }),
{
    match parse_datetime_text(raw) {
        Ok(text) => Ok(Timestamp::new(text)),
        Err(why) => {
            let mut m = String::from_str("failed to parse datetime: ");
            m.append(why.as_str());
            Err(ConferError::value_parse_owned(section, key, m))
        },
    }
}

/// Index of the first element that `ok` refuses, or a negative value when
/// every element passes.
pub open spec fn first_bad(items: Seq<Val>, ok: spec_fn(Val) -> bool) -> int
    decreases items.len(),
{
    if items.len() == 0 {
        -1
    } else if !ok(items[0]) {
        0
    } else {
        let r = first_bad(items.drop_first(), ok);
        if r < 0 {
            -1
        } else {
            r + 1
        }
    }
}

/// `first_bad` finds the first refused element, exactly when one exists.
pub proof fn lemma_first_bad(items: Seq<Val>, ok: spec_fn(Val) -> bool)
    ensures
        (first_bad(items, ok) < 0 <==> (forall|i: int| 0 <= i < items.len() ==> ok(
            #[trigger] items[i],
        ))),
        first_bad(items, ok) >= 0 ==> first_bad(items, ok) < items.len() && !ok(
            items[first_bad(items, ok)],
        ),
        forall|j: int| 0 <= j < first_bad(items, ok) ==> ok(#[trigger] items[j]),
    decreases items.len(),
{
    if items.len() > 0 && ok(items[0]) {
        let t = items.drop_first();
        lemma_first_bad(t, ok);
        assert forall|i: int| 0 <= i < items.len() && !ok(#[trigger] items[i]) implies first_bad(
            items,
            ok,
        ) >= 0 by {
            assert(t[i - 1] == items[i]);
        }
        if first_bad(t, ok) >= 0 {
            assert(items[first_bad(items, ok)] == t[first_bad(t, ok)]);
            assert forall|j: int| 0 <= j < first_bad(items, ok) implies ok(
                #[trigger] items[j],
            ) by {
                if j > 0 {
                    assert(t[j - 1] == items[j]);
                }
            }
        }
    }
}

/// The message of a `ValueParse` error about an array element of the wrong
/// shape.
pub open spec fn element_mismatch_message(expected: Seq<char>, found: Seq<char>) -> Seq<char> {
    "expected array elements of type "@ + expected + ", found "@ + found
}

/// Builds the `ValueParse` error for an array element of the wrong shape.
fn element_mismatch(section: &str, key: &str, expected: &'static str, value: &ConferValue) -> (r:
    ConferError)
    ensures
        r.model() == (ErrModel::ValueParse {
            section: section@,
            key: key@,
            message: element_mismatch_message(expected@, describe_model(value.model())),
        }),
{
    let mut m = String::from_str("expected array elements of type ");
    m.append(expected);
    m.append(", found ");
    m.append(describe(value));
    proof {
        assert(m@ =~= element_mismatch_message(expected@, describe_model(value.model())));
    }
    ConferError::value_parse_owned(section, key, m)
}

/// Whether a value is a string.
pub open spec fn is_text(v: Val) -> bool {
    v is Text
}

/// Converts an array value to a vector of strings.
#[verifier::loop_isolation(false)]
pub fn string_vec(section: &str, key: &str, value: ConferValue) -> (r: Result<Vec<String>, ConferError>)
    ensures
        (match value.model() {
            Val::Arr(items) => {
                let bad = first_bad(items, |v: Val| is_text(v));
                if bad < 0 {
                    r matches Ok(out) && out@.len() == items.len() && (forall|i: int|
                        0 <= i < items.len() ==> #[trigger] out@[i]@ == items[i]->Text_0)
                } else {
                    r matches Err(e) && e.model() == (ErrModel::ValueParse {
                        section: section@,
                        key: key@,
                        message: indexed_message(
                            element_mismatch_message("string"@, describe_model(items[bad])),
                            bad as nat,
                        ),
                    })
                }
            },
            m => r matches Err(e) && e.model() == mismatch(section@, key@, "array"@, describe_model(m)),
        }),
{
    match value {
        ConferValue::Array(items) => {
            proof {
                crate::value::lemma_items_model(items@);
                lemma_first_bad(crate::value::items_model(items@), |v: Val| is_text(v));
            }
            let ghost ms = crate::value::items_model(items@);
            let mut out: Vec<String> = Vec::new();
            let mut i: usize = 0;
            while i < items.len()
                invariant
                    i <= items@.len(),
                    ms == crate::value::items_model(items@),
                    ms.len() == items@.len(),
                    forall|j: int| 0 <= j < items@.len() ==> ms[j] == #[trigger] items@[j].model(),
                    forall|j: int| 0 <= j < i ==> is_text(#[trigger] ms[j]),
                    out@.len() == i,
                    forall|j: int| 0 <= j < i ==> #[trigger] out@[j]@ == ms[j]->Text_0,
                decreases items@.len() - i,
            {
                proof {
                    assert(ms[i as int] == items@[i as int].model());
                }
                match &items[i] {
                    ConferValue::String(s) => {
                        out.push(s.clone());
                    },
                    other => {
                        let e = element_mismatch(section, key, "string", other);
                        proof {
                            assert(first_bad(ms, |v: Val| is_text(v)) == i);
                        }
                        return Err(crate::error::annotate_with_index(e, i));
                    },
                }
                i += 1;
            }
            Ok(out)
        },
        other => Err(ConferError::type_mismatch(section, key, "array", describe(&other))),
    }
}

/// Whether a value is an integer.
pub open spec fn is_int(v: Val) -> bool {
    v is Int
}

/// Converts an array value to a vector of 64-bit signed integers.
#[verifier::loop_isolation(false)]
pub fn integer_vec(section: &str, key: &str, value: ConferValue) -> (r: Result<Vec<i64>, ConferError>)
    ensures
        (match value.model() {
            Val::Arr(items) => {
                let bad = first_bad(items, |v: Val| is_int(v));
                if bad < 0 {
                    r matches Ok(out) && out@.len() == items.len() && (forall|i: int|
                        0 <= i < items.len() ==> #[trigger] out@[i] == items[i]->Int_0)
                } else {
                    r matches Err(e) && e.model() == (ErrModel::ValueParse {
                        section: section@,
                        key: key@,
                        message: indexed_message(
                            element_mismatch_message("integer"@, describe_model(items[bad])),
                            bad as nat,
                        ),
                    })
                }
            },
            m => r matches Err(e) && e.model() == mismatch(section@, key@, "array"@, describe_model(m)),
        }),
{
    match value {
        ConferValue::Array(items) => {
            proof {
                crate::value::lemma_items_model(items@);
                lemma_first_bad(crate::value::items_model(items@), |v: Val| is_int(v));
            }
            let ghost ms = crate::value::items_model(items@);
            let mut out: Vec<i64> = Vec::new();
            let mut i: usize = 0;
            while i < items.len()
                invariant
                    i <= items@.len(),
                    ms == crate::value::items_model(items@),
                    ms.len() == items@.len(),
                    forall|j: int| 0 <= j < items@.len() ==> ms[j] == #[trigger] items@[j].model(),
                    forall|j: int| 0 <= j < i ==> is_int(#[trigger] ms[j]),
                    out@.len() == i,
                    forall|j: int| 0 <= j < i ==> #[trigger] out@[j] == ms[j]->Int_0,
                decreases items@.len() - i,
            {
                proof {
                    assert(ms[i as int] == items@[i as int].model());
                }
                match &items[i] {
                    ConferValue::Integer(v) => {
                        out.push(*v);
                    },
                    other => {
                        let e = element_mismatch(section, key, "integer", other);
                        proof {
                            assert(first_bad(ms, |v: Val| is_int(v)) == i);
                        }
                        return Err(crate::error::annotate_with_index(e, i));
                    },
                }
                i += 1;
            }
            Ok(out)
        },
        other => Err(ConferError::type_mismatch(section, key, "array", describe(&other))),
    }
}

/// Whether a value can become a float: a float, or an integer to widen.
pub open spec fn is_float_like(v: Val) -> bool {
    v is Float || v is Int
}

/// The 64-bit float encoding an array element converts to.
pub open spec fn float_elem(v: Val) -> u64 {
    match v {
        Val::Float(b) => b,
        Val::Int(i) => float_bits_of_int(i),
        _ => 0,
    }
}

/// Converts an array value to a vector of 64-bit float encodings, widening
/// integer elements.
#[verifier::loop_isolation(false)]
pub fn float_vec(section: &str, key: &str, value: ConferValue) -> (r: Result<Vec<u64>, ConferError>)
    ensures
        (match value.model() {
            Val::Arr(items) => {
                let bad = first_bad(items, |v: Val| is_float_like(v));
                if bad < 0 {
                    r matches Ok(out) && out@.len() == items.len() && (forall|i: int|
                        0 <= i < items.len() ==> #[trigger] out@[i] == float_elem(items[i]))
                } else {
                    r matches Err(e) && e.model() == (ErrModel::ValueParse {
                        section: section@,
                        key: key@,
                        message: indexed_message(
                            element_mismatch_message("float"@, describe_model(items[bad])),
                            bad as nat,
                        ),
                    })
                }
            },
            m => r matches Err(e) && e.model() == mismatch(section@, key@, "array"@, describe_model(m)),
        }),
{
    match value {
        ConferValue::Array(items) => {
            proof {
                crate::value::lemma_items_model(items@);
                lemma_first_bad(crate::value::items_model(items@), |v: Val| is_float_like(v));
            }
            let ghost ms = crate::value::items_model(items@);
            let mut out: Vec<u64> = Vec::new();
            let mut i: usize = 0;
            while i < items.len()
                invariant
                    i <= items@.len(),
                    ms == crate::value::items_model(items@),
                    ms.len() == items@.len(),
                    forall|j: int| 0 <= j < items@.len() ==> ms[j] == #[trigger] items@[j].model(),
                    forall|j: int| 0 <= j < i ==> is_float_like(#[trigger] ms[j]),
                    out@.len() == i,
                    forall|j: int| 0 <= j < i ==> #[trigger] out@[j] == float_elem(ms[j]),
                decreases items@.len() - i,
            {
                proof {
                    assert(ms[i as int] == items@[i as int].model());
                }
                match &items[i] {
                    ConferValue::Float(b) => {
                        out.push(*b);
                    },
                    ConferValue::Integer(v) => {
                        out.push(int_to_float_bits(*v));
                    },
                    other => {
                        let e = element_mismatch(section, key, "float", other);
                        proof {
                            assert(first_bad(ms, |v: Val| is_float_like(v)) == i);
                        }
                        return Err(crate::error::annotate_with_index(e, i));
                    },
                }
                i += 1;
            }
            Ok(out)
        },
        other => Err(ConferError::type_mismatch(section, key, "array", describe(&other))),
    }
}

/// Whether a value is a boolean.
pub open spec fn is_bool(v: Val) -> bool {
    v is Bool
}

/// Converts an array value to a vector of booleans.
#[verifier::loop_isolation(false)]
pub fn boolean_vec(section: &str, key: &str, value: ConferValue) -> (r: Result<Vec<bool>, ConferError>)
    ensures
        (match value.model() {
            Val::Arr(items) => {
                let bad = first_bad(items, |v: Val| is_bool(v));
                if bad < 0 {
                    r matches Ok(out) && out@.len() == items.len() && (forall|i: int|
                        0 <= i < items.len() ==> #[trigger] out@[i] == items[i]->Bool_0)
                } else {
                    r matches Err(e) && e.model() == (ErrModel::ValueParse {
                        section: section@,
                        key: key@,
                        message: indexed_message(
                            element_mismatch_message("boolean"@, describe_model(items[bad])),
                            bad as nat,
                        ),
                    })
                }
            },
            m => r matches Err(e) && e.model() == mismatch(section@, key@, "array"@, describe_model(m)),
        }),
{
    match value {
        ConferValue::Array(items) => {
            proof {
                crate::value::lemma_items_model(items@);
                lemma_first_bad(crate::value::items_model(items@), |v: Val| is_bool(v));
            }
            let ghost ms = crate::value::items_model(items@);
            let mut out: Vec<bool> = Vec::new();
            let mut i: usize = 0;
            while i < items.len()
                invariant
                    i <= items@.len(),
                    ms == crate::value::items_model(items@),
                    ms.len() == items@.len(),
                    forall|j: int| 0 <= j < items@.len() ==> ms[j] == #[trigger] items@[j].model(),
                    forall|j: int| 0 <= j < i ==> is_bool(#[trigger] ms[j]),
                    out@.len() == i,
                    forall|j: int| 0 <= j < i ==> #[trigger] out@[j] == ms[j]->Bool_0,
                decreases items@.len() - i,
            {
                proof {
                    assert(ms[i as int] == items@[i as int].model());
                }
                match &items[i] {
                    ConferValue::Boolean(v) => {
                        out.push(*v);
                    },
                    other => {
                        let e = element_mismatch(section, key, "boolean", other);
                        proof {
                            assert(first_bad(ms, |v: Val| is_bool(v)) == i);
                        }
                        return Err(crate::error::annotate_with_index(e, i));
                    },
                }
                i += 1;
            }
            Ok(out)
        },
        other => Err(ConferError::type_mismatch(section, key, "array", describe(&other))),
    }
}

/// Whether a value can become a timestamp: a timestamp, or a string whose
/// text parses as one.
pub open spec fn is_datetime_like(v: Val) -> bool {
    v is Timestamp || (v matches Val::Text(s) && datetime_of_text(s) is Some)
}

/// The timestamp text an array element converts to.
pub open spec fn datetime_elem(v: Val) -> Seq<char> {
    match v {
        Val::Timestamp(t) => t,
        Val::Text(s) => match datetime_of_text(s) {
            Some(c) => c,
            None => Seq::empty(),
        },
        _ => Seq::empty(),
    }
}

/// Converts an array value to a vector of timestamps, parsing string
/// elements.  A string element that does not parse fails with `ValueParse`;
/// an element of any other wrong shape fails with `ValueParse` naming the
/// shape; both name the element's place.
#[verifier::loop_isolation(false)]
pub fn datetime_vec(section: &str, key: &str, value: ConferValue) -> (r: Result<
    Vec<Timestamp>,
    ConferError,
>)
    ensures
        (match value.model() {
            Val::Arr(items) => {
                let bad = first_bad(items, |v: Val| is_datetime_like(v));
                if bad < 0 {
                    r matches Ok(out) && out@.len() == items.len() && (forall|i: int|
                        0 <= i < items.len() ==> #[trigger] out@[i].model() == datetime_elem(
                            items[i],
                        ))
                } else {
                    r matches Err(e) && (e.model() matches ErrModel::ValueParse {
                        section: es,
                        key: ek,
                        message: _,
                    } && es == section@ && ek == key@)
                }
            },
            m => r matches Err(e) && e.model() == mismatch(section@, key@, "array"@, describe_model(m)),
        }),
{
    match value {
        ConferValue::Array(items) => {
            proof {
                crate::value::lemma_items_model(items@);
                lemma_first_bad(crate::value::items_model(items@), |v: Val| is_datetime_like(v));
            }
            let ghost ms = crate::value::items_model(items@);
            let mut out: Vec<Timestamp> = Vec::new();
            let mut i: usize = 0;
            while i < items.len()
                invariant
                    i <= items@.len(),
                    ms == crate::value::items_model(items@),
                    ms.len() == items@.len(),
                    forall|j: int| 0 <= j < items@.len() ==> ms[j] == #[trigger] items@[j].model(),
                    forall|j: int| 0 <= j < i ==> is_datetime_like(#[trigger] ms[j]),
                    out@.len() == i,
                    forall|j: int| 0 <= j < i ==> #[trigger] out@[j].model() == datetime_elem(
                        ms[j],
                    ),
                decreases items@.len() - i,
            {
                proof {
                    assert(ms[i as int] == items@[i as int].model());
                }
                match &items[i] {
                    ConferValue::Timestamp(d) => {
                        out.push(Timestamp::new(d.text.clone()));
                    },
                    ConferValue::String(s) => {
                        match parse_datetime(section, key, s.as_str()) {
                            Ok(d) => {
                                out.push(d);
                            },
                            Err(e) => {
                                proof {
                                    assert(!is_datetime_like(ms[i as int]));
                                    assert(first_bad(ms, |v: Val| is_datetime_like(v)) >= 0);
                                }
                                return Err(crate::error::annotate_with_index(e, i));
                            },
                        }
                    },
                    other => {
                        let e = element_mismatch(section, key, "datetime", other);
                        proof {
                            assert(!is_datetime_like(ms[i as int]));
                            assert(first_bad(ms, |v: Val| is_datetime_like(v)) >= 0);
                        }
                        return Err(crate::error::annotate_with_index(e, i));
                    },
                }
                i += 1;
            }
            Ok(out)
        },
        other => Err(ConferError::type_mismatch(section, key, "array", describe(&other))),
    }
}

} // verus!
