//! The schema-driven synchronisation engine.
//!
//! A record is a sequence of field values laid out by a schema: one
//! `FieldSpec` per field, naming the key under the schema's section, the
//! field's container and scalar kind, an optional default, and whether the
//! field is ignored.  `load` fills a record from the store, field by field,
//! applying defaults on missing keys; `save` writes it back and prunes the
//! section's keys down to the ones the schema declares.  Neither pass is
//! transactional: a pass that stops on an error leaves the record or the
//! store with every earlier field already applied, and a concurrent writer
//! (when the host shares the store) can interleave between any two field
//! operations.

use vstd::prelude::*;
use vstd::string::StringExecFns;

use crate::error::{ConferError, ErrModel};
use crate::fmt_num::dec_of;
use crate::model::{integer_kind_name, ContainerKind, FieldType, FloatKind, IntegerKind, ScalarKind};
use crate::value::{Timestamp, Val};

verus! {

/// A scalar held by a record field.  Signed widths and unsigned widths up to
/// 32 bits are carried as `Int`; the 64-bit unsigned widths as `Uint`; floats
/// as the 64-bit encoding of their value.
#[derive(Debug)]
pub enum ScalarValue {
    Str(String),
    Bool(bool),
    Int(i64),
    Uint(u64),
    Float(u64),
    Datetime(Timestamp),
}

/// The mathematical model of a record scalar.
pub enum Sv {
    Str(Seq<char>),
    Bool(bool),
    Int(i64),
    Uint(u64),
    Float(u64),
    Datetime(Seq<char>),
}

impl ScalarValue {
    pub open spec fn model(&self) -> Sv {
        match self {
            ScalarValue::Str(s) => Sv::Str(s@),
            ScalarValue::Bool(b) => Sv::Bool(*b),
            ScalarValue::Int(x) => Sv::Int(*x),
            ScalarValue::Uint(x) => Sv::Uint(*x),
            ScalarValue::Float(b) => Sv::Float(*b),
            ScalarValue::Datetime(d) => Sv::Datetime(d.model()),
        }
    }

    /// A copy with the same model.
    pub fn duplicate(&self) -> (r: ScalarValue)
        ensures
            r.model() == self.model(),
    {
        match self {
            ScalarValue::Str(s) => ScalarValue::Str(s.clone()),
            ScalarValue::Bool(b) => ScalarValue::Bool(*b),
            ScalarValue::Int(x) => ScalarValue::Int(*x),
            ScalarValue::Uint(x) => ScalarValue::Uint(*x),
            ScalarValue::Float(b) => ScalarValue::Float(*b),
            ScalarValue::Datetime(d) => ScalarValue::Datetime(Timestamp::new(d.text.clone())),
        }
    }
}

/// A field's current value, shaped by its container kind.
#[derive(Debug)]
pub enum FieldValue {
    Plain(ScalarValue),
    Vec(Vec<ScalarValue>),
    Option(Option<ScalarValue>),
    OptionVec(Option<Vec<ScalarValue>>),
}

/// The mathematical model of a field value.
pub enum Fv {
    Plain(Sv),
    Vec(Seq<Sv>),
    Option(Option<Sv>),
    OptionVec(Option<Seq<Sv>>),
}

/// Models of a sequence of record scalars, elementwise and in order.
pub open spec fn svs_model(s: Seq<ScalarValue>) -> Seq<Sv>
    decreases s,
{
    if s.len() == 0 {
        Seq::empty()
    } else {
        svs_model(s.subrange(0, s.len() - 1)).push(s[s.len() - 1].model())
    }
}

/// `svs_model` maps the sequence elementwise.
pub proof fn lemma_svs_model(s: Seq<ScalarValue>)
    ensures
        svs_model(s).len() == s.len(),
        forall|i: int| 0 <= i < s.len() ==> svs_model(s)[i] == #[trigger] s[i].model(),
    decreases s.len(),
{
    if s.len() > 0 {
        let t = s.subrange(0, s.len() - 1);
        lemma_svs_model(t);
        assert forall|i: int| 0 <= i < s.len() implies svs_model(s)[i] == #[trigger] s[i].model()
        by {
            if i < s.len() - 1 {
                assert(t[i] == s[i]);
            }
        }
    }
}

impl FieldValue {
    pub open spec fn model(&self) -> Fv {
        match self {
            FieldValue::Plain(sv) => Fv::Plain(sv.model()),
            FieldValue::Vec(items) => Fv::Vec(svs_model(items@)),
            FieldValue::Option(o) => Fv::Option(
                match o {
                    Some(sv) => Some(sv.model()),
                    None => None,
                },
            ),
            FieldValue::OptionVec(o) => Fv::OptionVec(
                match o {
                    Some(items) => Some(svs_model(items@)),
                    None => None,
                },
            ),
        }
    }

    /// A copy with the same model.
    #[verifier::loop_isolation(false)]
    pub fn duplicate(&self) -> (r: FieldValue)
        ensures
            r.model() == self.model(),
    {
        match self {
            FieldValue::Plain(sv) => FieldValue::Plain(sv.duplicate()),
            FieldValue::Vec(items) => FieldValue::Vec(duplicate_scalars(items)),
            FieldValue::Option(o) => FieldValue::Option(
                match o {
                    Some(sv) => Some(sv.duplicate()),
                    None => None,
                },
            ),
            FieldValue::OptionVec(o) => FieldValue::OptionVec(
                match o {
                    Some(items) => Some(duplicate_scalars(items)),
                    None => None,
                },
            ),
        }
    }
}

/// A copy of a scalar vector with the same model.
#[verifier::loop_isolation(false)]
pub fn duplicate_scalars(items: &Vec<ScalarValue>) -> (r: Vec<ScalarValue>)
    ensures
        svs_model(r@) == svs_model(items@),
{
    proof {
        lemma_svs_model(items@);
    }
    let mut out: Vec<ScalarValue> = Vec::new();
    let mut i: usize = 0;
    while i < items.len()
        invariant
            i <= items@.len(),
            out@.len() == i,
            forall|j: int| 0 <= j < i ==> #[trigger] out@[j].model() == items@[j].model(),
        decreases items@.len() - i,
    {
        out.push(items[i].duplicate());
        i += 1;
    }
    proof {
        lemma_svs_model(out@);
        assert forall|j: int| 0 <= j < out@.len() implies svs_model(out@)[j] == svs_model(
            items@,
        )[j] by {
            assert(svs_model(out@)[j] == out@[j].model());
            assert(svs_model(items@)[j] == items@[j].model());
        }
        assert(svs_model(out@) =~= svs_model(items@));
    }
    out
}

/// Whether an integer width is carried as `Uint` in a record.
pub open spec fn is_unsigned_wide(k: IntegerKind) -> bool {
    k == IntegerKind::U64 || k == IntegerKind::Usize
}

/// Whether the 64-bit stored integer fits the width, for widths carried as
/// `Int`.
pub open spec fn int_in_range(k: IntegerKind, v: i64) -> bool {
    match k {
        IntegerKind::I8 => i8::MIN as int <= v as int <= i8::MAX as int,
        IntegerKind::I16 => i16::MIN as int <= v as int <= i16::MAX as int,
        IntegerKind::I32 => i32::MIN as int <= v as int <= i32::MAX as int,
        IntegerKind::I64 => true,
        IntegerKind::Isize => isize::MIN as int <= v as int <= isize::MAX as int,
        IntegerKind::U8 => 0 <= v as int <= u8::MAX as int,
        IntegerKind::U16 => 0 <= v as int <= u16::MAX as int,
        IntegerKind::U32 => 0 <= v as int <= u32::MAX as int,
        IntegerKind::U64 => 0 <= v as int,
        IntegerKind::Usize => 0 <= v as int <= usize::MAX as int,
    }
}

/// The record scalar a stored 64-bit integer converts to under the width, or
/// nothing when it is out of range.
pub open spec fn int_from_val(k: IntegerKind, v: i64) -> Option<Sv> {
    if !int_in_range(k, v) {
        None
    } else if is_unsigned_wide(k) {
        Some(Sv::Uint(v as u64))
    } else {
        Some(Sv::Int(v))
    }
}

/// The magnitude bits of a 64-bit float encoding: everything but the sign.
pub open spec fn f64_bits_magnitude(b: u64) -> u64 {
    b & 0x7fff_ffff_ffff_ffff
}

/// Whether the encoding carries a finite number (its exponent field is not
/// all ones).
pub open spec fn f64_bits_finite(b: u64) -> bool {
    f64_bits_magnitude(b) < 0x7ff0_0000_0000_0000
}

/// Whether the encoded magnitude is at most the largest finite 32-bit float,
/// whose 64-bit encoding is the constant below.
pub open spec fn f64_bits_fits_f32(b: u64) -> bool {
    f64_bits_magnitude(b) <= 0x47ef_ffff_e000_0000
}

/// Why a 64-bit float encoding is refused under the 32-bit width.
pub enum FloatFault {
    NotFinite,
    OutOfRange,
}

/// The message of the `ValueParse` error a refused encoding raises.
pub open spec fn float_fault_message(f: FloatFault) -> Seq<char> {
    match f {
        FloatFault::NotFinite => "non-finite float"@,
        FloatFault::OutOfRange => "value out of range for f32"@,
    }
}

/// The outcome of checking a 64-bit float encoding against the width: the
/// encoding itself (floats are kept in 64-bit form), or the fault.
pub open spec fn float_from_bits(k: FloatKind, b: u64) -> Result<u64, FloatFault> {
    match k {
        FloatKind::F64 => Ok(b),
        FloatKind::F32 => if !f64_bits_finite(b) {
            Err(FloatFault::NotFinite)
        } else if !f64_bits_fits_f32(b) {
            Err(FloatFault::OutOfRange)
        } else {
            Ok(b)
        },
    }
}

/// The message of the `ValueParse` error for an integer outside its width.
pub open spec fn int_range_message(k: IntegerKind) -> Seq<char> {
    "value out of range for "@ + integer_kind_name(k)
}

/// The message of the `ValueParse` error for a 64-bit unsigned value too
/// large for a stored integer.
pub open spec fn uint_range_message(v: u64) -> Seq<char> {
    "value `"@ + dec_of(v as nat) + "` out of range for TOML integer"@
}

/// Validates a stored 64-bit integer against the field's width and converts
/// it to the record's representation; out-of-range values fail with
/// `ValueParse` naming the width.
pub fn integer_from_store(kind: IntegerKind, section: &str, key: &str, value: i64) -> (r: Result<
    ScalarValue,
    ConferError,
>)
    ensures
        (match int_from_val(kind, value) {
            Some(sv) => r matches Ok(x) && x.model() == sv,
            None => r matches Err(e) && e.model() == (ErrModel::ValueParse {
                section: section@,
                key: key@,
                message: int_range_message(kind),
            }),
        }),
{
    let ok = match kind {
        IntegerKind::I8 => i8::MIN as i64 <= value && value <= i8::MAX as i64,
        IntegerKind::I16 => i16::MIN as i64 <= value && value <= i16::MAX as i64,
        IntegerKind::I32 => i32::MIN as i64 <= value && value <= i32::MAX as i64,
        IntegerKind::I64 => true,
        IntegerKind::Isize => isize::MIN as i64 <= value && value <= isize::MAX as i64,
        IntegerKind::U8 => 0 <= value && value <= u8::MAX as i64,
        IntegerKind::U16 => 0 <= value && value <= u16::MAX as i64,
        IntegerKind::U32 => 0 <= value && value <= u32::MAX as i64,
        IntegerKind::U64 => 0 <= value,
        IntegerKind::Usize => 0 <= value && value as u64 <= usize::MAX as u64,
    };
    if !ok {
        let mut m = String::from_str("value out of range for ");
        m.append(kind.name());
        proof {
            assert(m@ =~= int_range_message(kind));
        }
        return Err(ConferError::value_parse_owned(section, key, m));
    }
    match kind {
        IntegerKind::U64 | IntegerKind::Usize => Ok(ScalarValue::Uint(value as u64)),
        _ => Ok(ScalarValue::Int(value)),
    }
}

/// Checks whether the encoding carries a finite number.
pub fn f64_bits_is_finite(b: u64) -> (r: bool)
    ensures
        r == f64_bits_finite(b),
{
    (b & 0x7fff_ffff_ffff_ffff) < 0x7ff0_0000_0000_0000
}

/// Checks whether the encoded magnitude fits the 32-bit float range.
pub fn f64_bits_in_f32_range(b: u64) -> (r: bool)
    ensures
        r == f64_bits_fits_f32(b),
{
    (b & 0x7fff_ffff_ffff_ffff) <= 0x47ef_ffff_e000_0000
}

/// Validates a stored float, as its 64-bit encoding, against the field's
/// width.  The 32-bit width demands a finite value within the 32-bit range;
/// the value is kept in 64-bit form.
pub fn float_from_store(kind: FloatKind, section: &str, key: &str, bits: u64) -> (r: Result<
    u64,
    ConferError,
>)
    ensures
        (match float_from_bits(kind, bits) {
            Ok(b) => r matches Ok(x) && x == b,
            Err(FloatFault::NotFinite) => r matches Err(e) && e.model() == (ErrModel::ValueParse {
                section: section@,
                key: key@,
                message: "non-finite float"@,
            }),
            Err(FloatFault::OutOfRange) => r matches Err(e) && e.model() == (ErrModel::ValueParse {
                section: section@,
                key: key@,
                message: "value out of range for f32"@,
            }),
        }),
{
    match kind {
        FloatKind::F64 => Ok(bits),
        FloatKind::F32 => {
            if !f64_bits_is_finite(bits) {
                Err(ConferError::value_parse(section, key, "non-finite float"))
            } else if !f64_bits_in_f32_range(bits) {
                Err(ConferError::value_parse(section, key, "value out of range for f32"))
            } else {
                Ok(bits)
            }
        },
    }
}

/// The stored integer a record scalar widens to, or nothing when a 64-bit
/// unsigned value exceeds the signed range of stored integers.
pub open spec fn int_to_val(sv: Sv) -> Option<i64> {
    match sv {
        Sv::Int(x) => Some(x),
        Sv::Uint(x) => if x <= i64::MAX as u64 {
            Some(x as i64)
        } else {
            None
        },
        _ => None,
    }
}

/// Widens a record integer to the stored 64-bit signed representation; a
/// 64-bit unsigned value beyond the signed range fails with `ValueParse`.
pub fn integer_to_store(section: &str, key: &str, value: &ScalarValue) -> (r: Result<
    i64,
    ConferError,
>)
    requires
        value.model() is Int || value.model() is Uint,
    ensures
        (match int_to_val(value.model()) {
            Some(x) => r matches Ok(y) && y == x,
            None => r matches Err(e) && e.model() == (ErrModel::ValueParse {
                section: section@,
                key: key@,
                message: uint_range_message(value.model()->Uint_0),
            }),
        }),
{
    match value {
        ScalarValue::Int(x) => Ok(*x),
        ScalarValue::Uint(x) => {
            if *x <= i64::MAX as u64 {
                Ok(*x as i64)
            } else {
                let mut m = String::from_str("value `");
                let d = crate::fmt_num::u64_to_decimal(*x);
                m.append(d.as_str());
                m.append("` out of range for TOML integer");
                proof {
                    assert(m@ =~= uint_range_message(value.model()->Uint_0));
                }
                Err(ConferError::value_parse_owned(section, key, m))
            }
        },
        _ => {
            proof {
                assert(false);
            }
            Ok(0)
        },
    }
}


/// One field of a schema: the key it lives under in the section, its kinds,
/// an optional default applied when the key is missing, an optional initial
/// value used when a record is first built, and the ignored flag that keeps
/// the field out of both passes.
#[derive(Debug)]
pub struct FieldSpec {
    pub key: String,
    pub kind: FieldType,
    pub default: Option<FieldValue>,
    pub init: Option<FieldValue>,
    pub ignore: bool,
}

/// The mathematical model of a field description.
pub struct Fs {
    pub key: Seq<char>,
    pub kind: FieldType,
    pub default: Option<Fv>,
    pub init: Option<Fv>,
    pub ignore: bool,
}

impl FieldSpec {
    pub open spec fn model(&self) -> Fs {
        Fs {
            key: self.key@,
            kind: self.kind,
            default: match &self.default {
                Some(d) => Some(d.model()),
                None => None,
            },
            init: match &self.init {
                Some(d) => Some(d.model()),
                None => None,
            },
            ignore: self.ignore,
        }
    }
}

/// Models of a sequence of field descriptions, in order.
pub open spec fn fields_model(s: Seq<FieldSpec>) -> Seq<Fs>
    decreases s,
{
    if s.len() == 0 {
        Seq::empty()
    } else {
        fields_model(s.subrange(0, s.len() - 1)).push(s[s.len() - 1].model())
    }
}

/// `fields_model` maps the sequence elementwise.
pub proof fn lemma_fields_model(s: Seq<FieldSpec>)
    ensures
        fields_model(s).len() == s.len(),
        forall|i: int| 0 <= i < s.len() ==> fields_model(s)[i] == #[trigger] s[i].model(),
    decreases s.len(),
{
    if s.len() > 0 {
        let t = s.subrange(0, s.len() - 1);
        lemma_fields_model(t);
        assert forall|i: int| 0 <= i < s.len() implies fields_model(s)[i]
            == #[trigger] s[i].model() by {
            if i < s.len() - 1 {
                assert(t[i] == s[i]);
            }
        }
    }
}

/// A schema: the section a record lives in, and its fields in order.
#[derive(Debug)]
pub struct ModuleSchema {
    pub section: String,
    pub fields: Vec<FieldSpec>,
}

impl ModuleSchema {
    /// The section's name.
    pub open spec fn section_model(&self) -> Seq<char> {
        self.section@
    }

    /// The fields' models, in order.
    pub open spec fn model(&self) -> Seq<Fs> {
        fields_model(self.fields@)
    }
}

/// The record scalar a stored value converts to under the scalar kind, or
/// nothing when the value is refused: a wrong shape, an integer outside the
/// width, a float refused by the width, or a string that does not parse as a
/// timestamp.
pub open spec fn scalar_from_val(v: Val, k: ScalarKind) -> Option<Sv> {
    match k {
        ScalarKind::String => match v {
            Val::Text(t) => Some(Sv::Str(t)),
            _ => None,
        },
        ScalarKind::Bool => match v {
            Val::Bool(b) => Some(Sv::Bool(b)),
            _ => None,
        },
        ScalarKind::Integer(ik) => match v {
            Val::Int(x) => int_from_val(ik, x),
            _ => None,
        },
        ScalarKind::Float(fk) => match v {
            Val::Float(b) => match float_from_bits(fk, b) {
                Ok(x) => Some(Sv::Float(x)),
                Err(_) => None,
            },
            Val::Int(x) => match float_from_bits(
                fk,
                crate::value_conversion::float_bits_of_int(x),
            ) {
                Ok(y) => Some(Sv::Float(y)),
                Err(_) => None,
            },
            _ => None,
        },
        ScalarKind::Datetime => match v {
            Val::Timestamp(t) => Some(Sv::Datetime(t)),
            Val::Text(s) => match crate::value_conversion::datetime_of_text(s) {
                Some(c) => Some(Sv::Datetime(c)),
                None => None,
            },
            _ => None,
        },
    }
}

/// The record scalars a stored array converts to, elementwise, or nothing
/// when any element is refused.
pub open spec fn scalars_from_vals(items: Seq<Val>, k: ScalarKind) -> Option<Seq<Sv>>
    decreases items.len(),
{
    if items.len() == 0 {
        Some(Seq::empty())
    } else {
        match scalars_from_vals(items.subrange(0, items.len() - 1), k) {
            None => None,
            Some(rest) => match scalar_from_val(items[items.len() - 1], k) {
                Some(sv) => Some(rest.push(sv)),
                None => None,
            },
        }
    }
}

/// `scalars_from_vals` succeeds exactly when every element converts, and then
/// converts elementwise.
pub proof fn lemma_scalars_from_vals(items: Seq<Val>, k: ScalarKind)
    ensures
        (scalars_from_vals(items, k) is Some <==> (forall|i: int|
            0 <= i < items.len() ==> #[trigger] scalar_from_val(items[i], k) is Some)),
        (scalars_from_vals(items, k) matches Some(svs) ==> svs.len() == items.len() && (forall|
            i: int,
        |
            0 <= i < items.len() ==> svs[i] == #[trigger] scalar_from_val(items[i], k)->Some_0)),
    decreases items.len(),
{
    if items.len() > 0 {
        let t = items.subrange(0, items.len() - 1);
        lemma_scalars_from_vals(t, k);
        if forall|i: int| 0 <= i < items.len() ==> #[trigger] scalar_from_val(items[i], k) is Some {
            assert forall|i: int| 0 <= i < t.len() implies #[trigger] scalar_from_val(t[i], k)
                is Some by {
                assert(t[i] == items[i]);
                assert(scalar_from_val(items[i], k) is Some);
            }
        }
        if scalars_from_vals(items, k) is Some {
            assert forall|i: int|
                0 <= i < items.len() implies #[trigger] scalar_from_val(items[i], k) is Some by {
                if i < items.len() - 1 {
                    assert(t[i] == items[i]);
                    assert(scalar_from_val(t[i], k) is Some);
                }
            }
            assert forall|i: int|
                0 <= i < items.len() implies scalars_from_vals(items, k)->Some_0[i]
                == #[trigger] scalar_from_val(items[i], k)->Some_0 by {
                if i < items.len() - 1 {
                    assert(t[i] == items[i]);
                }
            }
        }
    }
}

/// The field value a stored value converts to under the field's type, or
/// nothing when it is refused.
pub open spec fn convert_field(v: Val, t: FieldType) -> Option<Fv> {
    match t.container {
        ContainerKind::Plain => match scalar_from_val(v, t.scalar) {
            Some(sv) => Some(Fv::Plain(sv)),
            None => None,
        },
        ContainerKind::Option => match scalar_from_val(v, t.scalar) {
            Some(sv) => Some(Fv::Option(Some(sv))),
            None => None,
        },
        ContainerKind::Vec => match v {
            Val::Arr(items) => match scalars_from_vals(items, t.scalar) {
                Some(svs) => Some(Fv::Vec(svs)),
                None => None,
            },
            _ => None,
        },
        ContainerKind::OptionVec => match v {
            Val::Arr(items) => match scalars_from_vals(items, t.scalar) {
                Some(svs) => Some(Fv::OptionVec(Some(svs))),
                None => None,
            },
            _ => None,
        },
    }
}

/// How fetching one field from the store ends: a converted value, a missing
/// section or key, or any other failure.
pub enum FetchOutcome {
    Got(Fv),
    Missing,
    Bad,
}

/// The outcome of fetching and converting the field's raw value.
pub open spec fn fetch_field_outcome(
    doc: Seq<(Seq<char>, Val)>,
    section: Seq<char>,
    f: Fs,
) -> FetchOutcome {
    match crate::store::fetch_model(doc, section, f.key) {
        Err(e) => if e matches ErrModel::MissingKey { section: _, key: _ } {
            FetchOutcome::Missing
        } else {
            FetchOutcome::Bad
        },
        Ok(v) => match convert_field(v, f.kind) {
            Some(fv) => FetchOutcome::Got(fv),
            None => FetchOutcome::Bad,
        },
    }
}


/// Validates every element of a stored integer array against the width; the
/// first out-of-range element fails with `ValueParse` naming the width.
#[verifier::loop_isolation(false)]
fn integers_from_store(kind: IntegerKind, section: &str, key: &str, values: &Vec<i64>) -> (r:
    Result<Vec<ScalarValue>, ConferError>)
    ensures
        (if forall|i: int| 0 <= i < values@.len() ==> #[trigger] int_from_val(kind, values@[i])
            is Some {
            r matches Ok(out) && out@.len() == values@.len() && svs_model(out@).len()
                == values@.len() && (forall|i: int|
                0 <= i < values@.len() ==> #[trigger] svs_model(out@)[i] == int_from_val(
                    kind,
                    values@[i],
                )->Some_0)
        } else {
            r matches Err(e) && e.model() == (ErrModel::ValueParse {
                section: section@,
                key: key@,
                message: int_range_message(kind),
            })
        }),
{
    let mut out: Vec<ScalarValue> = Vec::new();
    let mut i: usize = 0;
    while i < values.len()
        invariant
            i <= values@.len(),
            out@.len() == i,
            forall|j: int| 0 <= j < i ==> #[trigger] int_from_val(kind, values@[j]) is Some,
            forall|j: int|
                0 <= j < i ==> #[trigger] out@[j].model() == int_from_val(kind, values@[j])->Some_0,
        decreases values@.len() - i,
    {
        match integer_from_store(kind, section, key, values[i]) {
            Ok(sv) => {
                out.push(sv);
            },
            Err(e) => {
                return Err(e);
            },
        }
        i += 1;
    }
    proof {
        lemma_svs_model(out@);
        assert forall|j: int| 0 <= j < out@.len() implies #[trigger] svs_model(out@)[j] == out@[
        j].model() by {
            assert(out@[j].model() == svs_model(out@)[j]);
        }
    }
    Ok(out)
}

/// Index of the first encoding the width refuses, or a negative value when
/// every one passes.
pub open spec fn first_unfit_bits(k: FloatKind, values: Seq<u64>) -> int
    decreases values.len(),
{
    if values.len() == 0 {
        -1
    } else if !(float_from_bits(k, values[0]) is Ok) {
        0
    } else {
        let r = first_unfit_bits(k, values.drop_first());
        if r < 0 {
            -1
        } else {
            r + 1
        }
    }
}

/// `first_unfit_bits` finds the first refused encoding, exactly when one
/// exists.
pub proof fn lemma_first_unfit_bits(k: FloatKind, values: Seq<u64>)
    ensures
        (first_unfit_bits(k, values) < 0 <==> (forall|i: int|
            0 <= i < values.len() ==> #[trigger] float_from_bits(k, values[i]) is Ok)),
        first_unfit_bits(k, values) >= 0 ==> first_unfit_bits(k, values) < values.len() && !(
        float_from_bits(k, values[first_unfit_bits(k, values)]) is Ok),
        forall|j: int|
            0 <= j < first_unfit_bits(k, values) ==> #[trigger] float_from_bits(k, values[j])
                is Ok,
    decreases values.len(),
{
    if values.len() > 0 && float_from_bits(k, values[0]) is Ok {
        let t = values.drop_first();
        lemma_first_unfit_bits(k, t);
        assert forall|i: int|
            0 <= i < values.len() && !(#[trigger] float_from_bits(k, values[i])
                is Ok) implies first_unfit_bits(k, values) >= 0 by {
            assert(t[i - 1] == values[i]);
        }
        if first_unfit_bits(k, t) >= 0 {
            assert(values[first_unfit_bits(k, values)] == t[first_unfit_bits(k, t)]);
            assert forall|j: int|
                0 <= j < first_unfit_bits(k, values) implies #[trigger] float_from_bits(
                k,
                values[j],
            ) is Ok by {
                if j > 0 {
                    assert(t[j - 1] == values[j]);
                }
            }
        }
    }
}

/// Validates every element of a stored float array, as 64-bit encodings,
/// against the width; the first refused element fails with `ValueParse`
/// naming its fault.
#[verifier::loop_isolation(false)]
fn floats_from_store(kind: FloatKind, section: &str, key: &str, values: &Vec<u64>) -> (r: Result<
    Vec<ScalarValue>,
    ConferError,
>)
    ensures
        (if forall|i: int| 0 <= i < values@.len() ==> #[trigger] float_from_bits(kind, values@[i])
            is Ok {
            r matches Ok(out) && out@.len() == values@.len() && svs_model(out@).len()
                == values@.len() && (forall|i: int|
                0 <= i < values@.len() ==> #[trigger] svs_model(out@)[i] == Sv::Float(
                    float_from_bits(kind, values@[i])->Ok_0,
                ))
        } else {
            r matches Err(e) && e.model() == (ErrModel::ValueParse {
                section: section@,
                key: key@,
                message: float_fault_message(
                    float_from_bits(kind, values@[first_unfit_bits(kind, values@)])->Err_0,
                ),
            })
        }),
{
    proof {
        lemma_first_unfit_bits(kind, values@);
    }
    let mut out: Vec<ScalarValue> = Vec::new();
    let mut i: usize = 0;
    while i < values.len()
        invariant
            i <= values@.len(),
            out@.len() == i,
            forall|j: int| 0 <= j < i ==> #[trigger] float_from_bits(kind, values@[j]) is Ok,
            forall|j: int|
                0 <= j < i ==> #[trigger] out@[j].model() == Sv::Float(
                    float_from_bits(kind, values@[j])->Ok_0,
                ),
        decreases values@.len() - i,
    {
        match float_from_store(kind, section, key, values[i]) {
            Ok(b) => {
                out.push(ScalarValue::Float(b));
            },
            Err(e) => {
                proof {
                    assert(first_unfit_bits(kind, values@) == i);
                }
                return Err(e);
            },
        }
        i += 1;
    }
    proof {
        lemma_svs_model(out@);
        assert forall|j: int| 0 <= j < out@.len() implies #[trigger] svs_model(out@)[j] == out@[
        j].model() by {
            assert(out@[j].model() == svs_model(out@)[j]);
        }
    }
    Ok(out)
}

/// Wraps stored strings as record scalars.
#[verifier::loop_isolation(false)]
fn strings_to_scalars(values: Vec<String>) -> (r: Vec<ScalarValue>)
    ensures
        r@.len() == values@.len(),
        svs_model(r@).len() == values@.len(),
        forall|i: int|
            0 <= i < values@.len() ==> #[trigger] svs_model(r@)[i] == Sv::Str(values@[i]@),
{
    let ghost vs = values@;
    let mut out: Vec<ScalarValue> = Vec::new();
    let mut i: usize = 0;
    while i < values.len()
        invariant
            i <= vs.len(),
            values@ == vs,
            out@.len() == i,
            forall|j: int| 0 <= j < i ==> #[trigger] out@[j].model() == Sv::Str(vs[j]@),
        decreases vs.len() - i,
    {
        out.push(ScalarValue::Str(values[i].clone()));
        i += 1;
    }
    proof {
        lemma_svs_model(out@);
        assert forall|j: int| 0 <= j < out@.len() implies #[trigger] svs_model(out@)[j] == out@[
        j].model() by {
            assert(out@[j].model() == svs_model(out@)[j]);
        }
    }
    out
}

/// Wraps stored booleans as record scalars.
#[verifier::loop_isolation(false)]
fn bools_to_scalars(values: Vec<bool>) -> (r: Vec<ScalarValue>)
    ensures
        r@.len() == values@.len(),
        svs_model(r@).len() == values@.len(),
        forall|i: int|
            0 <= i < values@.len() ==> #[trigger] svs_model(r@)[i] == Sv::Bool(values@[i]),
{
    let ghost vs = values@;
    let mut out: Vec<ScalarValue> = Vec::new();
    let mut i: usize = 0;
    while i < values.len()
        invariant
            i <= vs.len(),
            values@ == vs,
            out@.len() == i,
            forall|j: int| 0 <= j < i ==> #[trigger] out@[j].model() == Sv::Bool(vs[j]),
        decreases vs.len() - i,
    {
        out.push(ScalarValue::Bool(values[i]));
        i += 1;
    }
    proof {
        lemma_svs_model(out@);
        assert forall|j: int| 0 <= j < out@.len() implies #[trigger] svs_model(out@)[j] == out@[
        j].model() by {
            assert(out@[j].model() == svs_model(out@)[j]);
        }
    }
    out
}

/// Wraps stored timestamps as record scalars.
#[verifier::loop_isolation(false)]
fn timestamps_to_scalars(values: Vec<Timestamp>) -> (r: Vec<ScalarValue>)
    ensures
        r@.len() == values@.len(),
        svs_model(r@).len() == values@.len(),
        forall|i: int|
            0 <= i < values@.len() ==> #[trigger] svs_model(r@)[i] == Sv::Datetime(
                values@[i].model(),
            ),
{
    let ghost vs = values@;
    let mut out: Vec<ScalarValue> = Vec::new();
    let mut i: usize = 0;
    while i < values.len()
        invariant
            i <= vs.len(),
            values@ == vs,
            out@.len() == i,
            forall|j: int| 0 <= j < i ==> #[trigger] out@[j].model() == Sv::Datetime(vs[j].model()),
        decreases vs.len() - i,
    {
        let d = &values[i];
        out.push(ScalarValue::Datetime(Timestamp::new(d.text.clone())));
        i += 1;
    }
    proof {
        lemma_svs_model(out@);
        assert forall|j: int| 0 <= j < out@.len() implies #[trigger] svs_model(out@)[j] == out@[
        j].model() by {
            assert(out@[j].model() == svs_model(out@)[j]);
        }
    }
    out
}


/// The error a refused scalar conversion raises, under the scalar kind.
/// Every case is exact except a timestamp text that does not parse, whose
/// message embeds the TOML parser's own words; there only the error's kind
/// and place are fixed.
pub open spec fn scalar_error_ok(
    v: Val,
    k: ScalarKind,
    section: Seq<char>,
    key: Seq<char>,
    em: ErrModel,
) -> bool {
    match k {
        ScalarKind::String => em == crate::value_conversion::mismatch(
            section,
            key,
            "string"@,
            crate::value_conversion::describe_model(v),
        ),
        ScalarKind::Bool => em == crate::value_conversion::mismatch(
            section,
            key,
            "boolean"@,
            crate::value_conversion::describe_model(v),
        ),
        ScalarKind::Integer(ik) => match v {
            Val::Int(_) => em == (ErrModel::ValueParse {
                section,
                key,
                message: int_range_message(ik),
            }),
            _ => em == crate::value_conversion::mismatch(
                section,
                key,
                "integer"@,
                crate::value_conversion::describe_model(v),
            ),
        },
        ScalarKind::Float(fk) => match v {
            Val::Float(b) => em == (ErrModel::ValueParse {
                section,
                key,
                message: float_fault_message(float_from_bits(fk, b)->Err_0),
            }),
            Val::Int(x) => em == (ErrModel::ValueParse {
                section,
                key,
                message: float_fault_message(
                    float_from_bits(fk, crate::value_conversion::float_bits_of_int(x))->Err_0,
                ),
            }),
            _ => em == crate::value_conversion::mismatch(
                section,
                key,
                "float"@,
                crate::value_conversion::describe_model(v),
            ),
        },
        ScalarKind::Datetime => match v {
            Val::Text(_) => em matches ErrModel::ValueParse { section: es, key: ek, message: _ }
                && es == section && ek == key,
            _ => em == crate::value_conversion::mismatch(
                section,
                key,
                "datetime"@,
                crate::value_conversion::describe_model(v),
            ),
        },
    }
}

/// The error a refused array conversion raises: a wrongly shaped element
/// names its place; a well-shaped element refused by an integer or float
/// width names the width or the fault.
pub open spec fn vec_error_ok(
    items: Seq<Val>,
    k: ScalarKind,
    section: Seq<char>,
    key: Seq<char>,
    em: ErrModel,
) -> bool {
    match k {
        ScalarKind::String => {
            let bad = crate::value_conversion::first_bad(
                items,
                |w: Val| crate::value_conversion::is_text(w),
            );
            em == (ErrModel::ValueParse {
                section,
                key,
                message: crate::error::indexed_message(
                    crate::value_conversion::element_mismatch_message(
                        "string"@,
                        crate::value_conversion::describe_model(items[bad]),
                    ),
                    bad as nat,
                ),
            })
        },
        ScalarKind::Bool => {
            let bad = crate::value_conversion::first_bad(
                items,
                |w: Val| crate::value_conversion::is_bool(w),
            );
            em == (ErrModel::ValueParse {
                section,
                key,
                message: crate::error::indexed_message(
                    crate::value_conversion::element_mismatch_message(
                        "boolean"@,
                        crate::value_conversion::describe_model(items[bad]),
                    ),
                    bad as nat,
                ),
            })
        },
        ScalarKind::Integer(ik) => {
            let bad = crate::value_conversion::first_bad(
                items,
                |w: Val| crate::value_conversion::is_int(w),
            );
            if bad >= 0 {
                em == (ErrModel::ValueParse {
                    section,
                    key,
                    message: crate::error::indexed_message(
                        crate::value_conversion::element_mismatch_message(
                            "integer"@,
                            crate::value_conversion::describe_model(items[bad]),
                        ),
                        bad as nat,
                    ),
                })
            } else {
                em == (ErrModel::ValueParse { section, key, message: int_range_message(ik) })
            }
        },
        ScalarKind::Float(fk) => {
            let bad = crate::value_conversion::first_bad(
                items,
                |w: Val| crate::value_conversion::is_float_like(w),
            );
            if bad >= 0 {
                em == (ErrModel::ValueParse {
                    section,
                    key,
                    message: crate::error::indexed_message(
                        crate::value_conversion::element_mismatch_message(
                            "float"@,
                            crate::value_conversion::describe_model(items[bad]),
                        ),
                        bad as nat,
                    ),
                })
            } else {
                let bits = items.map_values(|w: Val| crate::value_conversion::float_elem(w));
                em == (ErrModel::ValueParse {
                    section,
                    key,
                    message: float_fault_message(
                        float_from_bits(fk, bits[first_unfit_bits(fk, bits)])->Err_0,
                    ),
                })
            }
        },
        ScalarKind::Datetime => em matches ErrModel::ValueParse {
            section: es,
            key: ek,
            message: _,
        } && es == section && ek == key,
    }
}

/// The error a refused field fetch raises once the raw value was found: the
/// fetch's own error is returned unchanged, and a conversion error is the
/// one the conversion raises.
pub open spec fn bad_fetch_error(
    doc: Seq<(Seq<char>, Val)>,
    section: Seq<char>,
    f: Fs,
    em: ErrModel,
) -> bool {
    match crate::store::fetch_model(doc, section, f.key) {
        Err(em0) => em == em0,
        Ok(v) => match f.kind.container {
            ContainerKind::Plain | ContainerKind::Option => scalar_error_ok(
                v,
                f.kind.scalar,
                section,
                f.key,
                em,
            ),
            ContainerKind::Vec | ContainerKind::OptionVec => match v {
                Val::Arr(items) => vec_error_ok(items, f.kind.scalar, section, f.key, em),
                _ => em == crate::value_conversion::mismatch(
                    section,
                    f.key,
                    "array"@,
                    crate::value_conversion::describe_model(v),
                ),
            },
        },
    }
}

/// Fetches `section.key` for a field and converts it to the field's shape.
/// The error is exactly `MissingKey` when the section or key is absent; any
/// other failure returns the fetch's or the conversion's own error,
/// unchanged.
fn fetch_field(store: &crate::store::Confer, section: &str, f: &FieldSpec) -> (r: Result<
    FieldValue,
    ConferError,
>)
    requires
        store.wf(),
    ensures
        (match fetch_field_outcome(store.model(), section@, f.model()) {
            FetchOutcome::Got(fv) => r matches Ok(x) && x.model() == fv,
            FetchOutcome::Missing => r matches Err(e) && e.model() == (ErrModel::MissingKey {
                section: section@,
                key: f.key@,
            }),
            FetchOutcome::Bad => r matches Err(e) && !(e.model() is MissingKey)
                && bad_fetch_error(store.model(), section@, f.model(), e.model()),
        }),
{
    let ghost doc = store.model();
    let ghost fm = f.model();
    let key = f.key.as_str();
    let vec_like = match f.kind.container {
        ContainerKind::Vec | ContainerKind::OptionVec => true,
        _ => false,
    };
    if vec_like {
        let svs: Vec<ScalarValue> = match f.kind.scalar {
            ScalarKind::String => match store.get_string_vec(section, key) {
                Ok(v) => {
                    let out = strings_to_scalars(v);
                    proof {
                        let items = crate::store::fetch_model(doc, section@, fm.key)->Ok_0->Arr_0;
                        crate::value_conversion::lemma_first_bad(
                            items,
                            |w: Val| crate::value_conversion::is_text(w),
                        );
                        lemma_scalars_from_vals(items, ScalarKind::String);
                        assert forall|q: int|
                            0 <= q < items.len() implies #[trigger] scalar_from_val(
                            items[q],
                            ScalarKind::String,
                        ) is Some by {
                            assert(crate::value_conversion::is_text(items[q]));
                        }
                        let target = scalars_from_vals(items, ScalarKind::String)->Some_0;
                        assert forall|q: int|
                            0 <= q < items.len() implies target[q] == svs_model(out@)[q] by {
                            assert(target[q] == scalar_from_val(
                                items[q],
                                ScalarKind::String,
                            )->Some_0);
                            assert(crate::value_conversion::is_text(items[q]));
                        }
                        assert(target =~= svs_model(out@));
                    }
                    out
                },
Err(e) => {
                    proof {
                        let fetched = crate::store::fetch_model(doc, section@, fm.key);
                        if fetched is Ok && fetched->Ok_0 is Arr {
                            let items = fetched->Ok_0->Arr_0;
                            crate::value_conversion::lemma_first_bad(
                                items,
                                |w: Val| crate::value_conversion::is_text(w),
                            );
                            lemma_scalars_from_vals(items, ScalarKind::String);
                            let bad = crate::value_conversion::first_bad(
                                items,
                                |w: Val| crate::value_conversion::is_text(w),
                            );
                            if 0 <= bad < items.len() {
                                assert(!crate::value_conversion::is_text(items[bad]));
                                assert(scalar_from_val(items[bad], ScalarKind::String) is None);
                            }
                        }
                    }
                    return Err(e);
                },
            },
            ScalarKind::Bool => match store.get_boolean_vec(section, key) {
                Ok(v) => {
                    let out = bools_to_scalars(v);
                    proof {
                        let items = crate::store::fetch_model(doc, section@, fm.key)->Ok_0->Arr_0;
                        crate::value_conversion::lemma_first_bad(
                            items,
                            |w: Val| crate::value_conversion::is_bool(w),
                        );
                        lemma_scalars_from_vals(items, ScalarKind::Bool);
                        assert forall|q: int|
                            0 <= q < items.len() implies #[trigger] scalar_from_val(
                            items[q],
                            ScalarKind::Bool,
                        ) is Some by {
                            assert(crate::value_conversion::is_bool(items[q]));
                        }
                        let target = scalars_from_vals(items, ScalarKind::Bool)->Some_0;
                        assert forall|q: int|
                            0 <= q < items.len() implies target[q] == svs_model(out@)[q] by {
                            assert(target[q] == scalar_from_val(items[q], ScalarKind::Bool)->Some_0);
                            assert(crate::value_conversion::is_bool(items[q]));
                        }
                        assert(target =~= svs_model(out@));
                    }
                    out
                },
Err(e) => {
                    proof {
                        let fetched = crate::store::fetch_model(doc, section@, fm.key);
                        if fetched is Ok && fetched->Ok_0 is Arr {
                            let items = fetched->Ok_0->Arr_0;
                            crate::value_conversion::lemma_first_bad(
                                items,
                                |w: Val| crate::value_conversion::is_bool(w),
                            );
                            lemma_scalars_from_vals(items, ScalarKind::Bool);
                            let bad = crate::value_conversion::first_bad(
                                items,
                                |w: Val| crate::value_conversion::is_bool(w),
                            );
                            if 0 <= bad < items.len() {
                                assert(!crate::value_conversion::is_bool(items[bad]));
                                assert(scalar_from_val(items[bad], ScalarKind::Bool) is None);
                            }
                        }
                    }
                    return Err(e);
                },
            },
            ScalarKind::Integer(ik) => match store.get_integer_vec(section, key) {
                Ok(v) => {
                    let converted = integers_from_store(ik, section, key, &v);
                    proof {
                        let items = crate::store::fetch_model(doc, section@, fm.key)->Ok_0->Arr_0;
                        crate::value_conversion::lemma_first_bad(
                            items,
                            |w: Val| crate::value_conversion::is_int(w),
                        );
                        lemma_scalars_from_vals(items, ScalarKind::Integer(ik));
                        assert forall|q: int|
                            0 <= q < items.len() implies #[trigger] scalar_from_val(
                            items[q],
                            ScalarKind::Integer(ik),
                        ) == int_from_val(ik, v@[q]) by {
                            assert(crate::value_conversion::is_int(items[q]));
                            assert(v@[q] == items[q]->Int_0);
                        }
                    }
                    match converted {
                        Ok(out) => {
                            proof {
                                let items = crate::store::fetch_model(
                                    doc,
                                    section@,
                                    fm.key,
                                )->Ok_0->Arr_0;
                                let target = scalars_from_vals(
                                    items,
                                    ScalarKind::Integer(ik),
                                )->Some_0;
                                assert forall|q: int|
                                    0 <= q < items.len() implies target[q] == svs_model(
                                    out@,
                                )[q] by {
                                    assert(scalar_from_val(items[q], ScalarKind::Integer(ik))
                                        is Some);
                                }
                                assert(target =~= svs_model(out@));
                            }
                            out
                        },
                        Err(e) => {
                            proof {
                                let items = crate::store::fetch_model(
                                    doc,
                                    section@,
                                    fm.key,
                                )->Ok_0->Arr_0;
                                let bad_q = choose|q: int|
                                    0 <= q < v@.len() && !(#[trigger] int_from_val(ik, v@[q])
                                        is Some);
                                assert(scalar_from_val(items[bad_q], ScalarKind::Integer(ik))
                                    is None);
                                assert(!(scalars_from_vals(items, ScalarKind::Integer(ik))
                                    is Some));
                            }
                            return Err(e);
                        },
                    }
                },
                Err(e) => {
                    proof {
                        let fetched = crate::store::fetch_model(doc, section@, fm.key);
                        if fetched is Ok && fetched->Ok_0 is Arr {
                            let items = fetched->Ok_0->Arr_0;
                            crate::value_conversion::lemma_first_bad(
                                items,
                                |w: Val| crate::value_conversion::is_int(w),
                            );
                            lemma_scalars_from_vals(items, ScalarKind::Integer(ik));
                            let bad = crate::value_conversion::first_bad(
                                items,
                                |w: Val| crate::value_conversion::is_int(w),
                            );
                            if 0 <= bad < items.len() {
                                assert(!crate::value_conversion::is_int(items[bad]));
                                assert(scalar_from_val(items[bad], ScalarKind::Integer(ik)) is None);
                            }
                        }
                    }
                    return Err(e);
                },
            },
            ScalarKind::Float(fk) => match store.get_float_vec(section, key) {
                Ok(v) => {
                    let converted = floats_from_store(fk, section, key, &v);
                    proof {
                        let items = crate::store::fetch_model(doc, section@, fm.key)->Ok_0->Arr_0;
                        crate::value_conversion::lemma_first_bad(
                            items,
                            |w: Val| crate::value_conversion::is_float_like(w),
                        );
                        lemma_scalars_from_vals(items, ScalarKind::Float(fk));
                        assert forall|q: int|
                            0 <= q < items.len() implies ((#[trigger] scalar_from_val(
                            items[q],
                            ScalarKind::Float(fk),
                        ) is Some <==> float_from_bits(fk, v@[q]) is Ok) && (float_from_bits(
                            fk,
                            v@[q],
                        ) matches Ok(b) ==> scalar_from_val(items[q], ScalarKind::Float(fk))
                            == Some(Sv::Float(b)))) by {
                            assert(crate::value_conversion::is_float_like(items[q]));
                            assert(v@[q] == crate::value_conversion::float_elem(items[q]));
                        }
                    }
                    match converted {
                        Ok(out) => {
                            proof {
                                let items = crate::store::fetch_model(
                                    doc,
                                    section@,
                                    fm.key,
                                )->Ok_0->Arr_0;
                                let target = scalars_from_vals(
                                    items,
                                    ScalarKind::Float(fk),
                                )->Some_0;
                                assert forall|q: int|
                                    0 <= q < items.len() implies target[q] == svs_model(
                                    out@,
                                )[q] by {
                                    assert(scalar_from_val(items[q], ScalarKind::Float(fk))
                                        is Some);
                                }
                                assert(target =~= svs_model(out@));
                            }
                            out
                        },
                        Err(e) => {
                            proof {
                                let items = crate::store::fetch_model(
                                    doc,
                                    section@,
                                    fm.key,
                                )->Ok_0->Arr_0;
                                let bad_q = choose|q: int|
                                    0 <= q < v@.len() && !(#[trigger] float_from_bits(fk, v@[q])
                                        is Ok);
                                assert(scalar_from_val(items[bad_q], ScalarKind::Float(fk))
                                    is None);
                                assert(!(scalars_from_vals(items, ScalarKind::Float(fk)) is Some));
                                let bits = items.map_values(
                                    |w: Val| crate::value_conversion::float_elem(w),
                                );
                                assert forall|q: int| 0 <= q < items.len() implies bits[q] == v@[
                                q] by {
                                    assert(v@[q] == crate::value_conversion::float_elem(items[q]));
                                }
                                assert(bits =~= v@);
                            }
                            return Err(e);
                        },
                    }
                },
                Err(e) => {
                    proof {
                        let fetched = crate::store::fetch_model(doc, section@, fm.key);
                        if fetched is Ok && fetched->Ok_0 is Arr {
                            let items = fetched->Ok_0->Arr_0;
                            crate::value_conversion::lemma_first_bad(
                                items,
                                |w: Val| crate::value_conversion::is_float_like(w),
                            );
                            lemma_scalars_from_vals(items, ScalarKind::Float(fk));
                            let bad = crate::value_conversion::first_bad(
                                items,
                                |w: Val| crate::value_conversion::is_float_like(w),
                            );
                            if 0 <= bad < items.len() {
                                assert(!crate::value_conversion::is_float_like(items[bad]));
                                assert(scalar_from_val(items[bad], ScalarKind::Float(fk)) is None);
                            }
                        }
                    }
                    return Err(e);
                },
            },
            ScalarKind::Datetime => match store.get_datetime_vec(section, key) {
                Ok(v) => {
                    let out = timestamps_to_scalars(v);
                    proof {
                        let items = crate::store::fetch_model(doc, section@, fm.key)->Ok_0->Arr_0;
                        crate::value_conversion::lemma_first_bad(
                            items,
                            |w: Val| crate::value_conversion::is_datetime_like(w),
                        );
                        lemma_scalars_from_vals(items, ScalarKind::Datetime);
                        assert forall|q: int|
                            0 <= q < items.len() implies #[trigger] scalar_from_val(
                            items[q],
                            ScalarKind::Datetime,
                        ) == Some(Sv::Datetime(crate::value_conversion::datetime_elem(items[q])))
                            by {
                            assert(crate::value_conversion::is_datetime_like(items[q]));
                        }
                        let target = scalars_from_vals(items, ScalarKind::Datetime)->Some_0;
                        assert forall|q: int|
                            0 <= q < items.len() implies target[q] == svs_model(out@)[q] by {
                            assert(scalar_from_val(items[q], ScalarKind::Datetime) is Some);
                        }
                        assert(target =~= svs_model(out@));
                    }
                    out
                },
Err(e) => {
                    proof {
                        let fetched = crate::store::fetch_model(doc, section@, fm.key);
                        if fetched is Ok && fetched->Ok_0 is Arr {
                            let items = fetched->Ok_0->Arr_0;
                            crate::value_conversion::lemma_first_bad(
                                items,
                                |w: Val| crate::value_conversion::is_datetime_like(w),
                            );
                            lemma_scalars_from_vals(items, ScalarKind::Datetime);
                            let bad = crate::value_conversion::first_bad(
                                items,
                                |w: Val| crate::value_conversion::is_datetime_like(w),
                            );
                            if 0 <= bad < items.len() {
                                assert(!crate::value_conversion::is_datetime_like(items[bad]));
                                assert(scalar_from_val(items[bad], ScalarKind::Datetime) is None);
                            }
                        }
                    }
                    return Err(e);
                },
            },
        };
        match f.kind.container {
            ContainerKind::Vec => Ok(FieldValue::Vec(svs)),
            _ => Ok(FieldValue::OptionVec(Some(svs))),
        }
    } else {
        let sv: ScalarValue = match f.kind.scalar {
            ScalarKind::String => match store.get_string(section, key) {
                Ok(v) => ScalarValue::Str(v),
                Err(e) => {
                    return Err(e);
                },
            },
            ScalarKind::Bool => match store.get_boolean(section, key) {
                Ok(v) => ScalarValue::Bool(v),
                Err(e) => {
                    return Err(e);
                },
            },
            ScalarKind::Integer(ik) => match store.get_integer(section, key) {
                Ok(v) => match integer_from_store(ik, section, key, v) {
                    Ok(x) => x,
                    Err(e) => {
                        return Err(e);
                    },
                },
                Err(e) => {
                    return Err(e);
                },
            },
            ScalarKind::Float(fk) => match store.get_float(section, key) {
                Ok(b) => match float_from_store(fk, section, key, b) {
                    Ok(x) => ScalarValue::Float(x),
                    Err(e) => {
                        return Err(e);
                    },
                },
                Err(e) => {
                    return Err(e);
                },
            },
            ScalarKind::Datetime => match store.get_datetime(section, key) {
                Ok(d) => ScalarValue::Datetime(d),
                Err(e) => {
                    return Err(e);
                },
            },
        };
        match f.kind.container {
            ContainerKind::Plain => Ok(FieldValue::Plain(sv)),
            _ => Ok(FieldValue::Option(Some(sv))),
        }
    }
}


/// A record: one value per schema field, in field order.
#[derive(Debug)]
pub struct Record {
    pub values: Vec<FieldValue>,
}

/// Models of a sequence of field values, in order.
pub open spec fn fvs_model(s: Seq<FieldValue>) -> Seq<Fv>
    decreases s,
{
    if s.len() == 0 {
        Seq::empty()
    } else {
        fvs_model(s.subrange(0, s.len() - 1)).push(s[s.len() - 1].model())
    }
}

/// `fvs_model` maps the sequence elementwise.
pub proof fn lemma_fvs_model(s: Seq<FieldValue>)
    ensures
        fvs_model(s).len() == s.len(),
        forall|i: int| 0 <= i < s.len() ==> fvs_model(s)[i] == #[trigger] s[i].model(),
    decreases s.len(),
{
    if s.len() > 0 {
        let t = s.subrange(0, s.len() - 1);
        lemma_fvs_model(t);
        assert forall|i: int| 0 <= i < s.len() implies fvs_model(s)[i] == #[trigger] s[i].model()
        by {
            if i < s.len() - 1 {
                assert(t[i] == s[i]);
            }
        }
    }
}

/// Updating one field value updates the model pointwise.
pub proof fn lemma_fvs_update(s: Seq<FieldValue>, i: int, v: FieldValue)
    requires
        0 <= i < s.len(),
    ensures
        fvs_model(s.update(i, v)) == fvs_model(s).update(i, v.model()),
{
    lemma_fvs_model(s);
    lemma_fvs_model(s.update(i, v));
    assert forall|q: int| 0 <= q < s.len() implies fvs_model(s.update(i, v))[q] == fvs_model(
        s,
    ).update(i, v.model())[q] by {
        assert(fvs_model(s.update(i, v))[q] == s.update(i, v)[q].model());
        assert(fvs_model(s)[q] == s[q].model());
    }
    assert(fvs_model(s.update(i, v)) =~= fvs_model(s).update(i, v.model()));
}

impl Record {
    /// The record's model: its field values in order.
    pub open spec fn model(&self) -> Seq<Fv> {
        fvs_model(self.values@)
    }
}

/// How one field ends during a load pass: a value to assign (converted,
/// defaulted, or the absent state of an optional field), nothing for an
/// ignored field, or a failure that stops the pass.
pub enum FieldOutcome {
    Loaded(Fv),
    Skip,
    Fail,
}

/// The outcome of loading one field.
pub open spec fn field_outcome(doc: Seq<(Seq<char>, Val)>, section: Seq<char>, f: Fs) -> FieldOutcome {
    if f.ignore {
        FieldOutcome::Skip
    } else {
        match fetch_field_outcome(doc, section, f) {
            FetchOutcome::Got(fv) => FieldOutcome::Loaded(fv),
            FetchOutcome::Bad => FieldOutcome::Fail,
            FetchOutcome::Missing => match f.default {
                Some(d) => FieldOutcome::Loaded(d),
                None => match f.kind.container {
                    ContainerKind::Plain | ContainerKind::Vec => FieldOutcome::Fail,
                    ContainerKind::Option => FieldOutcome::Loaded(Fv::Option(None)),
                    ContainerKind::OptionVec => FieldOutcome::Loaded(Fv::OptionVec(None)),
                },
            },
        }
    }
}

/// What a load pass does from field `i` on: the record's state when the pass
/// ends, and whether it ended without an error.  A failing field stops the
/// pass at once; earlier fields keep their newly assigned values.
pub open spec fn spec_load_from(
    doc: Seq<(Seq<char>, Val)>,
    section: Seq<char>,
    fields: Seq<Fs>,
    rec: Seq<Fv>,
    i: int,
) -> (Seq<Fv>, bool)
    decreases fields.len() - i,
{
    if i < 0 || i >= fields.len() {
        (rec, true)
    } else {
        match field_outcome(doc, section, fields[i]) {
            FieldOutcome::Skip => spec_load_from(doc, section, fields, rec, i + 1),
            FieldOutcome::Loaded(fv) => spec_load_from(doc, section, fields, rec.update(i, fv), i + 1),
            FieldOutcome::Fail => (rec, false),
        }
    }
}

/// Index of the first field that stops a load pass, or a negative value
/// when none does.
pub open spec fn load_fail_index(
    doc: Seq<(Seq<char>, Val)>,
    section: Seq<char>,
    fields: Seq<Fs>,
    i: int,
) -> int
    decreases fields.len() - i,
{
    if i < 0 || i >= fields.len() {
        -1
    } else if field_outcome(doc, section, fields[i]) is Fail {
        i
    } else {
        load_fail_index(doc, section, fields, i + 1)
    }
}

/// The error a failing field load raises: exactly `MissingKey` for a missing
/// required field, otherwise the fetch's or the conversion's own error,
/// unchanged.
pub open spec fn load_field_error(
    doc: Seq<(Seq<char>, Val)>,
    section: Seq<char>,
    f: Fs,
    em: ErrModel,
) -> bool {
    if fetch_field_outcome(doc, section, f) is Missing {
        em == (ErrModel::MissingKey { section, key: f.key })
    } else {
        bad_fetch_error(doc, section, f, em)
    }
}

/// What a whole load pass does to a record.
pub open spec fn spec_load(
    doc: Seq<(Seq<char>, Val)>,
    section: Seq<char>,
    fields: Seq<Fs>,
    rec: Seq<Fv>,
) -> (Seq<Fv>, bool) {
    spec_load_from(doc, section, fields, rec, 0)
}

impl ModuleSchema {
    /// Refreshes `record` from the store, field by field in schema order.  A
    /// missing key takes the field's default when one is declared; a missing
    /// optional field becomes absent; a missing required field stops the pass
    /// with `MissingKey`.  Any other error stops the pass at once.  A stopped
    /// pass leaves every earlier field already assigned: a failed load leaves
    /// the record in a mixed state.
    #[verifier::loop_isolation(false)]
    pub fn load(&self, store: &crate::store::Confer, record: &mut Record) -> (r: Result<
        (),
        ConferError,
    >)
        requires
            store.wf(),
            old(record).model().len() == self.model().len(),
        ensures
            final(record).model() == spec_load(
                store.model(),
                self.section_model(),
                self.model(),
                old(record).model(),
            ).0,
            r is Ok <==> spec_load(
                store.model(),
                self.section_model(),
                self.model(),
                old(record).model(),
            ).1,
            r matches Err(e) ==> ({
                let j = load_fail_index(store.model(), self.section_model(), self.model(), 0);
                &&& 0 <= j < self.model().len()
                &&& load_field_error(
                    store.model(),
                    self.section_model(),
                    self.model()[j],
                    e.model(),
                )
            }),
    {
        let ghost doc = store.model();
        let ghost sec = self.section_model();
        let ghost fieldsm = self.model();
        let ghost rec0 = record.model();
        proof {
            lemma_fields_model(self.fields@);
            lemma_fvs_model(record.values@);
        }
        let mut i: usize = 0;
        while i < self.fields.len()
            invariant
                i <= self.fields@.len(),
                record.values@.len() == fieldsm.len(),
                record.model().len() == fieldsm.len(),
                spec_load_from(doc, sec, fieldsm, rec0, 0) == spec_load_from(
                    doc,
                    sec,
                    fieldsm,
                    record.model(),
                    i as int,
                ),
                load_fail_index(doc, sec, fieldsm, 0) == load_fail_index(doc, sec, fieldsm, i as int),
            decreases self.fields@.len() - i,
        {
            let ghost prev = record.model();
            let f = &self.fields[i];
            proof {
                assert(fieldsm[i as int] == f.model());
            }
            if !f.ignore {
                match fetch_field(store, self.section.as_str(), f) {
                    Ok(fv) => {
                        proof {
                            assert(field_outcome(doc, sec, fieldsm[i as int])
                                == FieldOutcome::Loaded(fv.model()));
                        }
                        let ghost oldvals = record.values@;
                        record.values[i] = fv;
                        proof {
                            lemma_fvs_update(oldvals, i as int, record.values@[i as int]);
                        }
                    },
                    Err(e) => {
                        let missing = matches!(e, ConferError::MissingKey { .. });
                        if missing {
                            match &f.default {
                                Some(d) => {
                                    let dd = d.duplicate();
                                    proof {
                                        assert(field_outcome(doc, sec, fieldsm[i as int])
                                            == FieldOutcome::Loaded(dd.model()));
                                    }
                                    let ghost oldvals = record.values@;
                                    record.values[i] = dd;
                                    proof {
                                        lemma_fvs_update(
                                            oldvals,
                                            i as int,
                                            record.values@[i as int],
                                        );
                                    }
                                },
                                None => {
                                    match f.kind.container {
                                        ContainerKind::Plain | ContainerKind::Vec => {
                                            proof {
                                                assert(field_outcome(doc, sec, fieldsm[i as int])
                                                    == FieldOutcome::Fail);
                                                assert(load_fail_index(doc, sec, fieldsm, i as int)
                                                    == i as int);
                                                assert(load_field_error(
                                                    doc,
                                                    sec,
                                                    fieldsm[i as int],
                                                    e.model(),
                                                ));
                                            }
                                            return Err(e);
                                        },
                                        ContainerKind::Option => {
                                            let ghost oldvals = record.values@;
                                            record.values[i] = FieldValue::Option(None);
                                            proof {
                                                assert(field_outcome(doc, sec, fieldsm[i as int])
                                                    == FieldOutcome::Loaded(Fv::Option(None)));
                                                lemma_fvs_update(
                                                    oldvals,
                                                    i as int,
                                                    record.values@[i as int],
                                                );
                                            }
                                        },
                                        ContainerKind::OptionVec => {
                                            let ghost oldvals = record.values@;
                                            record.values[i] = FieldValue::OptionVec(None);
                                            proof {
                                                assert(field_outcome(doc, sec, fieldsm[i as int])
                                                    == FieldOutcome::Loaded(Fv::OptionVec(None)));
                                                lemma_fvs_update(
                                                    oldvals,
                                                    i as int,
                                                    record.values@[i as int],
                                                );
                                            }
                                        },
                                    }
                                },
                            }
                        } else {
                            proof {
                                assert(field_outcome(doc, sec, fieldsm[i as int])
                                    == FieldOutcome::Fail);
                                assert(load_fail_index(doc, sec, fieldsm, i as int) == i as int);
                                assert(load_field_error(doc, sec, fieldsm[i as int], e.model()));
                            }
                            return Err(e);
                        }
                    },
                }
            } else {
                proof {
                    assert(field_outcome(doc, sec, fieldsm[i as int]) == FieldOutcome::Skip);
                }
            }
            i += 1;
        }
        Ok(())
    }
}


/// The stored value a record scalar widens to, or nothing when a 64-bit
/// unsigned value exceeds the signed range of stored integers.
pub open spec fn scalar_to_stored(sv: Sv) -> Option<Val> {
    match sv {
        Sv::Str(t) => Some(Val::Text(t)),
        Sv::Bool(b) => Some(Val::Bool(b)),
        Sv::Int(x) => Some(Val::Int(x)),
        Sv::Uint(x) => if x <= i64::MAX as u64 {
            Some(Val::Int(x as i64))
        } else {
            None
        },
        Sv::Float(b) => Some(Val::Float(b)),
        Sv::Datetime(t) => Some(Val::Timestamp(t)),
    }
}

/// The stored values a record array widens to, elementwise, or nothing when
/// any element is refused.
pub open spec fn scalars_to_stored(items: Seq<Sv>) -> Option<Seq<Val>>
    decreases items.len(),
{
    if items.len() == 0 {
        Some(Seq::empty())
    } else {
        match scalars_to_stored(items.subrange(0, items.len() - 1)) {
            None => None,
            Some(rest) => match scalar_to_stored(items[items.len() - 1]) {
                Some(v) => Some(rest.push(v)),
                None => None,
            },
        }
    }
}

/// `scalars_to_stored` succeeds exactly when every element widens, and then
/// widens elementwise.
pub proof fn lemma_scalars_to_stored(items: Seq<Sv>)
    ensures
        (scalars_to_stored(items) is Some <==> (forall|i: int|
            0 <= i < items.len() ==> #[trigger] scalar_to_stored(items[i]) is Some)),
        (scalars_to_stored(items) matches Some(vs) ==> vs.len() == items.len() && (forall|i: int|
            0 <= i < items.len() ==> vs[i] == #[trigger] scalar_to_stored(items[i])->Some_0)),
    decreases items.len(),
{
    if items.len() > 0 {
        let t = items.subrange(0, items.len() - 1);
        lemma_scalars_to_stored(t);
        if forall|i: int| 0 <= i < items.len() ==> #[trigger] scalar_to_stored(items[i]) is Some {
            assert forall|i: int| 0 <= i < t.len() implies #[trigger] scalar_to_stored(t[i])
                is Some by {
                assert(t[i] == items[i]);
                assert(scalar_to_stored(items[i]) is Some);
            }
        }
        if scalars_to_stored(items) is Some {
            assert forall|i: int|
                0 <= i < items.len() implies #[trigger] scalar_to_stored(items[i]) is Some by {
                if i < items.len() - 1 {
                    assert(t[i] == items[i]);
                    assert(scalar_to_stored(t[i]) is Some);
                }
            }
            assert forall|i: int|
                0 <= i < items.len() implies scalars_to_stored(items)->Some_0[i]
                == #[trigger] scalar_to_stored(items[i])->Some_0 by {
                if i < items.len() - 1 {
                    assert(t[i] == items[i]);
                }
            }
        }
    }
}

/// What writing one field does: put a stored value under the key, drop the
/// key (an absent optional field), or fail.
pub enum SaveAction {
    Put(Val),
    Drop,
    Fail,
}

/// The write a field value calls for.
pub open spec fn field_action(fv: Fv) -> SaveAction {
    match fv {
        Fv::Plain(sv) => match scalar_to_stored(sv) {
            Some(v) => SaveAction::Put(v),
            None => SaveAction::Fail,
        },
        Fv::Vec(items) => match scalars_to_stored(items) {
            Some(vs) => SaveAction::Put(Val::Arr(vs)),
            None => SaveAction::Fail,
        },
        Fv::Option(o) => match o {
            Some(sv) => match scalar_to_stored(sv) {
                Some(v) => SaveAction::Put(v),
                None => SaveAction::Fail,
            },
            None => SaveAction::Drop,
        },
        Fv::OptionVec(o) => match o {
            Some(items) => match scalars_to_stored(items) {
                Some(vs) => SaveAction::Put(Val::Arr(vs)),
                None => SaveAction::Fail,
            },
            None => SaveAction::Drop,
        },
    }
}

/// What the write phase of a save pass does from field `i` on: the document
/// when the phase ends, and whether it ended without an error.  A failing
/// field stops the phase at once; earlier writes stay.
pub open spec fn spec_save_from(
    doc: Seq<(Seq<char>, Val)>,
    section: Seq<char>,
    fields: Seq<Fs>,
    rec: Seq<Fv>,
    i: int,
) -> (Seq<(Seq<char>, Val)>, bool)
    decreases fields.len() - i,
{
    if i < 0 || i >= fields.len() {
        (doc, true)
    } else if fields[i].ignore {
        spec_save_from(doc, section, fields, rec, i + 1)
    } else {
        match field_action(rec[i]) {
            SaveAction::Put(v) => spec_save_from(
                crate::store::doc_after_set(doc, section, fields[i].key, v),
                section,
                fields,
                rec,
                i + 1,
            ),
            SaveAction::Drop => spec_save_from(
                crate::value::upsert(
                    doc,
                    section,
                    Val::Tab(
                        crate::value::remove_entry(
                            crate::store::section_entries(doc, section),
                            fields[i].key,
                        ),
                    ),
                ),
                section,
                fields,
                rec,
                i + 1,
            ),
            SaveAction::Fail => (doc, false),
        }
    }
}

/// The names a schema declares: the keys of its non-ignored fields.
pub open spec fn declared_keys(fields: Seq<Fs>) -> Set<Seq<char>> {
    Set::new(
        |k: Seq<char>|
            exists|i: int| 0 <= i < fields.len() && !(#[trigger] fields[i]).ignore && fields[i].key
                == k,
    )
}

/// The section's entries with every name outside `keep` removed, order kept.
pub open spec fn pruned(w: Seq<(Seq<char>, Val)>, keep: Set<Seq<char>>) -> Seq<(Seq<char>, Val)>
    decreases w,
{
    if w.len() == 0 {
        Seq::empty()
    } else {
        let rest = pruned(w.subrange(0, w.len() - 1), keep);
        if keep.contains(w.last().0) {
            rest.push(w.last())
        } else {
            rest
        }
    }
}

/// Every pruned entry is one of the section's entries.
pub proof fn lemma_pruned_elems(w: Seq<(Seq<char>, Val)>, keep: Set<Seq<char>>)
    ensures
        forall|q: int|
            0 <= q < pruned(w, keep).len() ==> exists|j: int|
                0 <= j < w.len() && #[trigger] pruned(w, keep)[q] == w[j],
    decreases w.len(),
{
    if w.len() > 0 {
        let t = w.subrange(0, w.len() - 1);
        lemma_pruned_elems(t, keep);
        assert forall|q: int| 0 <= q < pruned(w, keep).len() implies exists|j: int|
            0 <= j < w.len() && #[trigger] pruned(w, keep)[q] == w[j] by {
            if q < pruned(t, keep).len() {
                assert(pruned(w, keep)[q] == pruned(t, keep)[q]);
                let j = choose|j: int| 0 <= j < t.len() && pruned(t, keep)[q] == t[j];
                assert(t[j] == w[j]);
                assert(pruned(w, keep)[q] == w[j]);
            } else {
                assert(pruned(w, keep)[q] == w[w.len() - 1]);
            }
        }
    }
}

/// What a whole save pass does to the document: ensure the section exists,
/// write every non-ignored field, then prune the section's keys down to the
/// declared ones.
pub open spec fn spec_save(
    doc: Seq<(Seq<char>, Val)>,
    section: Seq<char>,
    fields: Seq<Fs>,
    rec: Seq<Fv>,
) -> (Seq<(Seq<char>, Val)>, bool) {
    if !crate::store::section_ok(doc, section) {
        (doc, false)
    } else {
        let d0 = if crate::value::lookup(doc, section) is Some {
            doc
        } else {
            crate::value::upsert(doc, section, Val::Tab(Seq::empty()))
        };
        let step = spec_save_from(d0, section, fields, rec, 0);
        if !step.1 {
            (step.0, false)
        } else {
            let w = crate::store::section_entries(step.0, section);
            (
                crate::value::upsert(
                    step.0,
                    section,
                    Val::Tab(pruned(w, declared_keys(fields))),
                ),
                true,
            )
        }
    }
}

/// Widens one record scalar to a stored value; a 64-bit unsigned value
/// beyond the signed range fails with `ValueParse`.
fn scalar_to_value(section: &str, key: &str, sv: &ScalarValue) -> (r: Result<
    crate::value::ConferValue,
    ConferError,
>)
    ensures
        (match scalar_to_stored(sv.model()) {
            Some(v) => r matches Ok(x) && x.model() == v && v.wf(),
            None => r matches Err(e) && e.model() == (ErrModel::ValueParse {
                section: section@,
                key: key@,
                message: uint_range_message(sv.model()->Uint_0),
            }),
        }),
{
    match sv {
        ScalarValue::Str(s) => Ok(crate::value::ConferValue::String(s.clone())),
        ScalarValue::Bool(b) => Ok(crate::value::ConferValue::Boolean(*b)),
        ScalarValue::Int(x) => Ok(crate::value::ConferValue::Integer(*x)),
        ScalarValue::Uint(_) => match integer_to_store(section, key, sv) {
            Ok(x) => Ok(crate::value::ConferValue::Integer(x)),
            Err(e) => Err(e),
        },
        ScalarValue::Float(b) => Ok(crate::value::ConferValue::Float(*b)),
        ScalarValue::Datetime(d) => Ok(
            crate::value::ConferValue::Timestamp(Timestamp::new(d.text.clone())),
        ),
    }
}

/// Index of the first record scalar that cannot widen to a stored value, or
/// a negative value when every one can.
pub open spec fn first_unstorable(items: Seq<Sv>) -> int
    decreases items.len(),
{
    if items.len() == 0 {
        -1
    } else if scalar_to_stored(items[0]) is None {
        0
    } else {
        let r = first_unstorable(items.drop_first());
        if r < 0 {
            -1
        } else {
            r + 1
        }
    }
}

/// `first_unstorable` finds the first refused scalar, exactly when one
/// exists.
pub proof fn lemma_first_unstorable(items: Seq<Sv>)
    ensures
        (first_unstorable(items) < 0 <==> (forall|i: int|
            0 <= i < items.len() ==> #[trigger] scalar_to_stored(items[i]) is Some)),
        first_unstorable(items) >= 0 ==> first_unstorable(items) < items.len()
            && scalar_to_stored(items[first_unstorable(items)]) is None,
        forall|j: int|
            0 <= j < first_unstorable(items) ==> #[trigger] scalar_to_stored(items[j]) is Some,
    decreases items.len(),
{
    if items.len() > 0 && scalar_to_stored(items[0]) is Some {
        let t = items.drop_first();
        lemma_first_unstorable(t);
        assert forall|i: int|
            0 <= i < items.len() && !(#[trigger] scalar_to_stored(items[i])
                is Some) implies first_unstorable(items) >= 0 by {
            assert(t[i - 1] == items[i]);
        }
        if first_unstorable(t) >= 0 {
            assert(items[first_unstorable(items)] == t[first_unstorable(t)]);
            assert forall|j: int|
                0 <= j < first_unstorable(items) implies #[trigger] scalar_to_stored(items[j])
                is Some by {
                if j > 0 {
                    assert(t[j - 1] == items[j]);
                }
            }
        }
    }
}

/// The error a failing field write raises: the first scalar that cannot
/// widen is a 64-bit unsigned value beyond the stored range, and the error
/// names it.
pub open spec fn save_field_error(section: Seq<char>, key: Seq<char>, fv: Fv) -> ErrModel {
    match fv {
        Fv::Plain(sv) => ErrModel::ValueParse {
            section,
            key,
            message: uint_range_message(sv->Uint_0),
        },
        Fv::Option(o) => ErrModel::ValueParse {
            section,
            key,
            message: uint_range_message(o->Some_0->Uint_0),
        },
        Fv::Vec(items) => ErrModel::ValueParse {
            section,
            key,
            message: uint_range_message(items[first_unstorable(items)]->Uint_0),
        },
        Fv::OptionVec(o) => ErrModel::ValueParse {
            section,
            key,
            message: uint_range_message(o->Some_0[first_unstorable(o->Some_0)]->Uint_0),
        },
    }
}

/// Index of the first non-ignored field whose write fails, or a negative
/// value when every write goes through.
pub open spec fn save_fail_index(fields: Seq<Fs>, rec: Seq<Fv>, i: int) -> int
    decreases fields.len() - i,
{
    if i < 0 || i >= fields.len() {
        -1
    } else if fields[i].ignore {
        save_fail_index(fields, rec, i + 1)
    } else if field_action(rec[i]) is Fail {
        i
    } else {
        save_fail_index(fields, rec, i + 1)
    }
}

/// Widens a record array to a stored array value; the first refused element
/// fails with its own error.
#[verifier::loop_isolation(false)]
fn scalars_to_value(section: &str, key: &str, items: &Vec<ScalarValue>) -> (r: Result<
    crate::value::ConferValue,
    ConferError,
>)
    ensures
        (match scalars_to_stored(svs_model(items@)) {
            Some(vs) => r matches Ok(x) && x.model() == Val::Arr(vs) && Val::Arr(vs).wf(),
            None => r matches Err(e) && e.model() == (ErrModel::ValueParse {
                section: section@,
                key: key@,
                message: uint_range_message(
                    svs_model(items@)[first_unstorable(svs_model(items@))]->Uint_0,
                ),
            }),
        }),
{
    let ghost svs = svs_model(items@);
    proof {
        lemma_svs_model(items@);
        lemma_scalars_to_stored(svs);
        lemma_first_unstorable(svs);
    }
    let mut out: Vec<crate::value::ConferValue> = Vec::new();
    let mut i: usize = 0;
    while i < items.len()
        invariant
            i <= items@.len(),
            out@.len() == i,
            forall|j: int| 0 <= j < i ==> #[trigger] scalar_to_stored(svs[j]) is Some,
            forall|j: int|
                0 <= j < i ==> #[trigger] out@[j].model() == scalar_to_stored(svs[j])->Some_0
                    && out@[j].model().wf(),
        decreases items@.len() - i,
    {
        proof {
            assert(svs[i as int] == items@[i as int].model());
        }
        match scalar_to_value(section, key, &items[i]) {
            Ok(v) => {
                out.push(v);
            },
            Err(e) => {
                proof {
                    assert(!(scalar_to_stored(svs[i as int]) is Some));
                    assert(!(scalars_to_stored(svs) is Some));
                    assert(first_unstorable(svs) == i);
                }
                return Err(e);
            },
        }
        i += 1;
    }
    proof {
        crate::value::lemma_items_model(out@);
        let vs = scalars_to_stored(svs)->Some_0;
        assert forall|j: int|
            0 <= j < out@.len() implies crate::value::items_model(out@)[j] == vs[j]
                && crate::value::items_model(out@)[j].wf() by {
            assert(crate::value::items_model(out@)[j] == out@[j].model());
            assert(vs[j] == scalar_to_stored(svs[j])->Some_0);
        }
        assert(crate::value::items_model(out@) =~= vs);
        crate::value::lemma_items_wf(crate::value::items_model(out@));
    }
    Ok(crate::value::ConferValue::Array(out))
}


impl ModuleSchema {
    /// Persists `record` into the store: ensures the schema's section exists,
    /// writes every non-ignored field in schema order (an absent optional
    /// field removes its key), then prunes every key of the section that the
    /// schema does not declare.  A failing write stops the pass at once and
    /// earlier writes stay: a failed save leaves the store partially written
    /// and not yet pruned.
    #[verifier::loop_isolation(false)]
    #[verifier::rlimit(60)]
    pub fn save(&self, store: &mut crate::store::Confer, record: &Record) -> (r: Result<
        (),
        ConferError,
    >)
        requires
            old(store).wf(),
            record.model().len() == self.model().len(),
        ensures
            final(store).wf(),
            final(store).model() == spec_save(
                old(store).model(),
                self.section_model(),
                self.model(),
                record.model(),
            ).0,
            r is Ok <==> spec_save(
                old(store).model(),
                self.section_model(),
                self.model(),
                record.model(),
            ).1,
            !crate::store::section_ok(old(store).model(), self.section_model()) ==> (r matches Err(
                e,
            ) && e.model() == crate::store::section_mismatch(
                old(store).model(),
                self.section_model(),
            )),
            (crate::store::section_ok(old(store).model(), self.section_model()) && !spec_save(
                old(store).model(),
                self.section_model(),
                self.model(),
                record.model(),
            ).1) ==> ({
                let j = save_fail_index(self.model(), record.model(), 0);
                &&& 0 <= j < self.model().len()
                &&& (r matches Err(e) && e.model() == save_field_error(
                    self.section_model(),
                    self.model()[j].key,
                    record.model()[j],
                ))
            }),
    {
        let ghost doc_start = store.model();
        let ghost sec = self.section_model();
        let ghost fieldsm = self.model();
        let ghost recm = record.model();
        proof {
            lemma_fields_model(self.fields@);
            lemma_fvs_model(record.values@);
        }
        match store.add_section(self.section.as_str()) {
            Ok(()) => {},
            Err(e) => {
                return Err(e);
            },
        }
        let ghost d0 = store.model();
        proof {
            assert(crate::store::section_ok(doc_start, sec));
            crate::value::lemma_upsert(doc_start, sec, Val::Tab(Seq::empty()));
            assert(crate::value::lookup(d0, sec) matches Some(v) && v is Tab);
        }
        let mut i: usize = 0;
        while i < self.fields.len()
            invariant
                i <= self.fields@.len(),
                store.wf(),
                crate::value::lookup(store.model(), sec) matches Some(v) && v is Tab,
                spec_save_from(d0, sec, fieldsm, recm, 0) == spec_save_from(
                    store.model(),
                    sec,
                    fieldsm,
                    recm,
                    i as int,
                ),
                save_fail_index(fieldsm, recm, 0) == save_fail_index(fieldsm, recm, i as int),
            decreases self.fields@.len() - i,
        {
            let f = &self.fields[i];
            proof {
                assert(fieldsm[i as int] == f.model());
                assert(recm[i as int] == record.values@[i as int].model());
            }
            if !f.ignore {
                let ghost before = store.model();
                let converted: Option<crate::value::ConferValue> = match &record.values[i] {
                    FieldValue::Plain(sv) => match scalar_to_value(
                        self.section.as_str(),
                        f.key.as_str(),
                        sv,
                    ) {
                        Ok(v) => Some(v),
                        Err(e) => {
                            proof {
                                assert(field_action(recm[i as int]) == SaveAction::Fail);
                                assert(save_fail_index(fieldsm, recm, i as int) == i);
                                assert(recm[i as int] == Fv::Plain(sv.model()));
                            }
                            return Err(e);
                        },
                    },
                    FieldValue::Vec(items) => match scalars_to_value(
                        self.section.as_str(),
                        f.key.as_str(),
                        items,
                    ) {
                        Ok(v) => Some(v),
                        Err(e) => {
                            proof {
                                assert(field_action(recm[i as int]) == SaveAction::Fail);
                                assert(save_fail_index(fieldsm, recm, i as int) == i);
                                assert(recm[i as int] == Fv::Vec(svs_model(items@)));
                            }
                            return Err(e);
                        },
                    },
                    FieldValue::Option(o) => match o {
                        Some(sv) => match scalar_to_value(
                            self.section.as_str(),
                            f.key.as_str(),
                            sv,
                        ) {
                            Ok(v) => Some(v),
                            Err(e) => {
                                proof {
                                    assert(field_action(recm[i as int]) == SaveAction::Fail);
                                    assert(save_fail_index(fieldsm, recm, i as int) == i);
                                    assert(recm[i as int] == Fv::Option(Some(sv.model())));
                                }
                                return Err(e);
                            },
                        },
                        None => None,
                    },
                    FieldValue::OptionVec(o) => match o {
                        Some(items) => match scalars_to_value(
                            self.section.as_str(),
                            f.key.as_str(),
                            items,
                        ) {
                            Ok(v) => Some(v),
                            Err(e) => {
                                proof {
                                    assert(field_action(recm[i as int]) == SaveAction::Fail);
                                    assert(save_fail_index(fieldsm, recm, i as int) == i);
                                    assert(recm[i as int] == Fv::OptionVec(
                                        Some(svs_model(items@)),
                                    ));
                                }
                                return Err(e);
                            },
                        },
                        None => None,
                    },
                };
                match converted {
                    Some(v) => {
                        proof {
                            assert(field_action(recm[i as int]) == SaveAction::Put(v.model()));
                        }
                        match store.set_value(self.section.as_str(), f.key.as_str(), v) {
                            Ok(()) => {
                                proof {
                                    crate::value::lemma_upsert(
                                        before,
                                        sec,
                                        Val::Tab(
                                            crate::value::upsert(
                                                crate::store::section_entries(before, sec),
                                                fieldsm[i as int].key,
                                                field_action(recm[i as int])->Put_0,
                                            ),
                                        ),
                                    );
                                }
                            },
                            Err(e) => {
                                proof {
                                    assert(false);
                                }
                                return Err(e);
                            },
                        }
                    },
                    None => {
                        proof {
                            assert(field_action(recm[i as int]) == SaveAction::Drop);
                        }
                        match store.remove_key(self.section.as_str(), f.key.as_str()) {
                            Ok(()) => {
                                proof {
                                    crate::value::lemma_upsert(
                                        before,
                                        sec,
                                        Val::Tab(
                                            crate::value::remove_entry(
                                                crate::store::section_entries(before, sec),
                                                fieldsm[i as int].key,
                                            ),
                                        ),
                                    );
                                }
                            },
                            Err(e) => {
                                proof {
                                    assert(false);
                                }
                                return Err(e);
                            },
                        }
                    },
                }
            }
            i += 1;
        }
        let ghost d1 = store.model();
        let ghost keep = declared_keys(fieldsm);

        let mut names: Vec<String> = Vec::new();
        let mut t: usize = 0;
        while t < self.fields.len()
            invariant
                t <= self.fields@.len(),
                forall|k: Seq<char>|
                    #[trigger] crate::section_guard::views_of(names@).contains(k) <==> exists|
                        j: int,
                    |
                        0 <= j < t && !(#[trigger] fieldsm[j]).ignore && fieldsm[j].key == k,
            decreases self.fields@.len() - t,
        {
            let ghost prevnames = crate::section_guard::views_of(names@);
            let f = &self.fields[t];
            proof {
                assert(fieldsm[t as int] == f.model());
            }
            if !f.ignore {
                names.push(f.key.clone());
                proof {
                    let newnames = crate::section_guard::views_of(names@);
                    assert(newnames =~= prevnames.push(f.key@));
                    assert forall|k: Seq<char>| #[trigger] newnames.contains(k) implies exists|
                        j: int,
                    | 0 <= j < t + 1 && !(#[trigger] fieldsm[j]).ignore && fieldsm[j].key == k by {
                        let q = choose|q: int| 0 <= q < newnames.len() && newnames[q] == k;
                        if q < prevnames.len() {
                            assert(prevnames[q] == k);
                            assert(prevnames.contains(k));
                        } else {
                            assert(k == fieldsm[t as int].key);
                        }
                    }
                    assert forall|k: Seq<char>|
                        (exists|j: int|
                            0 <= j < t + 1 && !(#[trigger] fieldsm[j]).ignore && fieldsm[j].key
                                == k) implies #[trigger] newnames.contains(k) by {
                        let j = choose|j: int|
                            0 <= j < t + 1 && !fieldsm[j].ignore && fieldsm[j].key == k;
                        if j < t {
                            assert(prevnames.contains(k));
                            let q = choose|q: int|
                                0 <= q < prevnames.len() && prevnames[q] == k;
                            assert(newnames[q] == k);
                        } else {
                            assert(newnames[newnames.len() - 1] == k);
                        }
                    }
                }
            } else {
                proof {
                    assert forall|k: Seq<char>|
                        #[trigger] crate::section_guard::views_of(names@).contains(k) <==> (exists|
                        j: int,
                    |
                        0 <= j < t + 1 && !(#[trigger] fieldsm[j]).ignore && fieldsm[j].key
                            == k) by {
                        if exists|j: int| 0 <= j < t + 1 && !fieldsm[j].ignore && fieldsm[j].key
                            == k {
                            let j = choose|j: int|
                                0 <= j < t + 1 && !fieldsm[j].ignore && fieldsm[j].key == k;
                            assert(0 <= j < t && !fieldsm[j].ignore && fieldsm[j].key == k);
                            assert(exists|j2: int|
                                0 <= j2 < t && !(#[trigger] fieldsm[j2]).ignore && fieldsm[j2].key
                                    == k);
                        }
                        if exists|j: int| 0 <= j < t && !(#[trigger] fieldsm[j]).ignore
                            && fieldsm[j].key == k {
                            let j = choose|j: int|
                                0 <= j < t && !fieldsm[j].ignore && fieldsm[j].key == k;
                            assert(0 <= j < t + 1 && !fieldsm[j].ignore && fieldsm[j].key == k);
                        }
                    }
                }
            }
            t += 1;
        }
        let guard = crate::section_guard::SectionGuard::new(names);
        proof {
            assert forall|k: Seq<char>| #[trigger] guard.model().contains(k) <==> keep.contains(
                k,
            ) by {
                assert(crate::section_guard::views_of(names@).contains(k) <==> exists|j: int|
                    0 <= j < fieldsm.len() && !(#[trigger] fieldsm[j]).ignore && fieldsm[j].key
                        == k);
            }
        }

        let existing = match store.list_keys(self.section.as_str()) {
            Ok(v) => v,
            Err(e) => {
                proof {
                    assert(false);
                }
                return Err(e);
            },
        };
        let ghost w = crate::store::section_entries(d1, sec);
        proof {
            assert(crate::value::lookup(d1, sec)->Some_0->Tab_0 == w);
            assert(existing@.map_values(|x: String| x@) == crate::value::keys_of(w));
            assert(crate::value::keys_of(w).len() == w.len());
            crate::value::lemma_index_of(d1, sec);
            assert(d1[crate::value::index_of(d1, sec)].1.wf());
            crate::value::lemma_tab_wf(crate::value::lookup(d1, sec)->Some_0);
            assert(crate::value::keys_unique(w));
            crate::value::lemma_index_of(d1, sec);
            let i0 = crate::value::index_of(d1, sec);
            assert(d1[i0] == (sec, Val::Tab(w)));
            assert(crate::value::upsert(d1, sec, Val::Tab(w)) =~= d1);
            assert(pruned(w.subrange(0, 0), keep) =~= Seq::<(Seq<char>, Val)>::empty());
            assert(w.subrange(0, w.len() as int) =~= w);
            assert(pruned(w.subrange(0, 0), keep) + w.subrange(0, w.len() as int) =~= w);
        }
        let mut t2: usize = 0;
        while t2 < existing.len()
            invariant
                t2 <= existing@.len(),
                existing@.len() == w.len(),
                store.wf(),
                crate::store::section_entries(store.model(), sec) == pruned(
                    w.subrange(0, t2 as int),
                    keep,
                ) + w.subrange(t2 as int, w.len() as int),
                store.model() == crate::value::upsert(
                    d1,
                    sec,
                    Val::Tab(crate::store::section_entries(store.model(), sec)),
                ),
                crate::value::lookup(store.model(), sec) matches Some(v) && v is Tab,
            decreases existing@.len() - t2,
        {
            let ghost prefix = w.subrange(0, t2 as int);
            let ghost suffix = w.subrange(t2 as int, w.len() as int);
            let ghost cur = crate::store::section_entries(store.model(), sec);
            let ghost curdoc = store.model();
            proof {
                assert(existing@.map_values(|x: String| x@)[t2 as int] == crate::value::keys_of(
                    w,
                )[t2 as int]);
                assert(existing@[t2 as int]@ == w[t2 as int].0);
                assert(suffix[0] == w[t2 as int]);
                assert(w.subrange(0, t2 + 1 as int).subrange(0, t2 as int) =~= prefix);
                assert(w.subrange(0, t2 + 1 as int).last() == w[t2 as int]);
                lemma_pruned_elems(prefix, keep);
            }
            let key_t = &existing[t2];
            if !guard.contains(key_t.as_str()) {
                proof {
                    assert(!keep.contains(w[t2 as int].0));
                    assert forall|q: int| 0 <= q < prefix.len() implies prefix[q].0 != w[
                    t2 as int].0 by {}
                    assert forall|q: int|
                        0 <= q < pruned(prefix, keep).len() implies pruned(prefix, keep)[q].0 != w[
                    t2 as int].0 by {
                        let j = choose|j: int|
                            0 <= j < prefix.len() && pruned(prefix, keep)[q] == prefix[j];
                        assert(prefix[j] == w[j]);
                    }
                    crate::value::lemma_index_of_is(
                        cur,
                        w[t2 as int].0,
                        pruned(prefix, keep).len() as int,
                    );
                }
                match store.remove_key(self.section.as_str(), key_t.as_str()) {
                    Ok(()) => {
                        proof {
                            let k = w[t2 as int].0;
                            let a = pruned(prefix, keep);
                            let newsec = crate::value::remove_entry(cur, k);
                            assert(newsec == cur.remove(a.len() as int));
                            assert(newsec =~= a + w.subrange(t2 + 1 as int, w.len() as int));
                            assert(pruned(w.subrange(0, t2 + 1 as int), keep) == a);
                            crate::value::lemma_upsert(curdoc, sec, Val::Tab(newsec));
                            crate::value::lemma_upsert_collapse(
                                d1,
                                sec,
                                Val::Tab(cur),
                                Val::Tab(newsec),
                            );
                        }
                    },
                    Err(e) => {
                        proof {
                            assert(false);
                        }
                        return Err(e);
                    },
                }
            } else {
                proof {
                    let k = w[t2 as int].0;
                    assert(keep.contains(k));
                    let a = pruned(prefix, keep);
                    assert(pruned(w.subrange(0, t2 + 1 as int), keep) == a.push(w[t2 as int]));
                    assert(a.push(w[t2 as int]) + w.subrange(t2 + 1 as int, w.len() as int) =~= a
                        + suffix);
                }
            }
            t2 += 1;
        }
        proof {
            assert(w.subrange(0, w.len() as int) =~= w);
            assert(w.subrange(w.len() as int, w.len() as int) =~= Seq::<(Seq<char>, Val)>::empty());
            assert(pruned(w, keep) + Seq::<(Seq<char>, Val)>::empty() =~= pruned(w, keep));
            assert(crate::store::section_entries(store.model(), sec) == pruned(w, keep));
        }
        Ok(())
    }
}


/// Whether a record scalar has the shape the scalar kind calls for.  Widths
/// carried as `Uint` also accept an `Int` (any value of a narrower width).
pub open spec fn sv_shape_ok(sv: Sv, k: ScalarKind) -> bool {
    match k {
        ScalarKind::String => sv is Str,
        ScalarKind::Bool => sv is Bool,
        ScalarKind::Integer(ik) => if is_unsigned_wide(ik) {
            sv is Uint || sv is Int
        } else {
            sv is Int
        },
        ScalarKind::Float(_) => sv is Float,
        ScalarKind::Datetime => sv is Datetime,
    }
}

/// Whether a field value has the shape the field type calls for.
pub open spec fn fv_shape_ok(fv: Fv, t: FieldType) -> bool {
    match t.container {
        ContainerKind::Plain => fv matches Fv::Plain(sv) && sv_shape_ok(sv, t.scalar),
        ContainerKind::Vec => fv matches Fv::Vec(items) && (forall|i: int|
            0 <= i < items.len() ==> sv_shape_ok(#[trigger] items[i], t.scalar)),
        ContainerKind::Option => fv matches Fv::Option(o) && (o matches Some(sv) ==> sv_shape_ok(
            sv,
            t.scalar,
        )),
        ContainerKind::OptionVec => fv matches Fv::OptionVec(o) && (o matches Some(items)
            ==> (forall|i: int| 0 <= i < items.len() ==> sv_shape_ok(#[trigger] items[i], t.scalar))),
    }
}

/// A well-formed field description: its default and its initial value, where
/// given, have the field's shape, and a field declares at most one of the
/// two (a default and an initial value are mutually exclusive).
pub open spec fn field_spec_wf(f: Fs) -> bool {
    &&& (f.default matches Some(d) ==> fv_shape_ok(d, f.kind))
    &&& (f.init matches Some(v) ==> fv_shape_ok(v, f.kind))
    &&& !(f.default is Some && f.init is Some)
}

/// A well-formed schema: keys pairwise distinct (ignored fields included)
/// and every field well formed.
pub open spec fn schema_wf(fields: Seq<Fs>) -> bool {
    &&& (forall|i: int, j: int| 0 <= i < j < fields.len() ==> fields[i].key != fields[j].key)
    &&& (forall|i: int| 0 <= i < fields.len() ==> field_spec_wf(#[trigger] fields[i]))
}

/// Checks a record scalar's shape against the scalar kind.
fn sv_shape_check(sv: &ScalarValue, k: ScalarKind) -> (r: bool)
    ensures
        r == sv_shape_ok(sv.model(), k),
{
    match k {
        ScalarKind::String => matches!(sv, ScalarValue::Str(_)),
        ScalarKind::Bool => matches!(sv, ScalarValue::Bool(_)),
        ScalarKind::Integer(ik) => match ik {
            IntegerKind::U64 | IntegerKind::Usize => matches!(
                sv,
                ScalarValue::Uint(_) | ScalarValue::Int(_),
            ),
            _ => matches!(sv, ScalarValue::Int(_)),
        },
        ScalarKind::Float(_) => matches!(sv, ScalarValue::Float(_)),
        ScalarKind::Datetime => matches!(sv, ScalarValue::Datetime(_)),
    }
}

/// Checks every element's shape against the scalar kind.
#[verifier::loop_isolation(false)]
fn svs_shape_check(items: &Vec<ScalarValue>, k: ScalarKind) -> (r: bool)
    ensures
        r == (forall|i: int|
            0 <= i < svs_model(items@).len() ==> sv_shape_ok(#[trigger] svs_model(items@)[i], k)),
{
    proof {
        lemma_svs_model(items@);
    }
    let ghost svs = svs_model(items@);
    let mut i: usize = 0;
    while i < items.len()
        invariant
            i <= items@.len(),
            forall|j: int| 0 <= j < i ==> sv_shape_ok(#[trigger] svs[j], k),
        decreases items@.len() - i,
    {
        proof {
            assert(svs[i as int] == items@[i as int].model());
        }
        if !sv_shape_check(&items[i], k) {
            proof {
                assert(!sv_shape_ok(svs[i as int], k));
            }
            return false;
        }
        i += 1;
    }
    true
}

/// Checks a field value's shape against the field type.
fn fv_shape_check(fv: &FieldValue, t: FieldType) -> (r: bool)
    ensures
        r == fv_shape_ok(fv.model(), t),
{
    match fv {
        FieldValue::Plain(sv) => {
            proof {
                assert(fv.model() == Fv::Plain(sv.model()));
            }
            match t.container {
                ContainerKind::Plain => {
                    let ok = sv_shape_check(sv, t.scalar);
                    proof {
                        assert(ok == fv_shape_ok(fv.model(), t));
                    }
                    ok
                },
                _ => {
                    proof {
                        assert(!fv_shape_ok(fv.model(), t));
                    }
                    false
                },
            }
        },
        FieldValue::Vec(items) => {
            proof {
                assert(fv.model() == Fv::Vec(svs_model(items@)));
            }
            match t.container {
                ContainerKind::Vec => {
                    let ok = svs_shape_check(items, t.scalar);
                    proof {
                        let svsm = svs_model(items@);
                        let target = fv.model()->Vec_0;
                        assert(target == svsm);
                        if ok {
                            assert forall|q: int| 0 <= q < target.len() implies sv_shape_ok(
                                #[trigger] target[q],
                                t.scalar,
                            ) by {
                                assert(sv_shape_ok(svs_model(items@)[q], t.scalar));
                            }
                        } else {
                            let bad = choose|q: int|
                                0 <= q < svsm.len() && !sv_shape_ok(#[trigger] svsm[q], t.scalar);
                            assert(!sv_shape_ok(target[bad], t.scalar));
                        }
                        assert(ok == fv_shape_ok(fv.model(), t));
                    }
                    ok
                },
                _ => {
                    proof {
                        assert(!fv_shape_ok(fv.model(), t));
                    }
                    false
                },
            }
        },
        FieldValue::Option(o) => {
            match t.container {
                ContainerKind::Option => match o {
                    Some(sv) => {
                        proof {
                            assert(fv.model() == Fv::Option(Some(sv.model())));
                        }
                        let ok = sv_shape_check(sv, t.scalar);
                        proof {
                            assert(ok == fv_shape_ok(fv.model(), t));
                        }
                        ok
                    },
                    None => {
                        proof {
                            assert(fv.model() == Fv::Option(None));
                        }
                        true
                    },
                },
                _ => {
                    proof {
                        assert(fv.model() is Option);
                    }
                    false
                },
            }
        },
        FieldValue::OptionVec(o) => {
            match t.container {
                ContainerKind::OptionVec => match o {
                    Some(items) => {
                        proof {
                            assert(fv.model() == Fv::OptionVec(Some(svs_model(items@))));
                        }
                        let ok = svs_shape_check(items, t.scalar);
                        proof {
                            let svsm = svs_model(items@);
                            let target = fv.model()->OptionVec_0->Some_0;
                            assert(target == svsm);
                            if ok {
                                assert forall|q: int| 0 <= q < target.len() implies sv_shape_ok(
                                    #[trigger] target[q],
                                    t.scalar,
                                ) by {
                                    assert(sv_shape_ok(svs_model(items@)[q], t.scalar));
                                }
                            } else {
                                let bad = choose|q: int|
                                    0 <= q < svsm.len() && !sv_shape_ok(
                                        #[trigger] svsm[q],
                                        t.scalar,
                                    );
                                assert(!sv_shape_ok(target[bad], t.scalar));
                            }
                            assert(ok == fv_shape_ok(fv.model(), t));
                        }
                        ok
                    },
                    None => {
                        proof {
                            assert(fv.model() == Fv::OptionVec(None));
                        }
                        true
                    },
                },
                _ => {
                    proof {
                        assert(fv.model() is OptionVec);
                    }
                    false
                },
            }
        },
    }
}

impl ModuleSchema {
    /// Builds a schema after validating it: every key must be distinct
    /// (ignored fields included), every declared default or initial value
    /// must have its field's shape, and no field may declare both a default
    /// and an initial value.  A schema that breaks any of these rules is
    /// refused here, at construction time, not during a pass.
    #[verifier::loop_isolation(false)]
    pub fn new(section: String, fields: Vec<FieldSpec>) -> (r: Option<ModuleSchema>)
        ensures
            (r matches Some(s) ==> s.section@ == section@ && s.model() == fields_model(fields@)
                && schema_wf(fields_model(fields@))),
            (r is Some <==> schema_wf(fields_model(fields@))),
    {
        let ghost fm = fields_model(fields@);
        proof {
            lemma_fields_model(fields@);
        }
        let mut i: usize = 0;
        while i < fields.len()
            invariant
                i <= fields@.len(),
                forall|p: int, q: int| 0 <= p < q < i ==> fm[p].key != fm[q].key,
                forall|p: int| 0 <= p < i ==> field_spec_wf(#[trigger] fm[p]),
            decreases fields@.len() - i,
        {
            let f = &fields[i];
            proof {
                assert(fm[i as int] == f.model());
            }
            let mut j: usize = 0;
            while j < i
                invariant
                    j <= i <= fields@.len(),
                    fm[i as int] == f.model(),
                    forall|p: int| 0 <= p < j ==> fm[p].key != fm[i as int].key,
                decreases i - j,
            {
                proof {
                    assert(fm[j as int] == fields@[j as int].model());
                }
                if fields[j].key == f.key {
                    proof {
                        assert(fm[j as int].key == fm[i as int].key);
                        assert(!schema_wf(fm));
                    }
                    return None;
                }
                j += 1;
            }
            match &f.default {
                Some(d) => {
                    if !fv_shape_check(d, f.kind) {
                        proof {
                            assert(!field_spec_wf(fm[i as int]));
                            assert(!schema_wf(fm));
                        }
                        return None;
                    }
                },
                None => {},
            }
            match &f.init {
                Some(v) => {
                    if !fv_shape_check(v, f.kind) {
                        proof {
                            assert(!field_spec_wf(fm[i as int]));
                            assert(!schema_wf(fm));
                        }
                        return None;
                    }
                },
                None => {},
            }
            if f.default.is_some() && f.init.is_some() {
                proof {
                    assert(!field_spec_wf(fm[i as int]));
                    assert(!schema_wf(fm));
                }
                return None;
            }
            i += 1;
        }
        Some(ModuleSchema { section, fields })
    }
}

/// The scalar a field of the given kind starts from when neither an initial
/// value nor a default is declared.
pub open spec fn scalar_default(k: ScalarKind) -> Sv {
    match k {
        ScalarKind::String => Sv::Str(Seq::empty()),
        ScalarKind::Bool => Sv::Bool(false),
        ScalarKind::Integer(ik) => if is_unsigned_wide(ik) {
            Sv::Uint(0)
        } else {
            Sv::Int(0)
        },
        ScalarKind::Float(_) => Sv::Float(0),
        ScalarKind::Datetime => Sv::Datetime(Seq::empty()),
    }
}

/// The value a field starts from when neither an initial value nor a default
/// is declared: the empty or zero value of its shape.
pub open spec fn shape_default(t: FieldType) -> Fv {
    match t.container {
        ContainerKind::Plain => Fv::Plain(scalar_default(t.scalar)),
        ContainerKind::Vec => Fv::Vec(Seq::empty()),
        ContainerKind::Option => Fv::Option(None),
        ContainerKind::OptionVec => Fv::OptionVec(None),
    }
}

/// The value a field starts from: its initial value, else its default, else
/// the empty or zero value of its shape.
pub open spec fn init_fv(f: Fs) -> Fv {
    match f.init {
        Some(v) => v,
        None => match f.default {
            Some(d) => d,
            None => shape_default(f.kind),
        },
    }
}

impl ModuleSchema {
    /// Builds the record a load pass starts from: every field holds its
    /// initial value, else its default, else the empty or zero value of its
    /// shape.
    #[verifier::loop_isolation(false)]
    pub fn init_record(&self) -> (r: Record)
        ensures
            r.model().len() == self.model().len(),
            forall|i: int|
                0 <= i < self.model().len() ==> r.model()[i] == init_fv(#[trigger] self.model()[i]),
    {
        let ghost fm = self.model();
        proof {
            lemma_fields_model(self.fields@);
        }
        let mut values: Vec<FieldValue> = Vec::new();
        let mut i: usize = 0;
        while i < self.fields.len()
            invariant
                i <= self.fields@.len(),
                values@.len() == i,
                forall|j: int| 0 <= j < i ==> #[trigger] values@[j].model() == init_fv(fm[j]),
            decreases self.fields@.len() - i,
        {
            let f = &self.fields[i];
            proof {
                assert(fm[i as int] == f.model());
            }
            let v: FieldValue = match &f.init {
                Some(v0) => v0.duplicate(),
                None => match &f.default {
                    Some(d) => d.duplicate(),
                    None => match f.kind.container {
                        ContainerKind::Plain => FieldValue::Plain(
                            match f.kind.scalar {
                                ScalarKind::String => ScalarValue::Str(String::new()),
                                ScalarKind::Bool => ScalarValue::Bool(false),
                                ScalarKind::Integer(ik) => match ik {
                                    IntegerKind::U64 | IntegerKind::Usize => ScalarValue::Uint(0),
                                    _ => ScalarValue::Int(0),
                                },
                                ScalarKind::Float(_) => ScalarValue::Float(0),
                                ScalarKind::Datetime => ScalarValue::Datetime(
                                    Timestamp::new(String::new()),
                                ),
                            },
                        ),
                        ContainerKind::Vec => FieldValue::Vec(Vec::new()),
                        ContainerKind::Option => FieldValue::Option(None),
                        ContainerKind::OptionVec => FieldValue::OptionVec(None),
                    },
                },
            };
            values.push(v);
            i += 1;
        }
        proof {
            lemma_fvs_model(values@);
            assert forall|i2: int| 0 <= i2 < fm.len() implies fvs_model(values@)[i2] == init_fv(
                #[trigger] fm[i2],
            ) by {
                assert(fvs_model(values@)[i2] == values@[i2].model());
            }
        }
        Record { values }
    }

    /// Builds a record from its initial values and loads it from the store.
    pub fn from_confer(&self, store: &crate::store::Confer) -> (r: Result<Record, ConferError>)
        requires
            store.wf(),
        ensures
            (spec_load(
                store.model(),
                self.section_model(),
                self.model(),
                spec_init_record(self.model()),
            ).1 <==> r is Ok),
            (r matches Ok(rec) ==> rec.model() == spec_load(
                store.model(),
                self.section_model(),
                self.model(),
                spec_init_record(self.model()),
            ).0),
            r matches Err(e) ==> ({
                let j = load_fail_index(store.model(), self.section_model(), self.model(), 0);
                &&& 0 <= j < self.model().len()
                &&& load_field_error(
                    store.model(),
                    self.section_model(),
                    self.model()[j],
                    e.model(),
                )
            }),
    {
        let mut record = self.init_record();
        proof {
            lemma_spec_init_record(self.model());
            assert(record.model() =~= spec_init_record(self.model()));
        }
        match self.load(store, &mut record) {
            Ok(()) => Ok(record),
            Err(e) => Err(e),
        }
    }
}

/// The record a load pass starts from, fieldwise.
pub open spec fn spec_init_record(fields: Seq<Fs>) -> Seq<Fv> {
    Seq::new(fields.len(), |i: int| init_fv(fields[i]))
}

/// `spec_init_record` is pointwise `init_fv`.
pub proof fn lemma_spec_init_record(fields: Seq<Fs>)
    ensures
        spec_init_record(fields).len() == fields.len(),
        forall|i: int|
            0 <= i < fields.len() ==> spec_init_record(fields)[i] == init_fv(
                #[trigger] fields[i],
            ),
{
}

} // verus!