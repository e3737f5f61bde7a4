//! Whether a document value fits the kind of the field it is stored in.
//!
//! Null fits every field. Numeric fields accept the wider JSON forms (an Int
//! for a float field, a Float64 for a Float32 field), a blob accepts a
//! hex string, a JSON field accepts a serialized string, and a DateTime field
//! accepts a string that parses as RFC 3339 (stored times read back as
//! strings). Empty arrays fit every array kind.

use vstd::prelude::*;
use crate::outside::{parses_as_rfc3339, rfc3339_parses};
use crate::schema::{FieldDescription, FieldKind, ScalarArrayKind, ScalarKind};
use crate::text::str_eq;

verus! {

/// A document value, as far as kind checking reads it: its variant, the text
/// of strings, and whether arrays are empty (numbers carry no payload).
#[derive(Debug)]
pub enum NormalValue {
    Nil,
    Bool(bool),
    NillableBool(Option<bool>),
    Int(i64),
    NillableInt(Option<i64>),
    Float64,
    /// A nillable Float64; the flag tells whether a value is present.
    NillableFloat64(bool),
    Float32,
    NillableFloat32(bool),
    String(String),
    NillableString(Option<String>),
    Time,
    NillableTime(bool),
    Bytes(Vec<u8>),
    NillableBytes(Option<Vec<u8>>),
    Json,
    Document,
    /// Arrays carry their length.
    DocumentArray(usize),
    BoolArray(usize),
    IntArray(usize),
    Float32Array(usize),
    Float64Array(usize),
    StringArray(usize),
    NillableBoolArray(Option<usize>),
    NillableIntArray(Option<usize>),
    NillableFloat32Array(Option<usize>),
    NillableFloat64Array(Option<usize>),
    NillableStringArray(Option<usize>),
    NillableBoolElementArray(usize),
    NillableIntElementArray(usize),
    NillableFloat32ElementArray(usize),
    NillableFloat64ElementArray(usize),
    NillableStringElementArray(usize),
}

impl NormalValue {
    pub open spec fn is_nil_spec(&self) -> bool {
        match *self {
            NormalValue::Nil => true,
            NormalValue::NillableBool(v) => v is None,
            NormalValue::NillableInt(v) => v is None,
            NormalValue::NillableFloat64(p) => !p,
            NormalValue::NillableFloat32(p) => !p,
            NormalValue::NillableString(v) => v is None,
            NormalValue::NillableTime(p) => !p,
            NormalValue::NillableBytes(v) => v is None,
            _ => false,
        }
    }

    /// Whether this is a null value: `Nil` or a nillable scalar holding none.
    pub fn is_nil(&self) -> (res: bool)
        ensures
            res == self.is_nil_spec(),
    {
        match self {
            NormalValue::Nil => true,
            NormalValue::NillableBool(v) => v.is_none(),
            NormalValue::NillableInt(v) => v.is_none(),
            NormalValue::NillableFloat64(p) => !*p,
            NormalValue::NillableFloat32(p) => !*p,
            NormalValue::NillableString(v) => v.is_none(),
            NormalValue::NillableTime(p) => !*p,
            NormalValue::NillableBytes(v) => v.is_none(),
            _ => false,
        }
    }
}

/// Whether `v` is an empty array of any type (a missing nillable array counts as empty).
pub open spec fn empty_array(v: NormalValue) -> bool {
    match v {
        NormalValue::BoolArray(n) => n == 0,
        NormalValue::IntArray(n) => n == 0,
        NormalValue::Float32Array(n) => n == 0,
        NormalValue::Float64Array(n) => n == 0,
        NormalValue::StringArray(n) => n == 0,
        NormalValue::NillableBoolArray(o) => o is None || o->0 == 0,
        NormalValue::NillableIntArray(o) => o is None || o->0 == 0,
        NormalValue::NillableFloat32Array(o) => o is None || o->0 == 0,
        NormalValue::NillableFloat64Array(o) => o is None || o->0 == 0,
        NormalValue::NillableStringArray(o) => o is None || o->0 == 0,
        NormalValue::NillableBoolElementArray(n) => n == 0,
        NormalValue::NillableIntElementArray(n) => n == 0,
        NormalValue::NillableFloat32ElementArray(n) => n == 0,
        NormalValue::NillableFloat64ElementArray(n) => n == 0,
        NormalValue::NillableStringElementArray(n) => n == 0,
        _ => false,
    }
}

fn none_or_zero(o: &Option<usize>) -> (res: bool)
    ensures
        res == (*o is None || o->0 == 0),
{
    match o {
        None => true,
        Some(n) => *n == 0,
    }
}

/// Whether `value` is an empty array of any type.
pub fn is_empty_array(value: &NormalValue) -> (res: bool)
    ensures
        res == empty_array(*value),
{
    match value {
        NormalValue::BoolArray(n) => *n == 0,
        NormalValue::IntArray(n) => *n == 0,
        NormalValue::Float32Array(n) => *n == 0,
        NormalValue::Float64Array(n) => *n == 0,
        NormalValue::StringArray(n) => *n == 0,
        NormalValue::NillableBoolArray(o) => none_or_zero(o),
        NormalValue::NillableIntArray(o) => none_or_zero(o),
        NormalValue::NillableFloat32Array(o) => none_or_zero(o),
        NormalValue::NillableFloat64Array(o) => none_or_zero(o),
        NormalValue::NillableStringArray(o) => none_or_zero(o),
        NormalValue::NillableBoolElementArray(n) => *n == 0,
        NormalValue::NillableIntElementArray(n) => *n == 0,
        NormalValue::NillableFloat32ElementArray(n) => *n == 0,
        NormalValue::NillableFloat64ElementArray(n) => *n == 0,
        NormalValue::NillableStringElementArray(n) => *n == 0,
        _ => false,
    }
}

/// Whether `v` fits a scalar field of kind `k`.
pub open spec fn scalar_compatible(v: NormalValue, k: ScalarKind) -> bool {
    match k {
        ScalarKind::Unspecified => true,
        ScalarKind::DocID => v is String,
        ScalarKind::Bool => v is Bool || v is NillableBool,
        ScalarKind::Int => v is Int || v is NillableInt,
        ScalarKind::Float64 => v is Float64 || v is NillableFloat64 || v is Int || v is NillableInt,
        ScalarKind::Float32 => v is Float32 || v is NillableFloat32 || v is Float64 || v is NillableFloat64
            || v is Int || v is NillableInt,
        ScalarKind::DateTime => match v {
            NormalValue::Time => true,
            NormalValue::NillableTime(_) => true,
            NormalValue::String(s) => parses_as_rfc3339(s@),
            NormalValue::NillableString(Some(s)) => parses_as_rfc3339(s@),
            _ => false,
        },
        ScalarKind::String => v is String || v is NillableString,
        ScalarKind::Blob => v is Bytes || v is NillableBytes || v is String,
        ScalarKind::Json => v is Json || v is String,
    }
}

/// Whether `value` fits a scalar field of kind `scalar`.
pub fn is_value_compatible_with_scalar(value: &NormalValue, scalar: ScalarKind) -> (res: bool)
    ensures
        res == scalar_compatible(*value, scalar),
{
    match scalar {
        ScalarKind::Unspecified => true,
        ScalarKind::DocID => matches!(value, NormalValue::String(_)),
        ScalarKind::Bool => matches!(value, NormalValue::Bool(_) | NormalValue::NillableBool(_)),
        ScalarKind::Int => matches!(value, NormalValue::Int(_) | NormalValue::NillableInt(_)),
        ScalarKind::Float64 => matches!(value, NormalValue::Float64 | NormalValue::NillableFloat64(_)
            | NormalValue::Int(_) | NormalValue::NillableInt(_)),
        ScalarKind::Float32 => matches!(value, NormalValue::Float32 | NormalValue::NillableFloat32(_)
            | NormalValue::Float64 | NormalValue::NillableFloat64(_) | NormalValue::Int(_) | NormalValue::NillableInt(_)),
        ScalarKind::DateTime => match value {
            NormalValue::Time | NormalValue::NillableTime(_) => true,
            NormalValue::String(s) => rfc3339_parses(s.as_str()),
            NormalValue::NillableString(Some(s)) => rfc3339_parses(s.as_str()),
            _ => false,
        },
        ScalarKind::String => matches!(value, NormalValue::String(_) | NormalValue::NillableString(_)),
        ScalarKind::Blob => matches!(value, NormalValue::Bytes(_) | NormalValue::NillableBytes(_) | NormalValue::String(_)),
        ScalarKind::Json => matches!(value, NormalValue::Json | NormalValue::String(_)),
    }
}

/// Whether `v` fits a scalar-array field of kind `a`.
pub open spec fn array_compatible(v: NormalValue, a: ScalarArrayKind) -> bool {
    empty_array(v) || match a {
        ScalarArrayKind::BoolArray => v is BoolArray,
        ScalarArrayKind::IntArray => v is IntArray,
        ScalarArrayKind::Float64Array => v is Float64Array || v is Float32Array || v is IntArray,
        ScalarArrayKind::Float32Array => v is Float32Array || v is Float64Array || v is IntArray,
        ScalarArrayKind::StringArray => v is StringArray,
        ScalarArrayKind::NillableBoolArray => v is NillableBoolArray || v is NillableBoolElementArray || v is BoolArray,
        ScalarArrayKind::NillableIntArray => v is NillableIntArray || v is NillableIntElementArray || v is IntArray,
        ScalarArrayKind::NillableFloat64Array => v is NillableFloat64Array || v is NillableFloat64ElementArray
            || v is Float64Array || v is IntArray,
        ScalarArrayKind::NillableFloat32Array => v is NillableFloat32Array || v is NillableFloat32ElementArray
            || v is Float32Array || v is Float64Array || v is IntArray,
        ScalarArrayKind::NillableStringArray => v is NillableStringArray || v is NillableStringElementArray
            || v is StringArray,
    }
}

/// Whether `value` fits a scalar-array field of kind `array`.
pub fn is_value_compatible_with_array(value: &NormalValue, array: ScalarArrayKind) -> (res: bool)
    ensures
        res == array_compatible(*value, array),
{
    if is_empty_array(value) {
        return true;
    }
    match array {
        ScalarArrayKind::BoolArray => matches!(value, NormalValue::BoolArray(_)),
        ScalarArrayKind::IntArray => matches!(value, NormalValue::IntArray(_)),
        ScalarArrayKind::Float64Array => matches!(value, NormalValue::Float64Array(_) | NormalValue::Float32Array(_)
            | NormalValue::IntArray(_)),
        ScalarArrayKind::Float32Array => matches!(value, NormalValue::Float32Array(_) | NormalValue::Float64Array(_)
            | NormalValue::IntArray(_)),
        ScalarArrayKind::StringArray => matches!(value, NormalValue::StringArray(_)),
        ScalarArrayKind::NillableBoolArray => matches!(value, NormalValue::NillableBoolArray(_)
            | NormalValue::NillableBoolElementArray(_) | NormalValue::BoolArray(_)),
        ScalarArrayKind::NillableIntArray => matches!(value, NormalValue::NillableIntArray(_)
            | NormalValue::NillableIntElementArray(_) | NormalValue::IntArray(_)),
        ScalarArrayKind::NillableFloat64Array => matches!(value, NormalValue::NillableFloat64Array(_)
            | NormalValue::NillableFloat64ElementArray(_) | NormalValue::Float64Array(_) | NormalValue::IntArray(_)),
        ScalarArrayKind::NillableFloat32Array => matches!(value, NormalValue::NillableFloat32Array(_)
            | NormalValue::NillableFloat32ElementArray(_) | NormalValue::Float32Array(_)
            | NormalValue::Float64Array(_) | NormalValue::IntArray(_)),
        ScalarArrayKind::NillableStringArray => matches!(value, NormalValue::NillableStringArray(_)
            | NormalValue::NillableStringElementArray(_) | NormalValue::StringArray(_)),
    }
}

/// Whether `v` fits a field of kind `k`.
pub open spec fn kind_compatible(v: NormalValue, k: FieldKind) -> bool {
    v.is_nil_spec() || match k {
        FieldKind::Scalar(s) => scalar_compatible(v, s),
        FieldKind::ScalarArray(a) => array_compatible(v, a),
        FieldKind::Relation { is_array, .. } => if is_array { v is StringArray || v is DocumentArray }
            else { v is String || v is Document },
        FieldKind::SelfRef { is_array, .. } => if is_array { v is StringArray || v is DocumentArray }
            else { v is String || v is Document },
        FieldKind::Named { is_array, .. } => if is_array { v is StringArray || v is DocumentArray }
            else { v is String || v is Document },
    }
}

/// Whether `value` fits a field of kind `kind`: null fits everything,
/// relations take document ids or nested documents (arrays of them when the
/// relation is to many).
pub fn is_value_compatible_with_kind(value: &NormalValue, kind: &FieldKind) -> (res: bool)
    ensures
        res == kind_compatible(*value, *kind),
{
    if value.is_nil() {
        return true;
    }
    match kind {
        FieldKind::Scalar(s) => is_value_compatible_with_scalar(value, *s),
        FieldKind::ScalarArray(a) => is_value_compatible_with_array(value, *a),
        FieldKind::Relation { is_array, .. } | FieldKind::SelfRef { is_array, .. } | FieldKind::Named { is_array, .. } => {
            if *is_array {
                matches!(value, NormalValue::StringArray(_) | NormalValue::DocumentArray(_))
            } else {
                matches!(value, NormalValue::String(_) | NormalValue::Document)
            }
        },
    }
}

/// A document: its fields with their values.
#[derive(Debug)]
pub struct Document {
    pub fields: Vec<(String, NormalValue)>,
}

/// Index of the first of the first `n` document fields named `name`, or -1.
pub open spec fn doc_field_index(fields: Seq<(String, NormalValue)>, name: Seq<char>, n: int) -> int
    decreases n,
{
    if n <= 0 {
        -1
    } else if doc_field_index(fields, name, n - 1) >= 0 {
        doc_field_index(fields, name, n - 1)
    } else if fields[n - 1].0@ == name {
        n - 1
    } else {
        -1
    }
}

proof fn lemma_doc_field_stable(fields: Seq<(String, NormalValue)>, name: Seq<char>, m: int, n: int)
    requires
        0 <= m <= n,
        doc_field_index(fields, name, m) >= 0,
    ensures
        doc_field_index(fields, name, n) == doc_field_index(fields, name, m),
    decreases n - m,
{
    if n > m {
        lemma_doc_field_stable(fields, name, m, n - 1);
    }
}

impl Document {
    /// The value of the field named `name`.
    pub fn get(&self, name: &str) -> (res: Option<&NormalValue>)
        ensures
            ({
                let i = doc_field_index(self.fields@, name@, self.fields@.len() as int);
                if i >= 0 { res matches Some(v) && *v == self.fields@[i].1 } else { res is None }
            }),
    {
        let mut i: usize = 0;
        while i < self.fields.len()
            invariant
                0 <= i <= self.fields.len(),
                doc_field_index(self.fields@, name@, i as int) == -1,
            decreases self.fields.len() - i,
        {
            if str_eq(self.fields[i].0.as_str(), name) {
                proof {
                    lemma_doc_field_stable(self.fields@, name@, i as int + 1, self.fields@.len() as int);
                }
                return Some(&self.fields[i].1);
            }
            i += 1;
        }
        None
    }
}

/// Whether schema field `f` holds a value in `doc` that does not fit its kind.
pub open spec fn field_rejects(f: FieldDescription, doc: Document) -> bool {
    let i = doc_field_index(doc.fields@, f.name@, doc.fields@.len() as int);
    f.name@ != "_docID"@ && i >= 0 && !kind_compatible(doc.fields@[i].1, f.kind)
}

/// Checks a document against a collection's fields and returns the first
/// field (other than `_docID`) whose value does not fit its kind, or `None`
/// when the document is valid. Fields the schema does not know, and missing
/// fields, are allowed.
pub fn validate_document(fields: &Vec<FieldDescription>, doc: &Document) -> (res: Option<usize>)
    ensures
        res matches Some(k) ==> k < fields@.len() && field_rejects(fields@[k as int], *doc)
            && forall|j: int| 0 <= j < k ==> !field_rejects(#[trigger] fields@[j], *doc),
        res is None ==> forall|j: int| 0 <= j < fields@.len() ==> !field_rejects(#[trigger] fields@[j], *doc),
{
    let mut k: usize = 0;
    while k < fields.len()
        invariant
            0 <= k <= fields.len(),
            forall|j: int| 0 <= j < k ==> !field_rejects(#[trigger] fields@[j], *doc),
        decreases fields.len() - k,
    {
        let f = &fields[k];
        if !str_eq(f.name.as_str(), "_docID") {
            if let Some(value) = doc.get(f.name.as_str()) {
                if !is_value_compatible_with_kind(value, &f.kind) {
                    return Some(k);
                }
            }
        }
        k += 1;
    }
    None
}


/// A floating-point value does not fit an integer field: a document whose
/// Int field `fields[j]` (other than `_docID`) holds a present Float64 is
/// refused, at that field or at an earlier one (`res` is what
/// `validate_document` answers).
pub proof fn law_float_does_not_fit_int_field(fields: Seq<FieldDescription>, doc: Document, j: int, res: Option<usize>)
    requires
        res matches Some(k) ==> k < fields.len() && field_rejects(fields[k as int], doc)
            && forall|i: int| 0 <= i < k ==> !field_rejects(#[trigger] fields[i], doc),
        res is None ==> forall|i: int| 0 <= i < fields.len() ==> !field_rejects(#[trigger] fields[i], doc),
        0 <= j < fields.len(),
        fields[j].kind matches FieldKind::Scalar(ScalarKind::Int),
        fields[j].name@ != "_docID"@,
        doc_field_index(doc.fields@, fields[j].name@, doc.fields@.len() as int) >= 0,
        ({
            let v = doc.fields@[doc_field_index(doc.fields@, fields[j].name@, doc.fields@.len() as int)].1;
            v is Float64 || v matches NormalValue::NillableFloat64(true)
        }),
    ensures
        res matches Some(k) && k <= j,
{
    assert(field_rejects(fields[j], doc));
}


/// How values meet scalar kinds: null fits every kind; an integer also fits
/// the floating-point kinds; a present float, a boolean or a string does not
/// fit an integer field, and an integer does not fit a string field.
pub proof fn law_scalar_fits(k: FieldKind, x: i64, b: bool, t: String)
    ensures
        kind_compatible(NormalValue::Nil, k),
        kind_compatible(NormalValue::Int(x), FieldKind::Scalar(ScalarKind::Int)),
        kind_compatible(NormalValue::Int(x), FieldKind::Scalar(ScalarKind::Float64)),
        kind_compatible(NormalValue::Int(x), FieldKind::Scalar(ScalarKind::Float32)),
        !kind_compatible(NormalValue::Float64, FieldKind::Scalar(ScalarKind::Int)),
        !kind_compatible(NormalValue::NillableFloat64(true), FieldKind::Scalar(ScalarKind::Int)),
        !kind_compatible(NormalValue::Float32, FieldKind::Scalar(ScalarKind::Int)),
        !kind_compatible(NormalValue::Bool(b), FieldKind::Scalar(ScalarKind::Int)),
        !kind_compatible(NormalValue::String(t), FieldKind::Scalar(ScalarKind::Int)),
        !kind_compatible(NormalValue::Int(x), FieldKind::Scalar(ScalarKind::String)),
{
}

} // verus!
