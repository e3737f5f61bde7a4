//! The collection-definition model that the verified logic reads: collection
//! versions, their fields and kinds, policies, indexes and embeddings.

use vstd::prelude::*;
use vstd::string::StringExecFns;

verus! {

/// Scalar field kinds.
#[derive(PartialEq, Eq, Structural, Clone, Copy, Debug)]
pub enum ScalarKind {
    /// No kind.
    Unspecified,
    DocID,
    Bool,
    Int,
    Float64,
    Float32,
    DateTime,
    String,
    Blob,
    Json,
}

/// Scalar array field kinds.
#[derive(PartialEq, Eq, Structural, Clone, Copy, Debug)]
pub enum ScalarArrayKind {
    BoolArray,
    IntArray,
    Float64Array,
    Float32Array,
    StringArray,
    NillableBoolArray,
    NillableIntArray,
    NillableFloat64Array,
    NillableFloat32Array,
    NillableStringArray,
}

/// The kind of a field: a scalar, a scalar array, or an object reference.
#[derive(Debug)]
pub enum FieldKind {
    Scalar(ScalarKind),
    ScalarArray(ScalarArrayKind),
    /// A relation to another collection.
    Relation { is_array: bool, target: String },
    /// A relation back to the same collection.
    SelfRef { is_array: bool, relative_id: String },
    /// A named, not yet resolved object kind.
    Named { is_array: bool, name: String },
}

/// CRDT types a field can be stored with.
#[derive(PartialEq, Eq, Structural, Clone, Copy, Debug)]
pub enum CType {
    /// No CRDT type given.
    Unspecified,
    LwwRegister,
    Object,
    Composite,
    PnCounter,
    PCounter,
    Unknown(u8),
}

/// A field of a collection version.
#[derive(Debug)]
pub struct FieldDescription {
    pub id: String,
    pub name: String,
    pub kind: FieldKind,
    pub crdt_type: CType,
    pub immutable: bool,
}

/// An access-control policy attached to a collection.
#[derive(Debug)]
pub struct PolicyDescription {
    pub id: String,
    pub resource_name: String,
}

/// A field of a secondary index.
#[derive(Debug)]
pub struct IndexedField {
    pub name: String,
    pub descending: bool,
}

/// A secondary index of a collection.
#[derive(Debug)]
pub struct IndexDescription {
    pub name: String,
    pub fields: Vec<IndexedField>,
    pub unique: bool,
}

/// The previous version a collection version was derived from.
#[derive(Debug)]
pub struct PreviousVersionSource {
    pub source_collection_id: String,
}

/// A vector-embedding definition: `field_name` receives the vector generated
/// from the text of `fields`.
#[derive(Debug)]
pub struct VectorEmbeddingDescription {
    pub field_name: String,
    pub fields: Vec<String>,
    pub model: String,
    pub provider: String,
    pub template: String,
    pub url: String,
}

/// A JSON value, as read by source-query analysis (numbers carry no payload:
/// nothing here reads them).
#[derive(Debug)]
pub enum JsonValue {
    Null,
    Bool(bool),
    Number,
    Str(String),
    Array(Vec<JsonValue>),
    Object(Vec<(String, JsonValue)>),
}

/// A query that defines a view or the source of a downsample collection.
#[derive(Debug)]
pub struct QuerySource {
    pub query: JsonValue,
    pub transform: Option<String>,
}

/// One version of a collection definition.
#[derive(Debug)]
pub struct CollectionVersion {
    pub name: String,
    pub version_id: String,
    pub collection_id: String,
    pub is_active: bool,
    pub is_placeholder: bool,
    pub is_branchable: bool,
    pub is_materialized: bool,
    pub fields: Vec<FieldDescription>,
    pub policy: Option<PolicyDescription>,
    pub indexes: Vec<IndexDescription>,
    pub previous_version: Option<PreviousVersionSource>,
    pub query: Option<QuerySource>,
    pub vector_embeddings: Vec<VectorEmbeddingDescription>,
    pub downsample_interval: Option<String>,
    pub downsample_time_field: Option<String>,
    pub downsample_source: Option<QuerySource>,
}

/// Whether two field kinds are equal.
pub open spec fn kind_same(a: FieldKind, b: FieldKind) -> bool {
    match (a, b) {
        (FieldKind::Scalar(x), FieldKind::Scalar(y)) => x == y,
        (FieldKind::ScalarArray(x), FieldKind::ScalarArray(y)) => x == y,
        (FieldKind::Relation { is_array: x, target: t }, FieldKind::Relation { is_array: y, target: u }) =>
            x == y && t@ == u@,
        (FieldKind::SelfRef { is_array: x, relative_id: t }, FieldKind::SelfRef { is_array: y, relative_id: u }) =>
            x == y && t@ == u@,
        (FieldKind::Named { is_array: x, name: t }, FieldKind::Named { is_array: y, name: u }) =>
            x == y && t@ == u@,
        _ => false,
    }
}

/// Whether two field descriptions are equal.
pub open spec fn field_same(a: FieldDescription, b: FieldDescription) -> bool {
    &&& a.id@ == b.id@
    &&& a.name@ == b.name@
    &&& kind_same(a.kind, b.kind)
    &&& a.crdt_type == b.crdt_type
    &&& a.immutable == b.immutable
}

/// Whether two optional policies are equal.
pub open spec fn policy_same(a: Option<PolicyDescription>, b: Option<PolicyDescription>) -> bool {
    match (a, b) {
        (None, None) => true,
        (Some(x), Some(y)) => x.id@ == y.id@ && x.resource_name@ == y.resource_name@,
        _ => false,
    }
}

/// Whether two index descriptions are equal.
pub open spec fn index_same(a: IndexDescription, b: IndexDescription) -> bool {
    &&& a.name@ == b.name@
    &&& a.unique == b.unique
    &&& a.fields.len() == b.fields.len()
    &&& forall|i: int| 0 <= i < a.fields.len() ==>
            (#[trigger] a.fields@[i]).name@ == b.fields@[i].name@
            && a.fields@[i].descending == b.fields@[i].descending
}

/// Whether two index lists are equal.
pub open spec fn indexes_same(a: Seq<IndexDescription>, b: Seq<IndexDescription>) -> bool {
    a.len() == b.len() && forall|i: int| 0 <= i < a.len() ==> index_same(#[trigger] a[i], b[i])
}

impl FieldKind {
    /// Whether two field kinds are equal.
    pub fn same_as(&self, other: &FieldKind) -> (res: bool)
        ensures
            res == kind_same(*self, *other),
    {
        match (self, other) {
            (FieldKind::Scalar(x), FieldKind::Scalar(y)) => *x == *y,
            (FieldKind::ScalarArray(x), FieldKind::ScalarArray(y)) => *x == *y,
            (FieldKind::Relation { is_array: x, target: t }, FieldKind::Relation { is_array: y, target: u }) =>
                *x == *y && *t == *u,
            (FieldKind::SelfRef { is_array: x, relative_id: t }, FieldKind::SelfRef { is_array: y, relative_id: u }) =>
                *x == *y && *t == *u,
            (FieldKind::Named { is_array: x, name: t }, FieldKind::Named { is_array: y, name: u }) =>
                *x == *y && *t == *u,
            _ => false,
        }
    }

    /// The scalar kind, when this is a scalar field kind.
    pub fn as_scalar(&self) -> (res: Option<ScalarKind>)
        ensures
            res == (match *self { FieldKind::Scalar(k) => Some(k), _ => None::<ScalarKind> }),
    {
        match self {
            FieldKind::Scalar(k) => Some(*k),
            _ => None,
        }
    }

    pub open spec fn is_numeric_spec(&self) -> bool {
        match *self {
            FieldKind::Scalar(k) => k == ScalarKind::Int || k == ScalarKind::Float64
                || k == ScalarKind::Float32,
            _ => false,
        }
    }

    /// Whether this is a numeric scalar kind (Int, Float64 or Float32).
    pub fn is_numeric(&self) -> (res: bool)
        ensures
            res == self.is_numeric_spec(),
    {
        match self {
            FieldKind::Scalar(k) => match k {
                ScalarKind::Int | ScalarKind::Float64 | ScalarKind::Float32 => true,
                _ => false,
            },
            _ => false,
        }
    }
}

impl CType {
    pub open spec fn is_counter_spec(self) -> bool {
        self == CType::PnCounter || self == CType::PCounter
    }

    /// Whether this is an accumulating counter type.
    pub fn is_counter(&self) -> (res: bool)
        ensures
            res == self.is_counter_spec(),
    {
        match self {
            CType::PnCounter | CType::PCounter => true,
            _ => false,
        }
    }

    pub open spec fn compatible_spec(self, kind: FieldKind) -> bool {
        self.is_counter_spec() ==> kind.is_numeric_spec()
    }

    /// Whether a field of `kind` can be stored with this CRDT type: counters
    /// need a numeric scalar kind; every other type accepts any kind.
    pub fn is_compatible_with(&self, kind: &FieldKind) -> (res: bool)
        ensures
            res == self.compatible_spec(*kind),
    {
        if self.is_counter() { kind.is_numeric() } else { true }
    }
}

impl FieldDescription {
    /// Whether two field descriptions are equal.
    pub fn same_as(&self, other: &FieldDescription) -> (res: bool)
        ensures
            res == field_same(*self, *other),
    {
        self.id == other.id && self.name == other.name && self.kind.same_as(&other.kind)
            && self.crdt_type == other.crdt_type && self.immutable == other.immutable
    }
}

/// Whether two optional policies are equal.
pub fn policies_equal(a: &Option<PolicyDescription>, b: &Option<PolicyDescription>) -> (res: bool)
    ensures
        res == policy_same(*a, *b),
{
    match (a, b) {
        (None, None) => true,
        (Some(x), Some(y)) => x.id == y.id && x.resource_name == y.resource_name,
        _ => false,
    }
}

fn index_equal(a: &IndexDescription, b: &IndexDescription) -> (res: bool)
    ensures
        res == index_same(*a, *b),
{
    if a.name != b.name || a.unique != b.unique || a.fields.len() != b.fields.len() {
        return false;
    }
    let mut i: usize = 0;
    while i < a.fields.len()
        invariant
            a.fields.len() == b.fields.len(),
            0 <= i <= a.fields.len(),
            forall|j: int| 0 <= j < i ==> (#[trigger] a.fields@[j]).name@ == b.fields@[j].name@
                && a.fields@[j].descending == b.fields@[j].descending,
        decreases a.fields.len() - i,
    {
        if a.fields[i].name != b.fields[i].name || a.fields[i].descending != b.fields[i].descending {
            return false;
        }
        i += 1;
    }
    true
}

/// Whether two index lists are equal.
pub fn indexes_equal(a: &Vec<IndexDescription>, b: &Vec<IndexDescription>) -> (res: bool)
    ensures
        res == indexes_same(a@, b@),
{
    if a.len() != b.len() {
        return false;
    }
    let mut i: usize = 0;
    while i < a.len()
        invariant
            a.len() == b.len(),
            0 <= i <= a.len(),
            forall|j: int| 0 <= j < i ==> index_same(#[trigger] a@[j], b@[j]),
        decreases a.len() - i,
    {
        if !index_equal(&a[i], &b[i]) {
            return false;
        }
        i += 1;
    }
    true
}

/// The name a CRDT type is shown by in messages.
pub open spec fn crdt_type_name(c: CType) -> Seq<char> {
    match c {
        CType::Unspecified => "none"@,
        CType::LwwRegister => "lww"@,
        CType::Object => "object"@,
        CType::Composite => "composite"@,
        CType::PnCounter => "pncounter"@,
        CType::PCounter => "pcounter"@,
        CType::Unknown(_) => "unknown"@,
    }
}

/// Format a CRDT type for error messages.
pub fn format_crdt_type(c: CType) -> (res: &'static str)
    ensures
        res@ == crdt_type_name(c),
{
    match c {
        CType::Unspecified => "none",
        CType::LwwRegister => "lww",
        CType::Object => "object",
        CType::Composite => "composite",
        CType::PnCounter => "pncounter",
        CType::PCounter => "pcounter",
        CType::Unknown(_) => "unknown",
    }
}

/// The name a field kind is shown by in messages.
pub open spec fn field_kind_name(k: FieldKind) -> Seq<char> {
    match k {
        FieldKind::Scalar(s) => match s {
            ScalarKind::Unspecified => "None"@,
            ScalarKind::DocID => "ID"@,
            ScalarKind::Bool => "Boolean"@,
            ScalarKind::Int => "Int"@,
            ScalarKind::Float64 => "Float64"@,
            ScalarKind::Float32 => "Float32"@,
            ScalarKind::DateTime => "DateTime"@,
            ScalarKind::String => "String"@,
            ScalarKind::Blob => "Blob"@,
            ScalarKind::Json => "JSON"@,
        },
        FieldKind::ScalarArray(a) => match a {
            ScalarArrayKind::BoolArray => "[Boolean!]"@,
            ScalarArrayKind::IntArray => "[Int!]"@,
            ScalarArrayKind::Float64Array => "[Float64!]"@,
            ScalarArrayKind::Float32Array => "[Float32!]"@,
            ScalarArrayKind::StringArray => "[String!]"@,
            ScalarArrayKind::NillableBoolArray => "[Boolean]"@,
            ScalarArrayKind::NillableIntArray => "[Int]"@,
            ScalarArrayKind::NillableFloat64Array => "[Float64]"@,
            ScalarArrayKind::NillableFloat32Array => "[Float32]"@,
            ScalarArrayKind::NillableStringArray => "[String]"@,
        },
        _ => "Object"@,
    }
}

/// Format a field kind for error messages.
pub fn format_field_kind(k: &FieldKind) -> (res: &'static str)
    ensures
        res@ == field_kind_name(*k),
{
    match k {
        FieldKind::Scalar(s) => match s {
            ScalarKind::Unspecified => "None",
            ScalarKind::DocID => "ID",
            ScalarKind::Bool => "Boolean",
            ScalarKind::Int => "Int",
            ScalarKind::Float64 => "Float64",
            ScalarKind::Float32 => "Float32",
            ScalarKind::DateTime => "DateTime",
            ScalarKind::String => "String",
            ScalarKind::Blob => "Blob",
            ScalarKind::Json => "JSON",
        },
        FieldKind::ScalarArray(a) => match a {
            ScalarArrayKind::BoolArray => "[Boolean!]",
            ScalarArrayKind::IntArray => "[Int!]",
            ScalarArrayKind::Float64Array => "[Float64!]",
            ScalarArrayKind::Float32Array => "[Float32!]",
            ScalarArrayKind::StringArray => "[String!]",
            ScalarArrayKind::NillableBoolArray => "[Boolean]",
            ScalarArrayKind::NillableIntArray => "[Int]",
            ScalarArrayKind::NillableFloat64Array => "[Float64]",
            ScalarArrayKind::NillableFloat32Array => "[Float32]",
            ScalarArrayKind::NillableStringArray => "[String]",
        },
        _ => "Object",
    }
}

/// The collection id given to orphan placeholder versions.
pub open spec fn orphan_collection_id_spec() -> Seq<char> {
    "orphan"@
}

/// The collection id given to orphan placeholder versions.
pub fn orphan_collection_id() -> (res: &'static str)
    ensures
        res@ == orphan_collection_id_spec(),
{
    "orphan"
}

} // verus!
