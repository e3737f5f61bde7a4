//! Validation of collection-version patches: the new set of collection
//! versions is checked against the old one, and every violated rule yields one
//! message. The validators run in a fixed order and their messages are joined
//! with newlines.

use vstd::prelude::*;
use vstd::string::StringExecFns;
use crate::schema::{
    VectorEmbeddingDescription,
    CollectionVersion, CType, FieldDescription, FieldKind, ScalarArrayKind, ScalarKind,
    crdt_type_name, field_kind_name, field_same, format_crdt_type, format_field_kind,
    indexes_equal, indexes_same, orphan_collection_id, orphan_collection_id_spec, policies_equal,
    policy_same,
};
use crate::text::{cat2, cat4, decimal, extend_strings, has_substring, join, join_spec, push_string,
    u64_to_decimal, views};

verus! {

/// A snapshot of collection versions, as the validators see it. Lookups by
/// version id, by active name and by active collection id give the last
/// matching version, as a map filled in order would.
#[derive(Debug)]
pub struct DefinitionState<'a> {
    pub collections: &'a [CollectionVersion],
}

/// Index of the last version among the first `n` of `cols` with version id `id`, or -1.
pub open spec fn last_by_version(cols: Seq<CollectionVersion>, id: Seq<char>, n: int) -> int
    decreases n,
{
    if n <= 0 {
        -1
    } else if cols[n - 1].version_id@ == id {
        n - 1
    } else {
        last_by_version(cols, id, n - 1)
    }
}

/// Index of the last active version among the first `n` with collection id `id`, or -1.
pub open spec fn last_active_by_collection(cols: Seq<CollectionVersion>, id: Seq<char>, n: int) -> int
    decreases n,
{
    if n <= 0 {
        -1
    } else if cols[n - 1].is_active && cols[n - 1].collection_id@ == id {
        n - 1
    } else {
        last_active_by_collection(cols, id, n - 1)
    }
}

/// Index of the last active version among the first `n` with name `name`, or -1.
pub open spec fn last_active_by_name(cols: Seq<CollectionVersion>, name: Seq<char>, n: int) -> int
    decreases n,
{
    if n <= 0 {
        -1
    } else if cols[n - 1].is_active && cols[n - 1].name@ == name {
        n - 1
    } else {
        last_active_by_name(cols, name, n - 1)
    }
}

pub(crate) proof fn lemma_last_by_version_range(cols: Seq<CollectionVersion>, id: Seq<char>, n: int)
    requires
        0 <= n <= cols.len(),
    ensures
        -1 <= last_by_version(cols, id, n) < n,
        last_by_version(cols, id, n) >= 0 ==> cols[last_by_version(cols, id, n)].version_id@ == id,
    decreases n,
{
    if n > 0 {
        lemma_last_by_version_range(cols, id, n - 1);
    }
}

proof fn lemma_last_active_by_collection_range(cols: Seq<CollectionVersion>, id: Seq<char>, n: int)
    requires
        0 <= n <= cols.len(),
    ensures
        -1 <= last_active_by_collection(cols, id, n) < n,
    decreases n,
{
    if n > 0 {
        lemma_last_active_by_collection_range(cols, id, n - 1);
    }
}

/// The last active version by name is a valid index that carries the name.
pub proof fn lemma_last_active_by_name_range(cols: Seq<CollectionVersion>, name: Seq<char>, n: int)
    requires
        0 <= n <= cols.len(),
    ensures
        -1 <= last_active_by_name(cols, name, n) < n,
        last_active_by_name(cols, name, n) >= 0 ==> cols[last_active_by_name(cols, name, n)].name@ == name,
    decreases n,
{
    if n > 0 {
        lemma_last_active_by_name_range(cols, name, n - 1);
    }
}

/// The old version a new version is compared with: the one with the same
/// version id, else the active one with the same collection id, else none (-1).
pub open spec fn old_counterpart(old: Seq<CollectionVersion>, c: CollectionVersion) -> int {
    let by_id = last_by_version(old, c.version_id@, old.len() as int);
    if by_id >= 0 {
        by_id
    } else {
        last_active_by_collection(old, c.collection_id@, old.len() as int)
    }
}

/// The last active version among the first `n` of `cols` with collection id `id`.
pub fn find_last_active_by_collection(cols: &[CollectionVersion], id: &String, n: usize) -> (res: Option<usize>)
    requires
        n <= cols@.len(),
    ensures
        res matches Some(i) ==> i as int == last_active_by_collection(cols@, id@, n as int) && i < n,
        res is None ==> last_active_by_collection(cols@, id@, n as int) == -1,
{
    let mut i = n;
    while i > 0
        invariant
            i <= n <= cols@.len(),
            last_active_by_collection(cols@, id@, n as int) == last_active_by_collection(cols@, id@, i as int),
        decreases i,
    {
        if cols[i - 1].is_active && cols[i - 1].collection_id == *id {
            return Some(i - 1);
        }
        i -= 1;
    }
    None
}

impl<'a> DefinitionState<'a> {
    /// Builds the snapshot of `collections`.
    pub fn new(collections: &'a [CollectionVersion]) -> (res: Self)
        ensures
            res.collections@ == collections@,
    {
        DefinitionState { collections }
    }

    /// The last version with version id `id`.
    pub fn by_id(&self, id: &String) -> (res: Option<usize>)
        ensures
            res matches Some(i) ==> i as int == last_by_version(self.collections@, id@, self.collections@.len() as int)
                && i < self.collections@.len(),
            res is None ==> last_by_version(self.collections@, id@, self.collections@.len() as int) == -1,
    {
        proof {
            lemma_last_by_version_range(self.collections@, id@, self.collections@.len() as int);
        }
        let mut i = self.collections.len();
        while i > 0
            invariant
                i <= self.collections.len(),
                last_by_version(self.collections@, id@, self.collections@.len() as int)
                    == last_by_version(self.collections@, id@, i as int),
            decreases i,
        {
            if self.collections[i - 1].version_id == *id {
                return Some(i - 1);
            }
            i -= 1;
        }
        None
    }

    /// The last active version with collection id `id`.
    pub fn active_by_collection_id(&self, id: &String) -> (res: Option<usize>)
        ensures
            res matches Some(i) ==> i as int == last_active_by_collection(self.collections@, id@, self.collections@.len() as int)
                && i < self.collections@.len(),
            res is None ==> last_active_by_collection(self.collections@, id@, self.collections@.len() as int) == -1,
    {
        find_last_active_by_collection(self.collections, id, self.collections.len())
    }

    /// The last active version named `name`.
    pub fn active_by_name(&self, name: &String) -> (res: Option<usize>)
        ensures
            res matches Some(i) ==> i as int == last_active_by_name(self.collections@, name@, self.collections@.len() as int)
                && i < self.collections@.len(),
            res is None ==> last_active_by_name(self.collections@, name@, self.collections@.len() as int) == -1,
    {
        let mut i = self.collections.len();
        while i > 0
            invariant
                i <= self.collections.len(),
                last_active_by_name(self.collections@, name@, self.collections@.len() as int)
                    == last_active_by_name(self.collections@, name@, i as int),
            decreases i,
        {
            if self.collections[i - 1].is_active && self.collections[i - 1].name == *name {
                return Some(i - 1);
            }
            i -= 1;
        }
        None
    }

    /// The old version that `c` is compared with (see `old_counterpart`).
    pub fn counterpart_of(&self, c: &CollectionVersion) -> (res: Option<usize>)
        ensures
            res matches Some(i) ==> i as int == old_counterpart(self.collections@, *c)
                && i < self.collections@.len(),
            res is None ==> old_counterpart(self.collections@, *c) == -1,
    {
        match self.by_id(&c.version_id) {
            Some(i) => Some(i),
            None => self.active_by_collection_id(&c.collection_id),
        }
    }
}

// ---------------------------------------------------------------------------
// Update-only validators
// ---------------------------------------------------------------------------

/// Messages of "collections cannot be added by a patch" for `c`.
pub open spec fn not_added_one(c: CollectionVersion, old: Seq<CollectionVersion>) -> Seq<Seq<char>> {
    if !c.is_placeholder && last_by_version(old, c.version_id@, old.len() as int) < 0
        && last_active_by_collection(old, c.collection_id@, old.len() as int) < 0 {
        seq!["adding collections via patch is not supported. Name: "@ + c.name@]
    } else {
        Seq::empty()
    }
}

pub open spec fn not_added_errs(new: Seq<CollectionVersion>, old: Seq<CollectionVersion>, n: int) -> Seq<Seq<char>>
    decreases n,
{
    if n <= 0 { Seq::empty() } else { not_added_errs(new, old, n - 1) + not_added_one(new[n - 1], old) }
}

/// New collections cannot be added via a patch.
pub fn validate_collection_not_added(new_state: &DefinitionState, old_state: &DefinitionState) -> (errs: Vec<String>)
    ensures
        views(errs@) == not_added_errs(new_state.collections@, old_state.collections@, new_state.collections@.len() as int),
{
    let mut errs: Vec<String> = Vec::new();
    let mut i: usize = 0;
    while i < new_state.collections.len()
        invariant
            0 <= i <= new_state.collections.len(),
            views(errs@) == not_added_errs(new_state.collections@, old_state.collections@, i as int),
        decreases new_state.collections.len() - i,
    {
        let col = &new_state.collections[i];
        if !col.is_placeholder && old_state.by_id(&col.version_id).is_none()
            && old_state.active_by_collection_id(&col.collection_id).is_none() {
            push_string(&mut errs, cat2("adding collections via patch is not supported. Name: ", col.name.as_str()));
        }
        i += 1;
    }
    errs
}

/// One message when `cond` holds, none otherwise.
pub open spec fn msg_if(cond: bool, m: Seq<char>) -> Seq<Seq<char>> {
    if cond { seq![m] } else { Seq::empty() }
}

// -- name not mutated ------------------------------------------------------

pub open spec fn name_not_mutated_one(c: CollectionVersion, old: Seq<CollectionVersion>) -> Seq<Seq<char>> {
    let o = last_by_version(old, c.version_id@, old.len() as int);
    msg_if(o >= 0 && !old[o].is_placeholder && c.name@ != old[o].name@,
        "collection name cannot be mutated. NewName: "@ + c.name@ + ", OldName: "@ + old[o].name@)
}

pub open spec fn name_not_mutated_errs(new: Seq<CollectionVersion>, old: Seq<CollectionVersion>, n: int) -> Seq<Seq<char>>
    decreases n,
{
    if n <= 0 { Seq::empty() } else { name_not_mutated_errs(new, old, n - 1) + name_not_mutated_one(new[n - 1], old) }
}

/// The name of an existing (non-placeholder) version cannot change.
pub fn validate_collection_name_not_mutated(new_state: &DefinitionState, old_state: &DefinitionState) -> (errs: Vec<String>)
    ensures
        views(errs@) == name_not_mutated_errs(new_state.collections@, old_state.collections@, new_state.collections@.len() as int),
{
    let mut errs: Vec<String> = Vec::new();
    let mut i: usize = 0;
    while i < new_state.collections.len()
        invariant
            0 <= i <= new_state.collections.len(),
            views(errs@) == name_not_mutated_errs(new_state.collections@, old_state.collections@, i as int),
        decreases new_state.collections.len() - i,
    {
        let col = &new_state.collections[i];
        if let Some(o) = old_state.by_id(&col.version_id) {
            let old_col = &old_state.collections[o];
            if !old_col.is_placeholder && col.name != old_col.name {
                push_string(&mut errs, cat4("collection name cannot be mutated. NewName: ", col.name.as_str(),
                    ", OldName: ", old_col.name.as_str()));
            }
        }
        i += 1;
    }
    errs
}

// -- version id not mutated ------------------------------------------------

/// A version is looked up by its own version id, so the ids always agree and
/// this check never reports anything.
pub fn validate_version_id_not_mutated(new_state: &DefinitionState, old_state: &DefinitionState) -> (errs: Vec<String>)
    ensures
        errs@.len() == 0,
{
    let mut errs: Vec<String> = Vec::new();
    let mut i: usize = 0;
    while i < new_state.collections.len()
        invariant
            0 <= i <= new_state.collections.len(),
            errs@.len() == 0,
        decreases new_state.collections.len() - i,
    {
        let col = &new_state.collections[i];
        if let Some(o) = old_state.by_id(&col.version_id) {
            proof {
                lemma_last_by_version_range(old_state.collections@, col.version_id@, old_state.collections@.len() as int);
            }
            let old_col = &old_state.collections[o];
            if old_col.collection_id == col.collection_id && old_col.version_id != col.version_id {
                push_string(&mut errs, cat2("collection version ID cannot be mutated. CollectionID: ",
                    col.collection_id.as_str()));
            }
        }
        i += 1;
    }
    errs
}

// -- collection id not mutated ---------------------------------------------

pub open spec fn collection_id_not_mutated_one(c: CollectionVersion, old: Seq<CollectionVersion>) -> Seq<Seq<char>> {
    let o = last_by_version(old, c.version_id@, old.len() as int);
    msg_if(o >= 0 && c.collection_id@ != old[o].collection_id@,
        "collection ID cannot be mutated. CollectionVersionID: "@ + c.version_id@)
}

pub open spec fn collection_id_not_mutated_errs(new: Seq<CollectionVersion>, old: Seq<CollectionVersion>, n: int) -> Seq<Seq<char>>
    decreases n,
{
    if n <= 0 { Seq::empty() } else { collection_id_not_mutated_errs(new, old, n - 1) + collection_id_not_mutated_one(new[n - 1], old) }
}

/// The collection id of an existing version cannot change.
pub fn validate_collection_id_not_mutated(new_state: &DefinitionState, old_state: &DefinitionState) -> (errs: Vec<String>)
    ensures
        views(errs@) == collection_id_not_mutated_errs(new_state.collections@, old_state.collections@, new_state.collections@.len() as int),
{
    let mut errs: Vec<String> = Vec::new();
    let mut i: usize = 0;
    while i < new_state.collections.len()
        invariant
            0 <= i <= new_state.collections.len(),
            views(errs@) == collection_id_not_mutated_errs(new_state.collections@, old_state.collections@, i as int),
        decreases new_state.collections.len() - i,
    {
        let col = &new_state.collections[i];
        if let Some(o) = old_state.by_id(&col.version_id) {
            if col.collection_id != old_state.collections[o].collection_id {
                push_string(&mut errs, cat2("collection ID cannot be mutated. CollectionVersionID: ",
                    col.version_id.as_str()));
            }
        }
        i += 1;
    }
    errs
}

// -- id not empty -------------------------------------------------------------

pub open spec fn id_not_empty_errs(new: Seq<CollectionVersion>, n: int) -> Seq<Seq<char>>
    decreases n,
{
    if n <= 0 { Seq::empty() } else {
        id_not_empty_errs(new, n - 1) + msg_if(new[n - 1].collection_id@.len() == 0, "collection ID cannot be empty"@)
    }
}

/// Every version needs a collection id.
pub fn validate_id_not_empty(new_state: &DefinitionState, _old_state: &DefinitionState) -> (errs: Vec<String>)
    ensures
        views(errs@) == id_not_empty_errs(new_state.collections@, new_state.collections@.len() as int),
{
    let mut errs: Vec<String> = Vec::new();
    let mut i: usize = 0;
    while i < new_state.collections.len()
        invariant
            0 <= i <= new_state.collections.len(),
            views(errs@) == id_not_empty_errs(new_state.collections@, i as int),
        decreases new_state.collections.len() - i,
    {
        if new_state.collections[i].collection_id.as_str().is_empty() {
            push_string(&mut errs, String::from_str("collection ID cannot be empty"));
        }
        i += 1;
    }
    errs
}

// -- id unique ------------------------------------------------------------------

/// Whether a version before position `i` has the same (non-empty) version id as position `i`.
pub open spec fn version_seen_before(new: Seq<CollectionVersion>, i: int) -> bool {
    exists|j: int| 0 <= j < i && #[trigger] new[j].version_id@ == new[i].version_id@
}

pub open spec fn id_unique_errs(new: Seq<CollectionVersion>, n: int) -> Seq<Seq<char>>
    decreases n,
{
    if n <= 0 { Seq::empty() } else {
        id_unique_errs(new, n - 1) + msg_if(new[n - 1].version_id@.len() > 0 && version_seen_before(new, n - 1),
            "collection already exists. ID: "@ + new[n - 1].version_id@)
    }
}

/// Version ids are unique.
pub fn validate_id_unique(new_state: &DefinitionState, _old_state: &DefinitionState) -> (errs: Vec<String>)
    ensures
        views(errs@) == id_unique_errs(new_state.collections@, new_state.collections@.len() as int),
{
    let cols = new_state.collections;
    let mut errs: Vec<String> = Vec::new();
    let mut i: usize = 0;
    while i < cols.len()
        invariant
            cols@ == new_state.collections@,
            0 <= i <= cols.len(),
            views(errs@) == id_unique_errs(cols@, i as int),
        decreases cols.len() - i,
    {
        if !cols[i].version_id.as_str().is_empty() {
            let mut seen = false;
            let mut j: usize = 0;
            while j < i
                invariant
                    0 <= j <= i < cols.len(),
                    seen == exists|k: int| 0 <= k < j && #[trigger] cols@[k].version_id@ == cols@[i as int].version_id@,
                decreases i - j,
            {
                if cols[j].version_id == cols[i].version_id {
                    seen = true;
                }
                j += 1;
            }
            if seen {
                push_string(&mut errs, cat2("collection already exists. ID: ", cols[i].version_id.as_str()));
            }
        }
        i += 1;
    }
    errs
}

// -- single version active ---------------------------------------------------

pub open spec fn single_active_errs(new: Seq<CollectionVersion>, n: int) -> Seq<Seq<char>>
    decreases n,
{
    if n <= 0 { Seq::empty() } else {
        let c = new[n - 1];
        let p = last_active_by_collection(new, c.collection_id@, n - 1);
        single_active_errs(new, n - 1) + msg_if(c.is_active && p >= 0 && new[p].version_id@ != c.version_id@,
            "multiple versions of same collection cannot be active. Name: "@ + c.name@ + ", Root: "@ + c.collection_id@)
    }
}

/// At most one version of a collection may be active. (Not part of the patch
/// validation run.)
pub fn validate_single_version_active(new_state: &DefinitionState, _old_state: &DefinitionState) -> (errs: Vec<String>)
    ensures
        views(errs@) == single_active_errs(new_state.collections@, new_state.collections@.len() as int),
{
    let cols = new_state.collections;
    let mut errs: Vec<String> = Vec::new();
    let mut i: usize = 0;
    while i < cols.len()
        invariant
            cols@ == new_state.collections@,
            0 <= i <= cols.len(),
            views(errs@) == single_active_errs(cols@, i as int),
        decreases cols.len() - i,
    {
        if cols[i].is_active {
            if let Some(p) = find_last_active_by_collection(cols, &cols[i].collection_id, i) {
                if cols[p].version_id != cols[i].version_id {
                    push_string(&mut errs, cat4("multiple versions of same collection cannot be active. Name: ",
                        cols[i].name.as_str(), ", Root: ", cols[i].collection_id.as_str()));
                }
            }
        }
        i += 1;
    }
    errs
}

// -- field lookups -------------------------------------------------------------

/// Index of the last of the first `n` fields named `name`, or -1.
pub open spec fn last_field_by_name(fields: Seq<FieldDescription>, name: Seq<char>, n: int) -> int
    decreases n,
{
    if n <= 0 { -1 } else if fields[n - 1].name@ == name { n - 1 } else { last_field_by_name(fields, name, n - 1) }
}

/// Index of the last of the first `n` fields with id `id`, or -1.
pub open spec fn last_field_by_id(fields: Seq<FieldDescription>, id: Seq<char>, n: int) -> int
    decreases n,
{
    if n <= 0 { -1 } else if fields[n - 1].id@ == id { n - 1 } else { last_field_by_id(fields, id, n - 1) }
}

/// Index of the first of the first `n` fields named `name`, or -1.
pub open spec fn first_field_by_name(fields: Seq<FieldDescription>, name: Seq<char>, n: int) -> int
    decreases n,
{
    if n <= 0 {
        -1
    } else if first_field_by_name(fields, name, n - 1) >= 0 {
        first_field_by_name(fields, name, n - 1)
    } else if fields[n - 1].name@ == name {
        n - 1
    } else {
        -1
    }
}

fn find_last_field_by_name(fields: &Vec<FieldDescription>, name: &String) -> (res: Option<usize>)
    ensures
        res matches Some(i) ==> i as int == last_field_by_name(fields@, name@, fields@.len() as int) && i < fields@.len(),
        res is None ==> last_field_by_name(fields@, name@, fields@.len() as int) == -1,
{
    let mut i = fields.len();
    while i > 0
        invariant
            i <= fields@.len(),
            last_field_by_name(fields@, name@, fields@.len() as int) == last_field_by_name(fields@, name@, i as int),
        decreases i,
    {
        if fields[i - 1].name == *name {
            return Some(i - 1);
        }
        i -= 1;
    }
    None
}

fn find_last_field_by_id(fields: &Vec<FieldDescription>, id: &String) -> (res: Option<usize>)
    ensures
        res matches Some(i) ==> i as int == last_field_by_id(fields@, id@, fields@.len() as int) && i < fields@.len(),
        res is None ==> last_field_by_id(fields@, id@, fields@.len() as int) == -1,
{
    let mut i = fields.len();
    while i > 0
        invariant
            i <= fields@.len(),
            last_field_by_id(fields@, id@, fields@.len() as int) == last_field_by_id(fields@, id@, i as int),
        decreases i,
    {
        if fields[i - 1].id == *id {
            return Some(i - 1);
        }
        i -= 1;
    }
    None
}

/// The first field named `name`.
pub fn find_first_field_by_name(fields: &Vec<FieldDescription>, name: &String) -> (res: Option<usize>)
    ensures
        res matches Some(i) ==> i as int == first_field_by_name(fields@, name@, fields@.len() as int) && i < fields@.len(),
        res is None ==> first_field_by_name(fields@, name@, fields@.len() as int) == -1,
{
    let mut i: usize = 0;
    while i < fields.len()
        invariant
            0 <= i <= fields@.len(),
            first_field_by_name(fields@, name@, i as int) == -1,
        decreases fields.len() - i,
    {
        if fields[i].name == *name {
            proof { lemma_first_field_stable(fields@, name@, i as int + 1, fields@.len() as int); }
            return Some(i);
        }
        i += 1;
    }
    None
}

proof fn lemma_first_field_stable(fields: Seq<FieldDescription>, name: Seq<char>, m: int, n: int)
    requires
        0 <= m <= n,
        first_field_by_name(fields, name, m) >= 0,
    ensures
        first_field_by_name(fields, name, n) == first_field_by_name(fields, name, m),
    decreases n - m,
{
    if n > m {
        lemma_first_field_stable(fields, name, m, n - 1);
    }
}

// -- field not moved ---------------------------------------------------------------

pub open spec fn moved_msg(name: Seq<char>, new_idx: nat, old_idx: nat) -> Seq<char> {
    "moving fields is not currently supported. Name: "@ + name + ", ProposedIndex: "@ + decimal(new_idx)
        + ", ExistingIndex: "@ + decimal(old_idx)
}

pub open spec fn field_moved_errs(nf: Seq<FieldDescription>, of: Seq<FieldDescription>, n: int) -> Seq<Seq<char>>
    decreases n,
{
    if n <= 0 { Seq::empty() } else {
        let oi = last_field_by_name(of, nf[n - 1].name@, of.len() as int);
        field_moved_errs(nf, of, n - 1) + msg_if(oi >= 0 && oi != n - 1, moved_msg(nf[n - 1].name@, (n - 1) as nat, oi as nat))
    }
}

pub open spec fn field_not_moved_one(c: CollectionVersion, old: Seq<CollectionVersion>) -> Seq<Seq<char>> {
    let o = old_counterpart(old, c);
    if o < 0 { Seq::empty() } else { field_moved_errs(c.fields@, old[o].fields@, c.fields@.len() as int) }
}

pub open spec fn field_not_moved_errs(new: Seq<CollectionVersion>, old: Seq<CollectionVersion>, n: int) -> Seq<Seq<char>>
    decreases n,
{
    if n <= 0 { Seq::empty() } else { field_not_moved_errs(new, old, n - 1) + field_not_moved_one(new[n - 1], old) }
}

fn field_not_moved_for(new_fields: &Vec<FieldDescription>, old_fields: &Vec<FieldDescription>) -> (errs: Vec<String>)
    ensures
        views(errs@) == field_moved_errs(new_fields@, old_fields@, new_fields@.len() as int),
{
    let mut errs: Vec<String> = Vec::new();
    let mut i: usize = 0;
    while i < new_fields.len()
        invariant
            0 <= i <= new_fields.len(),
            views(errs@) == field_moved_errs(new_fields@, old_fields@, i as int),
        decreases new_fields.len() - i,
    {
        if let Some(oi) = find_last_field_by_name(old_fields, &new_fields[i].name) {
            if oi != i {
                let mut m = cat2("moving fields is not currently supported. Name: ", new_fields[i].name.as_str());
                m.append(", ProposedIndex: ");
                m.append(u64_to_decimal(i as u64).as_str());
                m.append(", ExistingIndex: ");
                m.append(u64_to_decimal(oi as u64).as_str());
                push_string(&mut errs, m);
            }
        }
        i += 1;
    }
    errs
}

/// Fields cannot be reordered within a collection.
pub fn validate_field_not_moved(new_state: &DefinitionState, old_state: &DefinitionState) -> (errs: Vec<String>)
    ensures
        views(errs@) == field_not_moved_errs(new_state.collections@, old_state.collections@, new_state.collections@.len() as int),
{
    let mut errs: Vec<String> = Vec::new();
    let mut i: usize = 0;
    while i < new_state.collections.len()
        invariant
            0 <= i <= new_state.collections.len(),
            views(errs@) == field_not_moved_errs(new_state.collections@, old_state.collections@, i as int),
        decreases new_state.collections.len() - i,
    {
        let col = &new_state.collections[i];
        if let Some(o) = old_state.counterpart_of(col) {
            let e = field_not_moved_for(&col.fields, &old_state.collections[o].fields);
            extend_strings(&mut errs, e);
        }
        i += 1;
    }
    errs
}

// -- field not mutated -------------------------------------------------------------

pub open spec fn field_mutated_errs(nf: Seq<FieldDescription>, of: Seq<FieldDescription>, n: int) -> Seq<Seq<char>>
    decreases n,
{
    if n <= 0 { Seq::empty() } else {
        let f = nf[n - 1];
        let oi = last_field_by_id(of, f.id@, of.len() as int);
        field_mutated_errs(nf, of, n - 1) + msg_if(f.id@.len() > 0 && oi >= 0 && !field_same(f, of[oi]),
            "mutating an existing field is not supported. ProposedName: "@ + f.name@)
    }
}

pub open spec fn field_not_mutated_one(c: CollectionVersion, old: Seq<CollectionVersion>) -> Seq<Seq<char>> {
    let o = old_counterpart(old, c);
    if o < 0 { Seq::empty() } else { field_mutated_errs(c.fields@, old[o].fields@, c.fields@.len() as int) }
}

pub open spec fn field_not_mutated_errs(new: Seq<CollectionVersion>, old: Seq<CollectionVersion>, n: int) -> Seq<Seq<char>>
    decreases n,
{
    if n <= 0 { Seq::empty() } else { field_not_mutated_errs(new, old, n - 1) + field_not_mutated_one(new[n - 1], old) }
}

fn field_not_mutated_for(new_fields: &Vec<FieldDescription>, old_fields: &Vec<FieldDescription>) -> (errs: Vec<String>)
    ensures
        views(errs@) == field_mutated_errs(new_fields@, old_fields@, new_fields@.len() as int),
{
    let mut errs: Vec<String> = Vec::new();
    let mut i: usize = 0;
    while i < new_fields.len()
        invariant
            0 <= i <= new_fields.len(),
            views(errs@) == field_mutated_errs(new_fields@, old_fields@, i as int),
        decreases new_fields.len() - i,
    {
        let f = &new_fields[i];
        if !f.id.as_str().is_empty() {
            if let Some(oi) = find_last_field_by_id(old_fields, &f.id) {
                if !f.same_as(&old_fields[oi]) {
                    push_string(&mut errs, cat2("mutating an existing field is not supported. ProposedName: ", f.name.as_str()));
                }
            }
        }
        i += 1;
    }
    errs
}

/// Existing fields (matched by field id) cannot change.
pub fn validate_field_not_mutated(new_state: &DefinitionState, old_state: &DefinitionState) -> (errs: Vec<String>)
    ensures
        views(errs@) == field_not_mutated_errs(new_state.collections@, old_state.collections@, new_state.collections@.len() as int),
{
    let mut errs: Vec<String> = Vec::new();
    let mut i: usize = 0;
    while i < new_state.collections.len()
        invariant
            0 <= i <= new_state.collections.len(),
            views(errs@) == field_not_mutated_errs(new_state.collections@, old_state.collections@, i as int),
        decreases new_state.collections.len() - i,
    {
        let col = &new_state.collections[i];
        if let Some(o) = old_state.counterpart_of(col) {
            let e = field_not_mutated_for(&col.fields, &old_state.collections[o].fields);
            extend_strings(&mut errs, e);
        }
        i += 1;
    }
    errs
}

// -- policy / indexes / branchable not modified ----------------------------------------

pub open spec fn policy_not_modified_errs(new: Seq<CollectionVersion>, old: Seq<CollectionVersion>, n: int) -> Seq<Seq<char>>
    decreases n,
{
    if n <= 0 { Seq::empty() } else {
        let c = new[n - 1];
        let o = old_counterpart(old, c);
        policy_not_modified_errs(new, old, n - 1) + msg_if(o >= 0 && !old[o].is_placeholder && !policy_same(c.policy, old[o].policy),
            "collection policy cannot be mutated."@)
    }
}

/// The policy of an existing (non-placeholder) collection cannot change.
pub fn validate_policy_not_modified(new_state: &DefinitionState, old_state: &DefinitionState) -> (errs: Vec<String>)
    ensures
        views(errs@) == policy_not_modified_errs(new_state.collections@, old_state.collections@, new_state.collections@.len() as int),
{
    let mut errs: Vec<String> = Vec::new();
    let mut i: usize = 0;
    while i < new_state.collections.len()
        invariant
            0 <= i <= new_state.collections.len(),
            views(errs@) == policy_not_modified_errs(new_state.collections@, old_state.collections@, i as int),
        decreases new_state.collections.len() - i,
    {
        let col = &new_state.collections[i];
        if let Some(o) = old_state.counterpart_of(col) {
            let old_col = &old_state.collections[o];
            if !old_col.is_placeholder && !policies_equal(&col.policy, &old_col.policy) {
                push_string(&mut errs, String::from_str("collection policy cannot be mutated."));
            }
        }
        i += 1;
    }
    errs
}

pub open spec fn indexes_not_modified_errs(new: Seq<CollectionVersion>, old: Seq<CollectionVersion>, n: int) -> Seq<Seq<char>>
    decreases n,
{
    if n <= 0 { Seq::empty() } else {
        let c = new[n - 1];
        let o = old_counterpart(old, c);
        indexes_not_modified_errs(new, old, n - 1) + msg_if(o >= 0 && !old[o].is_placeholder && !indexes_same(c.indexes@, old[o].indexes@),
            "collection indexes cannot be mutated. CollectionID: "@ + c.version_id@)
    }
}

/// The indexes of an existing (non-placeholder) collection cannot change.
pub fn validate_indexes_not_modified(new_state: &DefinitionState, old_state: &DefinitionState) -> (errs: Vec<String>)
    ensures
        views(errs@) == indexes_not_modified_errs(new_state.collections@, old_state.collections@, new_state.collections@.len() as int),
{
    let mut errs: Vec<String> = Vec::new();
    let mut i: usize = 0;
    while i < new_state.collections.len()
        invariant
            0 <= i <= new_state.collections.len(),
            views(errs@) == indexes_not_modified_errs(new_state.collections@, old_state.collections@, i as int),
        decreases new_state.collections.len() - i,
    {
        let col = &new_state.collections[i];
        if let Some(o) = old_state.counterpart_of(col) {
            let old_col = &old_state.collections[o];
            if !old_col.is_placeholder && !indexes_equal(&col.indexes, &old_col.indexes) {
                push_string(&mut errs, cat2("collection indexes cannot be mutated. CollectionID: ", col.version_id.as_str()));
            }
        }
        i += 1;
    }
    errs
}

pub open spec fn branchable_errs(new: Seq<CollectionVersion>, old: Seq<CollectionVersion>, n: int) -> Seq<Seq<char>>
    decreases n,
{
    if n <= 0 { Seq::empty() } else {
        let c = new[n - 1];
        let o = old_counterpart(old, c);
        branchable_errs(new, old, n - 1) + msg_if(o >= 0 && c.is_branchable != old[o].is_branchable,
            "mutating IsBranchable is not supported. Collection: "@ + c.name@)
    }
}

/// Whether a collection is branchable cannot change.
pub fn validate_branchable_not_mutated(new_state: &DefinitionState, old_state: &DefinitionState) -> (errs: Vec<String>)
    ensures
        views(errs@) == branchable_errs(new_state.collections@, old_state.collections@, new_state.collections@.len() as int),
{
    let mut errs: Vec<String> = Vec::new();
    let mut i: usize = 0;
    while i < new_state.collections.len()
        invariant
            0 <= i <= new_state.collections.len(),
            views(errs@) == branchable_errs(new_state.collections@, old_state.collections@, i as int),
        decreases new_state.collections.len() - i,
    {
        let col = &new_state.collections[i];
        if let Some(o) = old_state.counterpart_of(col) {
            if col.is_branchable != old_state.collections[o].is_branchable {
                push_string(&mut errs, cat2("mutating IsBranchable is not supported. Collection: ", col.name.as_str()));
            }
        }
        i += 1;
    }
    errs
}

// -- sources ---------------------------------------------------------------------------

pub open spec fn sources_one(c: CollectionVersion, o: CollectionVersion) -> Seq<Seq<char>> {
    let same_version = o.version_id@ == c.version_id@;
    msg_if(same_version && (o.previous_version is Some) != (c.previous_version is Some),
        "collection sources cannot be added or removed."@)
    + msg_if(same_version && o.previous_version is Some && c.previous_version is Some
        && o.previous_version->0.source_collection_id@ != c.previous_version->0.source_collection_id@,
        "collection source ID cannot be mutated. NewSourceID: "@ + c.previous_version->0.source_collection_id@
            + ", OldSourceID: "@ + o.previous_version->0.source_collection_id@)
    + msg_if((o.query is Some) != (c.query is Some), "collection sources cannot be added or removed."@)
}

pub open spec fn sources_errs(new: Seq<CollectionVersion>, old: Seq<CollectionVersion>, n: int) -> Seq<Seq<char>>
    decreases n,
{
    if n <= 0 { Seq::empty() } else {
        let c = new[n - 1];
        let o = last_active_by_name(old, c.name@, old.len() as int);
        sources_errs(new, old, n - 1) + (if o < 0 || old[o].is_placeholder { Seq::empty() } else { sources_one(c, old[o]) })
    }
}

fn sources_for(col: &CollectionVersion, old_col: &CollectionVersion) -> (errs: Vec<String>)
    ensures
        views(errs@) == sources_one(*col, *old_col),
{
    let mut errs: Vec<String> = Vec::new();
    if old_col.version_id == col.version_id {
        if old_col.previous_version.is_some() != col.previous_version.is_some() {
            push_string(&mut errs, String::from_str("collection sources cannot be added or removed."));
        }
        if let (Some(old_prev), Some(new_prev)) = (&old_col.previous_version, &col.previous_version) {
            if old_prev.source_collection_id != new_prev.source_collection_id {
                push_string(&mut errs, cat4("collection source ID cannot be mutated. NewSourceID: ",
                    new_prev.source_collection_id.as_str(), ", OldSourceID: ", old_prev.source_collection_id.as_str()));
            }
        }
    }
    if old_col.query.is_some() != col.query.is_some() {
        push_string(&mut errs, String::from_str("collection sources cannot be added or removed."));
    }
    assert(views(errs@) =~= sources_one(*col, *old_col));
    errs
}

/// View queries and previous-version sources cannot be added, removed or redirected.
pub fn validate_sources_not_redefined(new_state: &DefinitionState, old_state: &DefinitionState) -> (errs: Vec<String>)
    ensures
        views(errs@) == sources_errs(new_state.collections@, old_state.collections@, new_state.collections@.len() as int),
{
    let mut errs: Vec<String> = Vec::new();
    let mut i: usize = 0;
    while i < new_state.collections.len()
        invariant
            0 <= i <= new_state.collections.len(),
            views(errs@) == sources_errs(new_state.collections@, old_state.collections@, i as int),
        decreases new_state.collections.len() - i,
    {
        let col = &new_state.collections[i];
        if let Some(o) = old_state.active_by_name(&col.name) {
            let old_col = &old_state.collections[o];
            if !old_col.is_placeholder {
                let e = sources_for(col, old_col);
                extend_strings(&mut errs, e);
            } else {
                assert(views(errs@) + Seq::<Seq<char>>::empty() =~= views(errs@));
            }
        } else {
            assert(views(errs@) + Seq::<Seq<char>>::empty() =~= views(errs@));
        }
        i += 1;
    }
    errs
}

pub open spec fn source_host_errs(new: Seq<CollectionVersion>, n: int) -> Seq<Seq<char>>
    decreases n,
{
    if n <= 0 { Seq::empty() } else {
        let c = new[n - 1];
        let s = if c.previous_version is Some {
            last_by_version(new, c.previous_version->0.source_collection_id@, new.len() as int)
        } else { -1 };
        source_host_errs(new, n - 1) + msg_if(c.name@.len() > 0 && c.previous_version is Some
            && c.previous_version->0.source_collection_id@.len() > 0 && s >= 0
            && new[s].collection_id@ != c.collection_id@, "collection source must belong to host collection."@)
    }
}

/// A previous-version source must be a version of the same collection
/// (versions with an empty name are skipped).
pub fn validate_source_belongs_to_host(new_state: &DefinitionState, _old_state: &DefinitionState) -> (errs: Vec<String>)
    ensures
        views(errs@) == source_host_errs(new_state.collections@, new_state.collections@.len() as int),
{
    let mut errs: Vec<String> = Vec::new();
    let mut i: usize = 0;
    while i < new_state.collections.len()
        invariant
            0 <= i <= new_state.collections.len(),
            views(errs@) == source_host_errs(new_state.collections@, i as int),
        decreases new_state.collections.len() - i,
    {
        let col = &new_state.collections[i];
        if !col.name.as_str().is_empty() {
            if let Some(prev) = &col.previous_version {
                if !prev.source_collection_id.as_str().is_empty() {
                    if let Some(s) = new_state.by_id(&prev.source_collection_id) {
                        if new_state.collections[s].collection_id != col.collection_id {
                            push_string(&mut errs, String::from_str("collection source must belong to host collection."));
                        }
                    }
                }
            }
        }
        i += 1;
    }
    errs
}

// ---------------------------------------------------------------------------
// Global validators (run on creation and on update)
// ---------------------------------------------------------------------------

/// Whether an active, named version before position `i` has the same name.
pub open spec fn name_seen_before(new: Seq<CollectionVersion>, i: int) -> bool {
    exists|j: int| 0 <= j < i && new[j].is_active && new[j].name@.len() > 0
        && #[trigger] new[j].name@ == new[i].name@
}

pub open spec fn name_unique_errs(new: Seq<CollectionVersion>, n: int) -> Seq<Seq<char>>
    decreases n,
{
    if n <= 0 { Seq::empty() } else {
        let c = new[n - 1];
        name_unique_errs(new, n - 1) + msg_if(c.is_active && c.name@.len() > 0 && name_seen_before(new, n - 1),
            "collection already exists. Name: "@ + c.name@)
    }
}

/// Active collection names are unique.
pub fn validate_collection_name_unique(new_state: &DefinitionState, _old_state: &DefinitionState) -> (errs: Vec<String>)
    ensures
        views(errs@) == name_unique_errs(new_state.collections@, new_state.collections@.len() as int),
{
    let cols = new_state.collections;
    let mut errs: Vec<String> = Vec::new();
    let mut i: usize = 0;
    while i < cols.len()
        invariant
            cols@ == new_state.collections@,
            0 <= i <= cols.len(),
            views(errs@) == name_unique_errs(cols@, i as int),
        decreases cols.len() - i,
    {
        if cols[i].is_active && !cols[i].name.as_str().is_empty() {
            let mut seen = false;
            let mut j: usize = 0;
            while j < i
                invariant
                    0 <= j <= i < cols.len(),
                    seen == exists|k: int| 0 <= k < j && cols@[k].is_active && cols@[k].name@.len() > 0
                        && #[trigger] cols@[k].name@ == cols@[i as int].name@,
                decreases i - j,
            {
                if cols[j].is_active && !cols[j].name.as_str().is_empty() && cols[j].name == cols[i].name {
                    seen = true;
                }
                j += 1;
            }
            if seen {
                push_string(&mut errs, cat2("collection already exists. Name: ", cols[i].name.as_str()));
            }
        }
        i += 1;
    }
    errs
}

pub open spec fn name_not_empty_errs(new: Seq<CollectionVersion>, n: int) -> Seq<Seq<char>>
    decreases n,
{
    if n <= 0 { Seq::empty() } else {
        let c = new[n - 1];
        name_not_empty_errs(new, n - 1) + msg_if(!(c.collection_id@ == orphan_collection_id_spec() || c.is_placeholder)
            && c.name@.len() == 0, "collection name can't be empty"@)
    }
}

/// Every collection except orphans and placeholders needs a name.
pub fn validate_collection_name_not_empty(new_state: &DefinitionState, _old_state: &DefinitionState) -> (errs: Vec<String>)
    ensures
        views(errs@) == name_not_empty_errs(new_state.collections@, new_state.collections@.len() as int),
{
    let orphan = String::from_str(orphan_collection_id());
    let mut errs: Vec<String> = Vec::new();
    let mut i: usize = 0;
    while i < new_state.collections.len()
        invariant
            orphan@ == orphan_collection_id_spec(),
            0 <= i <= new_state.collections.len(),
            views(errs@) == name_not_empty_errs(new_state.collections@, i as int),
        decreases new_state.collections.len() - i,
    {
        let col = &new_state.collections[i];
        if !(col.collection_id == orphan || col.is_placeholder) && col.name.as_str().is_empty() {
            push_string(&mut errs, String::from_str("collection name can't be empty"));
        }
        i += 1;
    }
    errs
}

/// Whether a CRDT type may be chosen for a field.
pub open spec fn crdt_supported(c: CType) -> bool {
    c == CType::Unspecified || c == CType::LwwRegister || c == CType::PnCounter || c == CType::PCounter
}

/// Whether a CRDT type may be chosen for a field: only none, LWW and the two counters.
pub fn is_crdt_type_supported(c: CType) -> (res: bool)
    ensures
        res == crdt_supported(c),
{
    match c {
        CType::Unspecified | CType::LwwRegister | CType::PnCounter | CType::PCounter => true,
        _ => false,
    }
}

pub open spec fn type_supported_field_errs(fields: Seq<FieldDescription>, n: int) -> Seq<Seq<char>>
    decreases n,
{
    if n <= 0 { Seq::empty() } else {
        let f = fields[n - 1];
        type_supported_field_errs(fields, n - 1) + msg_if(!crdt_supported(f.crdt_type),
            "CRDT type not supported. Name: "@ + f.name@ + ", CRDTType: "@ + crdt_type_name(f.crdt_type))
    }
}

pub open spec fn type_and_kind_field_errs(fields: Seq<FieldDescription>, n: int) -> Seq<Seq<char>>
    decreases n,
{
    if n <= 0 { Seq::empty() } else {
        let f = fields[n - 1];
        type_and_kind_field_errs(fields, n - 1) + msg_if(!f.crdt_type.compatible_spec(f.kind),
            "CRDT type "@ + crdt_type_name(f.crdt_type) + " can't be assigned to field kind "@ + field_kind_name(f.kind))
    }
}

/// Whether field `i` repeats the name of an earlier field.
pub open spec fn field_name_seen_before(fields: Seq<FieldDescription>, i: int) -> bool {
    exists|j: int| 0 <= j < i && #[trigger] fields[j].name@ == fields[i].name@
}

pub open spec fn duplicate_field_errs(fields: Seq<FieldDescription>, n: int) -> Seq<Seq<char>>
    decreases n,
{
    if n <= 0 { Seq::empty() } else {
        duplicate_field_errs(fields, n - 1) + msg_if(field_name_seen_before(fields, n - 1),
            "duplicate field. Name: "@ + fields[n - 1].name@)
    }
}

/// Messages of field-level checks, per collection.
pub open spec fn per_collection_errs(new: Seq<CollectionVersion>, n: int, which: FieldCheck) -> Seq<Seq<char>>
    decreases n,
{
    if n <= 0 { Seq::empty() } else {
        let fields = new[n - 1].fields@;
        per_collection_errs(new, n - 1, which) + match which {
            FieldCheck::TypeSupported => type_supported_field_errs(fields, fields.len() as int),
            FieldCheck::TypeAndKind => type_and_kind_field_errs(fields, fields.len() as int),
            FieldCheck::Duplicated => duplicate_field_errs(fields, fields.len() as int),
        }
    }
}

/// The field-level checks that look at one collection's fields alone.
#[derive(Debug)]
pub enum FieldCheck {
    TypeSupported,
    TypeAndKind,
    Duplicated,
}

fn field_check_for(fields: &Vec<FieldDescription>, which: &FieldCheck) -> (errs: Vec<String>)
    ensures
        views(errs@) == (match *which {
            FieldCheck::TypeSupported => type_supported_field_errs(fields@, fields@.len() as int),
            FieldCheck::TypeAndKind => type_and_kind_field_errs(fields@, fields@.len() as int),
            FieldCheck::Duplicated => duplicate_field_errs(fields@, fields@.len() as int),
        }),
{
    let mut errs: Vec<String> = Vec::new();
    let mut i: usize = 0;
    while i < fields.len()
        invariant
            0 <= i <= fields.len(),
            views(errs@) == (match *which {
                FieldCheck::TypeSupported => type_supported_field_errs(fields@, i as int),
                FieldCheck::TypeAndKind => type_and_kind_field_errs(fields@, i as int),
                FieldCheck::Duplicated => duplicate_field_errs(fields@, i as int),
            }),
        decreases fields.len() - i,
    {
        let f = &fields[i];
        match which {
            FieldCheck::TypeSupported => {
                if !is_crdt_type_supported(f.crdt_type) {
                    push_string(&mut errs, cat4("CRDT type not supported. Name: ", f.name.as_str(), ", CRDTType: ",
                        format_crdt_type(f.crdt_type)));
                }
            },
            FieldCheck::TypeAndKind => {
                if !f.crdt_type.is_compatible_with(&f.kind) {
                    push_string(&mut errs, cat4("CRDT type ", format_crdt_type(f.crdt_type),
                        " can't be assigned to field kind ", format_field_kind(&f.kind)));
                }
            },
            FieldCheck::Duplicated => {
                let mut seen = false;
                let mut j: usize = 0;
                while j < i
                    invariant
                        0 <= j <= i < fields.len(),
                        seen == exists|k: int| 0 <= k < j && #[trigger] fields@[k].name@ == fields@[i as int].name@,
                    decreases i - j,
                {
                    if fields[j].name == fields[i].name {
                        seen = true;
                    }
                    j += 1;
                }
                if seen {
                    push_string(&mut errs, cat2("duplicate field. Name: ", f.name.as_str()));
                }
            },
        }
        i += 1;
    }
    errs
}

fn run_field_check(new_state: &DefinitionState, which: FieldCheck) -> (errs: Vec<String>)
    ensures
        views(errs@) == per_collection_errs(new_state.collections@, new_state.collections@.len() as int, which),
{
    let mut errs: Vec<String> = Vec::new();
    let mut i: usize = 0;
    while i < new_state.collections.len()
        invariant
            0 <= i <= new_state.collections.len(),
            views(errs@) == per_collection_errs(new_state.collections@, i as int, which),
        decreases new_state.collections.len() - i,
    {
        let e = field_check_for(&new_state.collections[i].fields, &which);
        extend_strings(&mut errs, e);
        i += 1;
    }
    errs
}

/// Field CRDT types must be user-assignable types.
pub fn validate_type_supported(new_state: &DefinitionState, _old_state: &DefinitionState) -> (errs: Vec<String>)
    ensures
        views(errs@) == per_collection_errs(new_state.collections@, new_state.collections@.len() as int, FieldCheck::TypeSupported),
{
    run_field_check(new_state, FieldCheck::TypeSupported)
}

/// Field CRDT types must suit the field kinds.
pub fn validate_type_and_kind_compatible(new_state: &DefinitionState, _old_state: &DefinitionState) -> (errs: Vec<String>)
    ensures
        views(errs@) == per_collection_errs(new_state.collections@, new_state.collections@.len() as int, FieldCheck::TypeAndKind),
{
    run_field_check(new_state, FieldCheck::TypeAndKind)
}

/// Field names are unique within a collection.
pub fn validate_field_not_duplicated(new_state: &DefinitionState, _old_state: &DefinitionState) -> (errs: Vec<String>)
    ensures
        views(errs@) == per_collection_errs(new_state.collections@, new_state.collections@.len() as int, FieldCheck::Duplicated),
{
    run_field_check(new_state, FieldCheck::Duplicated)
}

pub open spec fn materialized_errs(new: Seq<CollectionVersion>, n: int) -> Seq<Seq<char>>
    decreases n,
{
    if n <= 0 { Seq::empty() } else {
        let c = new[n - 1];
        materialized_errs(new, n - 1) + msg_if(!c.is_materialized && c.query is None,
            "non-materialized collections are not supported. Collection: "@ + c.name@)
    }
}

/// Only views (collections with a query source) may be non-materialized.
pub fn validate_collection_materialized(new_state: &DefinitionState, _old_state: &DefinitionState) -> (errs: Vec<String>)
    ensures
        views(errs@) == materialized_errs(new_state.collections@, new_state.collections@.len() as int),
{
    let mut errs: Vec<String> = Vec::new();
    let mut i: usize = 0;
    while i < new_state.collections.len()
        invariant
            0 <= i <= new_state.collections.len(),
            views(errs@) == materialized_errs(new_state.collections@, i as int),
        decreases new_state.collections.len() - i,
    {
        let col = &new_state.collections[i];
        if !col.is_materialized && col.query.is_none() {
            push_string(&mut errs, cat2("non-materialized collections are not supported. Collection: ", col.name.as_str()));
        }
        i += 1;
    }
    errs
}

pub open spec fn materialized_policy_errs(new: Seq<CollectionVersion>, n: int) -> Seq<Seq<char>>
    decreases n,
{
    if n <= 0 { Seq::empty() } else {
        let c = new[n - 1];
        materialized_policy_errs(new, n - 1) + msg_if(c.is_materialized && c.policy is Some,
            "materialized views do not support ACP. Collection: "@ + c.name@)
    }
}

/// Materialized collections cannot carry an access policy.
pub fn validate_materialized_has_no_policy(new_state: &DefinitionState, _old_state: &DefinitionState) -> (errs: Vec<String>)
    ensures
        views(errs@) == materialized_policy_errs(new_state.collections@, new_state.collections@.len() as int),
{
    let mut errs: Vec<String> = Vec::new();
    let mut i: usize = 0;
    while i < new_state.collections.len()
        invariant
            0 <= i <= new_state.collections.len(),
            views(errs@) == materialized_policy_errs(new_state.collections@, i as int),
        decreases new_state.collections.len() - i,
    {
        let col = &new_state.collections[i];
        if col.is_materialized && col.policy.is_some() {
            push_string(&mut errs, cat2("materialized views do not support ACP. Collection: ", col.name.as_str()));
        }
        i += 1;
    }
    errs
}

// -- embeddings -----------------------------------------------------------------------

/// Whether a field of this kind can hold an embedding vector.
pub open spec fn embedding_kind_ok(k: FieldKind) -> bool {
    k matches FieldKind::ScalarArray(a) && (a == ScalarArrayKind::Float32Array || a == ScalarArrayKind::Float64Array)
}

/// Whether a field of this kind can hold an embedding vector (a Float32 or Float64 array).
pub fn is_valid_embedding_kind(k: &FieldKind) -> (res: bool)
    ensures
        res == embedding_kind_ok(*k),
{
    match k {
        FieldKind::ScalarArray(ScalarArrayKind::Float32Array) | FieldKind::ScalarArray(ScalarArrayKind::Float64Array) => true,
        _ => false,
    }
}

/// Whether a field of this kind can feed embedding generation.
pub open spec fn generation_kind_ok(k: FieldKind) -> bool {
    k matches FieldKind::Scalar(s) && (s == ScalarKind::String || s == ScalarKind::Int || s == ScalarKind::Float64
        || s == ScalarKind::Float32 || s == ScalarKind::Bool || s == ScalarKind::DateTime || s == ScalarKind::Blob)
}

/// Whether a field of this kind can feed embedding generation (string-like scalars).
pub fn is_valid_embedding_generation_kind(k: &FieldKind) -> (res: bool)
    ensures
        res == generation_kind_ok(*k),
{
    match k {
        FieldKind::Scalar(ScalarKind::String) | FieldKind::Scalar(ScalarKind::Int) | FieldKind::Scalar(ScalarKind::Float64)
        | FieldKind::Scalar(ScalarKind::Float32) | FieldKind::Scalar(ScalarKind::Bool)
        | FieldKind::Scalar(ScalarKind::DateTime) | FieldKind::Scalar(ScalarKind::Blob) => true,
        _ => false,
    }
}

/// The embedding providers that are known by name.
pub open spec fn known_provider(p: Seq<char>) -> bool {
    p == "openai"@ || p == "ollama"@ || p == "custom"@
}

/// Whether `provider` is a known embedding provider.
pub fn is_known_embedding_provider(provider: &str) -> (res: bool)
    ensures
        res == known_provider(provider@),
{
    let p = String::from_str(provider);
    p == String::from_str("openai") || p == String::from_str("ollama") || p == String::from_str("custom")
}

pub open spec fn embedding_kind_one(c: CollectionVersion, e: VectorEmbeddingDescription) -> Seq<Seq<char>> {
    let f = first_field_by_name(c.fields@, e.field_name@, c.fields@.len() as int);
    if e.field_name@.len() == 0 {
        seq!["embedding FieldName cannot be empty"@]
    } else if f < 0 {
        seq!["the given field does not exist. Vector field: "@ + e.field_name@]
    } else {
        msg_if(!embedding_kind_ok(c.fields@[f].kind), "invalid type for vector embedding. Actual: "@ + field_kind_name(c.fields@[f].kind))
    }
}

pub open spec fn embedding_kind_col(c: CollectionVersion, n: int) -> Seq<Seq<char>>
    decreases n,
{
    if n <= 0 { Seq::empty() } else { embedding_kind_col(c, n - 1) + embedding_kind_one(c, c.vector_embeddings@[n - 1]) }
}

pub open spec fn embedding_kind_errs(new: Seq<CollectionVersion>, n: int) -> Seq<Seq<char>>
    decreases n,
{
    if n <= 0 { Seq::empty() } else {
        embedding_kind_errs(new, n - 1) + embedding_kind_col(new[n - 1], new[n - 1].vector_embeddings@.len() as int)
    }
}

fn embedding_kind_for(c: &CollectionVersion) -> (errs: Vec<String>)
    ensures
        views(errs@) == embedding_kind_col(*c, c.vector_embeddings@.len() as int),
{
    let mut errs: Vec<String> = Vec::new();
    let mut i: usize = 0;
    while i < c.vector_embeddings.len()
        invariant
            0 <= i <= c.vector_embeddings.len(),
            views(errs@) == embedding_kind_col(*c, i as int),
        decreases c.vector_embeddings.len() - i,
    {
        let e = &c.vector_embeddings[i];
        if e.field_name.as_str().is_empty() {
            push_string(&mut errs, String::from_str("embedding FieldName cannot be empty"));
        } else {
            match find_first_field_by_name(&c.fields, &e.field_name) {
                None => {
                    push_string(&mut errs, cat2("the given field does not exist. Vector field: ", e.field_name.as_str()));
                },
                Some(f) => {
                    if !is_valid_embedding_kind(&c.fields[f].kind) {
                        push_string(&mut errs, cat2("invalid type for vector embedding. Actual: ",
                            format_field_kind(&c.fields[f].kind)));
                    } else {
                        assert(views(errs@) + Seq::<Seq<char>>::empty() =~= views(errs@));
                    }
                },
            }
        }
        i += 1;
    }
    errs
}

/// An embedding's vector field must exist and be a Float32 or Float64 array.
pub fn validate_embedding_and_kind_compatible(new_state: &DefinitionState, _old_state: &DefinitionState) -> (errs: Vec<String>)
    ensures
        views(errs@) == embedding_kind_errs(new_state.collections@, new_state.collections@.len() as int),
{
    let mut errs: Vec<String> = Vec::new();
    let mut i: usize = 0;
    while i < new_state.collections.len()
        invariant
            0 <= i <= new_state.collections.len(),
            views(errs@) == embedding_kind_errs(new_state.collections@, i as int),
        decreases new_state.collections.len() - i,
    {
        let e = embedding_kind_for(&new_state.collections[i]);
        extend_strings(&mut errs, e);
        i += 1;
    }
    errs
}

/// Whether `name` is the vector field of some embedding of `c`.
pub open spec fn is_embedding_field(c: CollectionVersion, name: Seq<char>) -> bool {
    exists|k: int| 0 <= k < c.vector_embeddings@.len() && #[trigger] c.vector_embeddings@[k].field_name@ == name
}

pub open spec fn generation_field_one(c: CollectionVersion, e: VectorEmbeddingDescription, name: Seq<char>) -> Seq<Seq<char>> {
    let self_msg = "embedding fields cannot refer to self or another embedding field. Field: "@ + name;
    let is_self = name == e.field_name@;
    let is_other = !is_self && is_embedding_field(c, name);
    let f = first_field_by_name(c.fields@, name, c.fields@.len() as int);
    if is_self {
        seq![self_msg]
    } else {
        msg_if(is_other, self_msg) + (if f < 0 {
            msg_if(!is_other, "the given field does not exist. Embedding generation field: "@ + name)
        } else {
            msg_if(!generation_kind_ok(c.fields@[f].kind),
                "invalid field type for vector embedding generation. Actual: "@ + field_kind_name(c.fields@[f].kind))
        })
    }
}

pub open spec fn generation_fields_errs(c: CollectionVersion, e: VectorEmbeddingDescription, n: int) -> Seq<Seq<char>>
    decreases n,
{
    if n <= 0 { Seq::empty() } else {
        generation_fields_errs(c, e, n - 1) + generation_field_one(c, e, e.fields@[n - 1]@)
    }
}

pub open spec fn generation_one(c: CollectionVersion, e: VectorEmbeddingDescription) -> Seq<Seq<char>> {
    if e.fields@.len() == 0 {
        seq!["embedding Fields cannot be empty"@]
    } else {
        generation_fields_errs(c, e, e.fields@.len() as int)
    }
}

pub open spec fn generation_col(c: CollectionVersion, n: int) -> Seq<Seq<char>>
    decreases n,
{
    if n <= 0 { Seq::empty() } else { generation_col(c, n - 1) + generation_one(c, c.vector_embeddings@[n - 1]) }
}

pub open spec fn generation_errs(new: Seq<CollectionVersion>, n: int) -> Seq<Seq<char>>
    decreases n,
{
    if n <= 0 { Seq::empty() } else {
        generation_errs(new, n - 1) + generation_col(new[n - 1], new[n - 1].vector_embeddings@.len() as int)
    }
}

fn embedding_field_exists(c: &CollectionVersion, name: &String) -> (res: bool)
    ensures
        res == is_embedding_field(*c, name@),
{
    let mut i: usize = 0;
    while i < c.vector_embeddings.len()
        invariant
            0 <= i <= c.vector_embeddings.len(),
            forall|k: int| 0 <= k < i ==> #[trigger] c.vector_embeddings@[k].field_name@ != name@,
        decreases c.vector_embeddings.len() - i,
    {
        if c.vector_embeddings[i].field_name == *name {
            return true;
        }
        i += 1;
    }
    false
}

fn generation_field_for(c: &CollectionVersion, e: &VectorEmbeddingDescription, name: &String) -> (errs: Vec<String>)
    ensures
        views(errs@) == generation_field_one(*c, *e, name@),
{
    let mut errs: Vec<String> = Vec::new();
    let is_self = *name == e.field_name;
    if is_self {
        push_string(&mut errs, cat2("embedding fields cannot refer to self or another embedding field. Field: ", name.as_str()));
        assert(views(errs@) =~= generation_field_one(*c, *e, name@));
        return errs;
    }
    let is_other = embedding_field_exists(c, name);
    if is_other {
        push_string(&mut errs, cat2("embedding fields cannot refer to self or another embedding field. Field: ", name.as_str()));
    }
    match find_first_field_by_name(&c.fields, name) {
        None => {
            if !is_other {
                push_string(&mut errs, cat2("the given field does not exist. Embedding generation field: ", name.as_str()));
            }
        },
        Some(f) => {
            if !is_valid_embedding_generation_kind(&c.fields[f].kind) {
                push_string(&mut errs, cat2("invalid field type for vector embedding generation. Actual: ",
                    format_field_kind(&c.fields[f].kind)));
            }
        },
    }
    assert(views(errs@) =~= generation_field_one(*c, *e, name@));
    errs
}

fn generation_for(c: &CollectionVersion) -> (errs: Vec<String>)
    ensures
        views(errs@) == generation_col(*c, c.vector_embeddings@.len() as int),
{
    let mut errs: Vec<String> = Vec::new();
    let mut i: usize = 0;
    while i < c.vector_embeddings.len()
        invariant
            0 <= i <= c.vector_embeddings.len(),
            views(errs@) == generation_col(*c, i as int),
        decreases c.vector_embeddings.len() - i,
    {
        let e = &c.vector_embeddings[i];
        if e.fields.len() == 0 {
            push_string(&mut errs, String::from_str("embedding Fields cannot be empty"));
        } else {
            let mut inner: Vec<String> = Vec::new();
            let mut k: usize = 0;
            while k < e.fields.len()
                invariant
                    0 <= k <= e.fields.len(),
                    views(inner@) == generation_fields_errs(*c, *e, k as int),
                decreases e.fields.len() - k,
            {
                let part = generation_field_for(c, e, &e.fields[k]);
                extend_strings(&mut inner, part);
                k += 1;
            }
            extend_strings(&mut errs, inner);
        }
        i += 1;
    }
    errs
}

/// The fields an embedding is generated from must exist, must not be embedding
/// vectors themselves, and must have a string-like kind.
pub fn validate_embedding_fields_for_generation(new_state: &DefinitionState, _old_state: &DefinitionState) -> (errs: Vec<String>)
    ensures
        views(errs@) == generation_errs(new_state.collections@, new_state.collections@.len() as int),
{
    let mut errs: Vec<String> = Vec::new();
    let mut i: usize = 0;
    while i < new_state.collections.len()
        invariant
            0 <= i <= new_state.collections.len(),
            views(errs@) == generation_errs(new_state.collections@, i as int),
        decreases new_state.collections.len() - i,
    {
        let e = generation_for(&new_state.collections[i]);
        extend_strings(&mut errs, e);
        i += 1;
    }
    errs
}

pub open spec fn provider_one(e: VectorEmbeddingDescription) -> Seq<Seq<char>> {
    msg_if(e.provider@.len() == 0, "embedding Provider cannot be empty"@)
    + msg_if(!known_provider(e.provider@), "unknown embedding provider. Provider: "@ + e.provider@)
    + msg_if(e.model@.len() == 0, "embedding Model cannot be empty"@)
}

pub open spec fn provider_col(c: CollectionVersion, n: int) -> Seq<Seq<char>>
    decreases n,
{
    if n <= 0 { Seq::empty() } else { provider_col(c, n - 1) + provider_one(c.vector_embeddings@[n - 1]) }
}

pub open spec fn provider_errs(new: Seq<CollectionVersion>, n: int) -> Seq<Seq<char>>
    decreases n,
{
    if n <= 0 { Seq::empty() } else {
        provider_errs(new, n - 1) + provider_col(new[n - 1], new[n - 1].vector_embeddings@.len() as int)
    }
}

/// Embeddings need a known provider and a model.
pub fn validate_embedding_provider_and_model(new_state: &DefinitionState, _old_state: &DefinitionState) -> (errs: Vec<String>)
    ensures
        views(errs@) == provider_errs(new_state.collections@, new_state.collections@.len() as int),
{
    let mut errs: Vec<String> = Vec::new();
    let mut i: usize = 0;
    while i < new_state.collections.len()
        invariant
            0 <= i <= new_state.collections.len(),
            views(errs@) == provider_errs(new_state.collections@, i as int),
        decreases new_state.collections.len() - i,
    {
        let c = &new_state.collections[i];
        let mut k: usize = 0;
        let mut inner: Vec<String> = Vec::new();
        while k < c.vector_embeddings.len()
            invariant
                0 <= k <= c.vector_embeddings.len(),
                views(inner@) == provider_col(*c, k as int),
            decreases c.vector_embeddings.len() - k,
        {
            let e = &c.vector_embeddings[k];
            let ghost before = views(inner@);
            if e.provider.as_str().is_empty() {
                push_string(&mut inner, String::from_str("embedding Provider cannot be empty"));
            }
            if !is_known_embedding_provider(e.provider.as_str()) {
                push_string(&mut inner, cat2("unknown embedding provider. Provider: ", e.provider.as_str()));
            }
            if e.model.as_str().is_empty() {
                push_string(&mut inner, String::from_str("embedding Model cannot be empty"));
            }
            assert(views(inner@) =~= before + provider_one(*e));
            k += 1;
        }
        extend_strings(&mut errs, inner);
        i += 1;
    }
    errs
}

// -- indexes over counters ----------------------------------------------------------------

pub open spec fn index_counter_fields(c: CollectionVersion, idx: int, n: int) -> Seq<Seq<char>>
    decreases n,
{
    if n <= 0 { Seq::empty() } else {
        let name = c.indexes@[idx].fields@[n - 1].name@;
        let f = first_field_by_name(c.fields@, name, c.fields@.len() as int);
        index_counter_fields(c, idx, n - 1) + msg_if(f >= 0 && c.fields@[f].crdt_type.is_counter_spec(),
            "indexing accumulated CRDT fields is not yet supported. Field: "@ + c.fields@[f].name@ + ", CRDTType: "@
                + crdt_type_name(c.fields@[f].crdt_type))
    }
}

pub open spec fn index_counter_col(c: CollectionVersion, n: int) -> Seq<Seq<char>>
    decreases n,
{
    if n <= 0 { Seq::empty() } else {
        index_counter_col(c, n - 1) + index_counter_fields(c, n - 1, c.indexes@[n - 1].fields@.len() as int)
    }
}

pub open spec fn index_counter_errs(new: Seq<CollectionVersion>, n: int) -> Seq<Seq<char>>
    decreases n,
{
    if n <= 0 { Seq::empty() } else {
        index_counter_errs(new, n - 1) + index_counter_col(new[n - 1], new[n - 1].indexes@.len() as int)
    }
}

/// Counter fields cannot be indexed.
pub fn validate_index_fields_not_counter(new_state: &DefinitionState, _old_state: &DefinitionState) -> (errs: Vec<String>)
    ensures
        views(errs@) == index_counter_errs(new_state.collections@, new_state.collections@.len() as int),
{
    let mut errs: Vec<String> = Vec::new();
    let mut i: usize = 0;
    while i < new_state.collections.len()
        invariant
            0 <= i <= new_state.collections.len(),
            views(errs@) == index_counter_errs(new_state.collections@, i as int),
        decreases new_state.collections.len() - i,
    {
        let c = &new_state.collections[i];
        let mut col_errs: Vec<String> = Vec::new();
        let mut x: usize = 0;
        while x < c.indexes.len()
            invariant
                0 <= x <= c.indexes.len(),
                views(col_errs@) == index_counter_col(*c, x as int),
            decreases c.indexes.len() - x,
        {
            let index = &c.indexes[x];
            let mut y: usize = 0;
            let mut idx_errs: Vec<String> = Vec::new();
            while y < index.fields.len()
                invariant
                    *index == c.indexes@[x as int],
                    0 <= y <= index.fields.len(),
                    views(idx_errs@) == index_counter_fields(*c, x as int, y as int),
                decreases index.fields.len() - y,
            {
                if let Some(f) = find_first_field_by_name(&c.fields, &index.fields[y].name) {
                    let field = &c.fields[f];
                    if field.crdt_type.is_counter() {
                        push_string(&mut idx_errs, cat4("indexing accumulated CRDT fields is not yet supported. Field: ",
                            field.name.as_str(), ", CRDTType: ", format_crdt_type(field.crdt_type)));
                    } else {
                        assert(views(idx_errs@) + Seq::<Seq<char>>::empty() =~= views(idx_errs@));
                    }
                } else {
                    assert(views(idx_errs@) + Seq::<Seq<char>>::empty() =~= views(idx_errs@));
                }
                y += 1;
            }
            extend_strings(&mut col_errs, idx_errs);
            x += 1;
        }
        extend_strings(&mut errs, col_errs);
        i += 1;
    }
    errs
}

// ---------------------------------------------------------------------------
// Entry points
// ---------------------------------------------------------------------------

/// Messages of the checks run on newly created collections.
pub open spec fn new_collection_errs(new: Seq<CollectionVersion>) -> Seq<Seq<char>> {
    embedding_kind_errs(new, new.len() as int) + generation_errs(new, new.len() as int)
        + provider_errs(new, new.len() as int) + index_counter_errs(new, new.len() as int)
}

/// Messages of every check run on a patch from `old` to `new`, in order.
pub open spec fn change_errs(old: Seq<CollectionVersion>, new: Seq<CollectionVersion>) -> Seq<Seq<char>> {
    let n = new.len() as int;
    not_added_errs(new, old, n) + name_not_mutated_errs(new, old, n) + collection_id_not_mutated_errs(new, old, n)
        + id_not_empty_errs(new, n) + id_unique_errs(new, n) + field_not_moved_errs(new, old, n)
        + field_not_mutated_errs(new, old, n) + policy_not_modified_errs(new, old, n)
        + indexes_not_modified_errs(new, old, n) + sources_errs(new, old, n) + source_host_errs(new, n)
        + branchable_errs(new, old, n)
        + name_unique_errs(new, n) + name_not_empty_errs(new, n)
        + per_collection_errs(new, n, FieldCheck::TypeSupported) + per_collection_errs(new, n, FieldCheck::TypeAndKind)
        + per_collection_errs(new, n, FieldCheck::Duplicated) + materialized_errs(new, n)
        + materialized_policy_errs(new, n) + embedding_kind_errs(new, n) + generation_errs(new, n)
        + provider_errs(new, n)
}

/// `Ok` when there are no messages, otherwise all messages joined by newlines.
pub open spec fn outcome(errs: Seq<Seq<char>>, res: Result<(), String>) -> bool {
    if errs.len() == 0 { res is Ok } else { res matches Err(m) && m@ == join_spec(errs, "\n"@) }
}

/// Validates the embedding and index definitions of newly created collections.
pub fn validate_new_collections(new_collections: &[CollectionVersion]) -> (res: Result<(), String>)
    ensures
        outcome(new_collection_errs(new_collections@), res),
{
    let empty: Vec<CollectionVersion> = Vec::new();
    let new_state = DefinitionState::new(new_collections);
    let old_state = DefinitionState::new(empty.as_slice());
    let mut errors: Vec<String> = Vec::new();
    extend_strings(&mut errors, validate_embedding_and_kind_compatible(&new_state, &old_state));
    extend_strings(&mut errors, validate_embedding_fields_for_generation(&new_state, &old_state));
    extend_strings(&mut errors, validate_embedding_provider_and_model(&new_state, &old_state));
    extend_strings(&mut errors, validate_index_fields_not_counter(&new_state, &old_state));
    assert(views(errors@) =~= new_collection_errs(new_collections@));
    if errors.len() == 0 {
        Ok(())
    } else {
        Err(join(&errors, "\n"))
    }
}

/// Runs every patch check comparing the old and new collection versions.
/// Messages are joined by newlines.
pub fn validate_collection_changes(old_collections: &[CollectionVersion], new_collections: &[CollectionVersion]) -> (res: Result<(), String>)
    ensures
        outcome(change_errs(old_collections@, new_collections@), res),
{
    let old_state = DefinitionState::new(old_collections);
    let new_state = DefinitionState::new(new_collections);
    let mut errors: Vec<String> = Vec::new();
    extend_strings(&mut errors, validate_collection_not_added(&new_state, &old_state));
    extend_strings(&mut errors, validate_collection_name_not_mutated(&new_state, &old_state));
    let unchanged_ids = validate_version_id_not_mutated(&new_state, &old_state);
    assert(views(unchanged_ids@) =~= Seq::<Seq<char>>::empty());
    extend_strings(&mut errors, unchanged_ids);
    extend_strings(&mut errors, validate_collection_id_not_mutated(&new_state, &old_state));
    extend_strings(&mut errors, validate_id_not_empty(&new_state, &old_state));
    extend_strings(&mut errors, validate_id_unique(&new_state, &old_state));
    extend_strings(&mut errors, validate_field_not_moved(&new_state, &old_state));
    extend_strings(&mut errors, validate_field_not_mutated(&new_state, &old_state));
    extend_strings(&mut errors, validate_policy_not_modified(&new_state, &old_state));
    extend_strings(&mut errors, validate_indexes_not_modified(&new_state, &old_state));
    extend_strings(&mut errors, validate_sources_not_redefined(&new_state, &old_state));
    extend_strings(&mut errors, validate_source_belongs_to_host(&new_state, &old_state));
    extend_strings(&mut errors, validate_branchable_not_mutated(&new_state, &old_state));
    extend_strings(&mut errors, validate_collection_name_unique(&new_state, &old_state));
    extend_strings(&mut errors, validate_collection_name_not_empty(&new_state, &old_state));
    extend_strings(&mut errors, validate_type_supported(&new_state, &old_state));
    extend_strings(&mut errors, validate_type_and_kind_compatible(&new_state, &old_state));
    extend_strings(&mut errors, validate_field_not_duplicated(&new_state, &old_state));
    extend_strings(&mut errors, validate_collection_materialized(&new_state, &old_state));
    extend_strings(&mut errors, validate_materialized_has_no_policy(&new_state, &old_state));
    extend_strings(&mut errors, validate_embedding_and_kind_compatible(&new_state, &old_state));
    extend_strings(&mut errors, validate_embedding_fields_for_generation(&new_state, &old_state));
    extend_strings(&mut errors, validate_embedding_provider_and_model(&new_state, &old_state));
    assert(views(errors@) =~= change_errs(old_collections@, new_collections@));
    if errors.len() == 0 {
        Ok(())
    } else {
        Err(join(&errors, "\n"))
    }
}


// ---------------------------------------------------------------------------
// Laws
// ---------------------------------------------------------------------------

proof fn lemma_duplicate_listed(fields: Seq<FieldDescription>, n: int, j: int)
    requires
        0 <= j < n <= fields.len(),
        field_name_seen_before(fields, j),
    ensures
        duplicate_field_errs(fields, n).contains("duplicate field. Name: "@ + fields[j].name@),
    decreases n,
{
    let m = "duplicate field. Name: "@ + fields[j].name@;
    let a = duplicate_field_errs(fields, n - 1);
    if j == n - 1 {
        assert(duplicate_field_errs(fields, n) == a + seq![m]);
        assert((a + seq![m])[a.len() as int] == m);
    } else {
        lemma_duplicate_listed(fields, n - 1, j);
        let k = choose|k: int| 0 <= k < a.len() && a[k] == m;
        assert(duplicate_field_errs(fields, n)[k] == m);
    }
}

proof fn lemma_per_collection_listed(new: Seq<CollectionVersion>, n: int, c: int, x: Seq<char>)
    requires
        0 <= c < n <= new.len(),
        duplicate_field_errs(new[c].fields@, new[c].fields@.len() as int).contains(x),
    ensures
        per_collection_errs(new, n, FieldCheck::Duplicated).contains(x),
    decreases n,
{
    let a = per_collection_errs(new, n - 1, FieldCheck::Duplicated);
    let d = duplicate_field_errs(new[n - 1].fields@, new[n - 1].fields@.len() as int);
    assert(per_collection_errs(new, n, FieldCheck::Duplicated) == a + d);
    if c == n - 1 {
        let k = choose|k: int| 0 <= k < d.len() && d[k] == x;
        assert((a + d)[a.len() + k] == x);
    } else {
        lemma_per_collection_listed(new, n - 1, c, x);
        let k = choose|k: int| 0 <= k < a.len() && a[k] == x;
        assert((a + d)[k] == x);
    }
}

proof fn lemma_join_has_part(parts: Seq<Seq<char>>, sep: Seq<char>, k: int)
    requires
        0 <= k < parts.len(),
    ensures
        has_substring(join_spec(parts, sep), parts[k]),
    decreases parts.len(),
{
    let j = join_spec(parts, sep);
    if parts.len() == 1 {
        let w: int = 0;
        assert(j.subrange(w, w + parts[k].len()) =~= parts[k]);
    } else if k == parts.len() - 1 {
        let pre = join_spec(parts.drop_last(), sep) + sep;
        assert(j == pre + parts.last());
        let w: int = pre.len() as int;
        assert(j.subrange(w, w + parts[k].len()) =~= parts[k]);
    } else {
        lemma_join_has_part(parts.drop_last(), sep, k);
        let p = join_spec(parts.drop_last(), sep);
        let q = parts[k];
        assert(parts.drop_last()[k] == q);
        let i = choose|i: int| 0 <= i && i + q.len() <= p.len() && #[trigger] p.subrange(i, i + q.len()) == q;
        assert(j == p + sep + parts.last());
        assert(j.subrange(i, i + q.len()) =~= p.subrange(i, i + q.len()));
    }
}

/// A patch in which a collection holds two fields of one name is refused,
/// and the refusal names that field: whatever the rest of the patch, the
/// message holds `duplicate field. Name: <name>`.
pub proof fn law_duplicate_field_is_refused(
    old: Seq<CollectionVersion>,
    new: Seq<CollectionVersion>,
    c: int,
    i: int,
    j: int,
    res: Result<(), String>,
)
    requires
        outcome(change_errs(old, new), res),
        0 <= c < new.len(),
        0 <= i < j < new[c].fields@.len(),
        new[c].fields@[i].name@ == new[c].fields@[j].name@,
    ensures
        res matches Err(m) && has_substring(m@, "duplicate field. Name: "@ + new[c].fields@[j].name@),
{
    let fields = new[c].fields@;
    let x = "duplicate field. Name: "@ + fields[j].name@;
    assert(field_name_seen_before(fields, j));
    lemma_duplicate_listed(fields, fields.len() as int, j);
    let n = new.len() as int;
    lemma_per_collection_listed(new, n, c, x);
    let dup = per_collection_errs(new, n, FieldCheck::Duplicated);
    let before = not_added_errs(new, old, n) + name_not_mutated_errs(new, old, n) + collection_id_not_mutated_errs(new, old, n)
        + id_not_empty_errs(new, n) + id_unique_errs(new, n) + field_not_moved_errs(new, old, n)
        + field_not_mutated_errs(new, old, n) + policy_not_modified_errs(new, old, n)
        + indexes_not_modified_errs(new, old, n) + sources_errs(new, old, n) + source_host_errs(new, n)
        + branchable_errs(new, old, n)
        + name_unique_errs(new, n) + name_not_empty_errs(new, n)
        + per_collection_errs(new, n, FieldCheck::TypeSupported) + per_collection_errs(new, n, FieldCheck::TypeAndKind);
    let after = materialized_errs(new, n) + materialized_policy_errs(new, n) + embedding_kind_errs(new, n)
        + generation_errs(new, n) + provider_errs(new, n);
    let errs = change_errs(old, new);
    assert(errs =~= before + dup + after);
    let k = choose|k: int| 0 <= k < dup.len() && dup[k] == x;
    assert((before + dup + after)[before.len() + k] == x);
    lemma_join_has_part(errs, "\n"@, before.len() + k);
}

} // verus!
