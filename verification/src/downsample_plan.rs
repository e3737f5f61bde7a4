//! Planning of downsample collections: which source collection a downsample
//! collection reads, at which interval, from which time field, which
//! aggregates it keeps and which fields it passes through, and the checks
//! that a definition must pass before it is planned.

use vstd::prelude::*;
use vstd::string::StringExecFns;
use vstd::seq_lib::*;
use vstd::set_lib::*;
use crate::error::Error;
use crate::schema::{CollectionVersion, FieldDescription, FieldKind, ScalarKind, kind_same};
use crate::downsample::{AggregateField, aggregate_field_name, aggregate_name, parse_positive_interval_nanos, supported_downsample_aggregate_fields};
use crate::definition_validation::{
    DefinitionState, first_field_by_name, find_first_field_by_name, last_active_by_name,
    lemma_last_active_by_name_range,
};
use crate::source_query::{ParsedSourceQuery, parse_downsample_source_query, source_query_outcome};
use crate::text::{cat2, cat3, cat4, cat5, contains_name, join, join_spec, str_eq, views};

verus! {

/// The name a scalar kind is reported under.
pub open spec fn scalar_kind_label(k: ScalarKind) -> Seq<char> {
    match k {
        ScalarKind::Unspecified => "None"@,
        ScalarKind::DocID => "DocID"@,
        ScalarKind::Bool => "Bool"@,
        ScalarKind::Int => "Int"@,
        ScalarKind::Float64 => "Float"@,
        ScalarKind::Float32 => "Float32"@,
        ScalarKind::DateTime => "DateTime"@,
        ScalarKind::String => "String"@,
        ScalarKind::Blob => "Blob"@,
        ScalarKind::Json => "JSON"@,
    }
}

/// The name a scalar kind is reported under.
pub fn scalar_kind_name(kind: ScalarKind) -> (res: &'static str)
    ensures
        res@ == scalar_kind_label(kind),
{
    match kind {
        ScalarKind::Unspecified => "None",
        ScalarKind::DocID => "DocID",
        ScalarKind::Bool => "Bool",
        ScalarKind::Int => "Int",
        ScalarKind::Float64 => "Float",
        ScalarKind::Float32 => "Float32",
        ScalarKind::DateTime => "DateTime",
        ScalarKind::String => "String",
        ScalarKind::Blob => "Blob",
        ScalarKind::Json => "JSON",
    }
}

/// The first field of `c` named `name`.
pub open spec fn field_of(c: CollectionVersion, name: Seq<char>) -> Option<FieldDescription> {
    let i = first_field_by_name(c.fields@, name, c.fields@.len() as int);
    if 0 <= i < c.fields@.len() { Some(c.fields@[i]) } else { None }
}

/// The refusal of a downsample collection that lacks field `f`.
pub open spec fn missing_field_msg(c: Seq<char>, f: Seq<char>) -> Seq<char> {
    "downsample collection '"@ + c + "' must define field '"@ + f + "'"@
}

/// Why field `f` of `c` does not have one of the `allowed` scalar kinds, if
/// it does not.
pub open spec fn kind_refusal(c: CollectionVersion, f: Seq<char>, allowed: Seq<ScalarKind>) -> Option<Seq<char>> {
    match field_of(c, f) {
        None => Some(missing_field_msg(c.name@, f)),
        Some(fd) => match fd.kind {
            FieldKind::Scalar(k) => if allowed.contains(k) {
                None
            } else {
                Some("downsample field '"@ + c.name@ + "."@ + f + "' must be "@
                    + join_spec(allowed.map_values(|a: ScalarKind| scalar_kind_label(a)), " or "@)
                    + ", found "@ + scalar_kind_label(k))
            },
            _ => Some("downsample field '"@ + c.name@ + "."@ + f + "' must be a scalar"@),
        },
    }
}

/// Why field `f` of `c` is not numeric, if it is not.
pub open spec fn numeric_refusal(c: CollectionVersion, f: Seq<char>) -> Option<Seq<char>> {
    match field_of(c, f) {
        None => Some(missing_field_msg(c.name@, f)),
        Some(fd) => if fd.kind.is_numeric_spec() {
            None
        } else {
            Some("downsample field '"@ + c.name@ + "."@ + f + "' must be numeric"@)
        },
    }
}

/// Whether `res` reports `refusal` (as `Error::Other`), or success without one.
pub open spec fn refused_as(res: Result<(), Error>, refusal: Option<Seq<char>>) -> bool {
    match refusal {
        None => res is Ok,
        Some(m) => res matches Err(Error::Other(e)) && e@ == m,
    }
}

/// The first field of `collection` named `field_name`.
pub fn lookup_field(collection: &CollectionVersion, field_name: &str) -> (res: Option<usize>)
    ensures
        match res {
            Some(i) => i < collection.fields@.len() && field_of(*collection, field_name@) == Some(collection.fields@[i as int]),
            None => field_of(*collection, field_name@) is None,
        },
{
    let name = String::from_str(field_name);
    find_first_field_by_name(&collection.fields, &name)
}

/// The refusal of a downsample collection that lacks `field_name`.
pub fn missing_field(collection: &CollectionVersion, field_name: &str) -> (res: Error)
    ensures
        res matches Error::Other(m) && m@ == missing_field_msg(collection.name@, field_name@),
{
    let head = cat3("downsample collection '", collection.name.as_str(), "' must define field '");
    Error::Other(cat3(head.as_str(), field_name, "'"))
}

/// Checks that field `field_name` of `collection` has one of the `allowed`
/// scalar kinds.
pub fn require_scalar_kind(collection: &CollectionVersion, field_name: &str, allowed: &[ScalarKind]) -> (res: Result<(), Error>)
    ensures
        refused_as(res, kind_refusal(*collection, field_name@, allowed@)),
{
    let i = match lookup_field(collection, field_name) {
        Some(i) => i,
        None => {
            return Err(missing_field(collection, field_name));
        },
    };
    let kind = match collection.fields[i].kind.as_scalar() {
        Some(k) => k,
        None => {
            let head = cat4("downsample field '", collection.name.as_str(), ".", field_name);
            return Err(Error::Other(cat2(head.as_str(), "' must be a scalar")));
        },
    };
    let mut j: usize = 0;
    while j < allowed.len()
        invariant
            0 <= j <= allowed@.len(),
            i < collection.fields@.len(),
            field_of(*collection, field_name@) == Some(collection.fields@[i as int]),
            collection.fields@[i as int].kind == FieldKind::Scalar(kind),
            forall|k: int| 0 <= k < j ==> allowed@[k] != kind,
        decreases allowed.len() - j,
    {
        if allowed[j] == kind {
            assert(allowed@.contains(kind));
            return Ok(());
        }
        j += 1;
    }
    let mut names: Vec<String> = Vec::new();
    let mut k: usize = 0;
    while k < allowed.len()
        invariant
            0 <= k <= allowed@.len(),
            views(names@) == allowed@.take(k as int).map_values(|a: ScalarKind| scalar_kind_label(a)),
        decreases allowed.len() - k,
    {
        let ghost before = names@;
        names.push(String::from_str(scalar_kind_name(allowed[k])));
        assert(views(names@) =~= allowed@.take(k + 1).map_values(|a: ScalarKind| scalar_kind_label(a))) by {
            assert(views(names@) =~= views(before).push(scalar_kind_label(allowed@[k as int])));
        }
        k += 1;
    }
    assert(allowed@.take(allowed@.len() as int) =~= allowed@);
    let expected = join(&names, " or ");
    let head = cat5("downsample field '", collection.name.as_str(), ".", field_name, "' must be ");
    let msg = cat4(head.as_str(), expected.as_str(), ", found ", scalar_kind_name(kind));
    Err(Error::Other(msg))
}

/// Checks that field `field_name` of `collection` is numeric.
pub fn require_numeric_field(collection: &CollectionVersion, field_name: &str) -> (res: Result<(), Error>)
    ensures
        refused_as(res, numeric_refusal(*collection, field_name@)),
{
    let i = match lookup_field(collection, field_name) {
        Some(i) => i,
        None => {
            return Err(missing_field(collection, field_name));
        },
    };
    if collection.fields[i].kind.is_numeric() {
        Ok(())
    } else {
        let head = cat4("downsample field '", collection.name.as_str(), ".", field_name);
        Err(Error::Other(cat2(head.as_str(), "' must be numeric")))
    }
}

// ---------------------------------------------------------------------------
// Dependency cycles
// ---------------------------------------------------------------------------

/// The collection that the name `name` resolves to in `catalog` (its last
/// active version), or -1.
pub open spec fn resolve(catalog: Seq<CollectionVersion>, name: Seq<char>) -> int {
    last_active_by_name(catalog, name, catalog.len() as int)
}

/// The walk from `current` along downsample sources, with the names already
/// visited in `seen`: reaching `target` is refused; a name seen before, an
/// unknown collection or one that is not a downsample collection ends it.
/// `fuel` bounds the walk (it never runs out when it starts above the size of
/// the catalog: see `lemma_cycle_walk_fuel`).
pub open spec fn cycle_walk(
    catalog: Seq<CollectionVersion>,
    target: Seq<char>,
    current: Seq<char>,
    seen: Seq<Seq<char>>,
    fuel: nat,
) -> Result<(), Seq<char>>
    decreases fuel,
{
    if fuel == 0 || seen.contains(current) {
        Ok(())
    } else if current == target {
        Err("downsample collection '"@ + target + "' can not depend on itself"@)
    } else {
        let i = resolve(catalog, current);
        if i < 0 || i >= catalog.len() {
            Ok(())
        } else {
            match catalog[i].downsample_source {
                None => Ok(()),
                Some(q) => match source_query_outcome(q) {
                    Err(e) => Err(e),
                    Ok((next, _)) => cycle_walk(catalog, target, next, seen.push(current), (fuel - 1) as nat),
                },
            }
        }
    }
}

/// Whether downsample collection `target`, reading from `source`, would
/// depend on itself (or the walk meets a source query that is refused).
pub open spec fn cycle_check(catalog: Seq<CollectionVersion>, target: Seq<char>, source: Seq<char>) -> Result<(), Seq<char>> {
    cycle_walk(catalog, target, source, Seq::empty(), (catalog.len() + 1) as nat)
}

/// Distinct names that all resolve in the catalog are no more numerous than
/// the catalog.
pub(crate) proof fn lemma_resolved_names_bound(catalog: Seq<CollectionVersion>, seen: Seq<Seq<char>>)
    requires
        seen.no_duplicates(),
        forall|j: int| 0 <= j < seen.len() ==> resolve(catalog, #[trigger] seen[j]) >= 0,
    ensures
        seen.len() <= catalog.len(),
{
    let names = catalog.map_values(|c: CollectionVersion| c.name@);
    assert forall|x: Seq<char>| seen.to_set().contains(x) implies names.to_set().contains(x) by {
        let j = choose|j: int| 0 <= j < seen.len() && seen[j] == x;
        lemma_last_active_by_name_range(catalog, x, catalog.len() as int);
        let i = resolve(catalog, seen[j]);
        assert(names[i] == x);
    }
    seen.unique_seq_to_set();
    names.lemma_cardinality_of_set();
    seq_to_set_is_finite(names);
    lemma_len_subset(seen.to_set(), names.to_set());
}


/// Checks that downsample collection `target_name`, reading from
/// `source_name`, does not depend on itself along the chain of sources in
/// `catalog`.
pub fn validate_downsample_cycle(catalog: &DefinitionState, target_name: &str, source_name: &str) -> (res: Result<(), Error>)
    ensures
        match cycle_check(catalog.collections@, target_name@, source_name@) {
            Ok(()) => res is Ok,
            Err(m) => res matches Err(Error::Other(e)) && e@ == m,
        },
{
    let ghost cat = catalog.collections@;
    let mut seen: Vec<String> = Vec::new();
    let mut current = String::from_str(source_name);
    assert(views(seen@) =~= Seq::<Seq<char>>::empty());
    loop
        invariant
            catalog.collections@ == cat,
            views(seen@).no_duplicates(),
            forall|j: int| 0 <= j < views(seen@).len() ==> resolve(cat, #[trigger] views(seen@)[j]) >= 0,
            seen@.len() <= cat.len(),
            cycle_check(cat, target_name@, source_name@)
                == cycle_walk(cat, target_name@, current@, views(seen@), (cat.len() + 1 - seen@.len()) as nat),
        decreases cat.len() + 1 - seen@.len(),
    {
        if contains_name(&seen, current.as_str()) {
            return Ok(());
        }
        if str_eq(current.as_str(), target_name) {
            return Err(Error::Other(cat3("downsample collection '", target_name, "' can not depend on itself")));
        }
        let i = match catalog.active_by_name(&current) {
            Some(i) => i,
            None => {
                return Ok(());
            },
        };
        let source = match &catalog.collections[i].downsample_source {
            Some(q) => q,
            None => {
                return Ok(());
            },
        };
        let parsed = match parse_downsample_source_query(source) {
            Ok(p) => p,
            Err(e) => {
                return Err(e);
            },
        };
        let ghost before = views(seen@);
        seen.push(current);
        proof {
            assert(views(seen@) =~= before.push(views(seen@).last()));
            assert forall|j: int| 0 <= j < views(seen@).len() implies resolve(cat, #[trigger] views(seen@)[j]) >= 0 by {
                if j < before.len() {
                    assert(views(seen@)[j] == before[j]);
                }
            }
            lemma_resolved_names_bound(cat, views(seen@));
        }
        current = parsed.collection_name;
    }
}


// ---------------------------------------------------------------------------
// Aggregates and passthrough fields
// ---------------------------------------------------------------------------

/// Every aggregate, in the order a plan considers them.
pub open spec fn all_aggregates() -> Seq<AggregateField> {
    seq![AggregateField::Count, AggregateField::Sum, AggregateField::Avg, AggregateField::Min, AggregateField::Max]
}

/// Why aggregate field `a` of `target` has the wrong kind, if it has.
pub open spec fn aggregate_refusal(target: CollectionVersion, a: AggregateField) -> Option<Seq<char>> {
    match a {
        AggregateField::Count => kind_refusal(target, aggregate_name(a), seq![ScalarKind::Int]),
        AggregateField::Avg => kind_refusal(target, aggregate_name(a), seq![ScalarKind::Float64, ScalarKind::Float32]),
        _ => numeric_refusal(target, aggregate_name(a)),
    }
}

/// The aggregates among the first `n` of `all_aggregates()` that `target`
/// defines, or the refusal of the first one with a wrong kind.
pub open spec fn aggregate_scan(target: CollectionVersion, n: int) -> Result<Seq<AggregateField>, Seq<char>>
    decreases n,
{
    if n <= 0 {
        Ok(Seq::empty())
    } else {
        match aggregate_scan(target, n - 1) {
            Err(e) => Err(e),
            Ok(found) => {
                let a = all_aggregates()[n - 1];
                if field_of(target, aggregate_name(a)) is None {
                    Ok(found)
                } else {
                    match aggregate_refusal(target, a) {
                        Some(e) => Err(e),
                        None => Ok(found.push(a)),
                    }
                }
            },
        }
    }
}

proof fn lemma_aggregate_scan_err(target: CollectionVersion, m: int, n: int)
    requires
        0 <= m <= n,
        aggregate_scan(target, m) is Err,
    ensures
        aggregate_scan(target, n) == aggregate_scan(target, m),
    decreases n - m,
{
    if n > m {
        lemma_aggregate_scan_err(target, m, n - 1);
    }
}

fn check_aggregate(target: &CollectionVersion, a: AggregateField) -> (res: Result<(), Error>)
    ensures
        refused_as(res, aggregate_refusal(*target, a)),
{
    let name = aggregate_field_name(a);
    match a {
        AggregateField::Count => {
            let allowed = [ScalarKind::Int];
            assert(allowed@ =~= seq![ScalarKind::Int]);
            require_scalar_kind(target, name, &allowed)
        },
        AggregateField::Avg => {
            let allowed = [ScalarKind::Float64, ScalarKind::Float32];
            assert(allowed@ =~= seq![ScalarKind::Float64, ScalarKind::Float32]);
            require_scalar_kind(target, name, &allowed)
        },
        _ => require_numeric_field(target, name),
    }
}

/// The aggregates `target` defines, in the order count, sum, avg, min, max,
/// each checked for its kind: count an Int, avg a Float or Float32, the
/// others numeric.
pub fn select_aggregate_fields(target: &CollectionVersion) -> (res: Result<Vec<AggregateField>, Error>)
    ensures
        match aggregate_scan(*target, 5) {
            Ok(found) => res matches Ok(v) && v@ == found,
            Err(m) => res matches Err(Error::Other(e)) && e@ == m,
        },
{
    let all = supported_downsample_aggregate_fields();
    let mut found: Vec<AggregateField> = Vec::new();
    let mut i: usize = 0;
    while i < 5
        invariant
            0 <= i <= 5,
            all@ == all_aggregates(),
            aggregate_scan(*target, i as int) == Ok::<Seq<AggregateField>, Seq<char>>(found@),
        decreases 5 - i,
    {
        let a = all[i];
        if lookup_field(target, aggregate_field_name(a)).is_some() {
            match check_aggregate(target, a) {
                Ok(()) => {
                    found.push(a);
                },
                Err(e) => {
                    proof { lemma_aggregate_scan_err(*target, i + 1, 5); }
                    return Err(e);
                },
            }
        }
        i += 1;
    }
    Ok(found)
}

/// Whether `name` is one of the fields every downsample collection has for
/// its own bookkeeping (and so is not passed through from the source).
pub open spec fn is_reserved_field(name: Seq<char>) -> bool {
    name == "_docID"@ || name == "source_doc_id"@ || name == "source_height"@ || name == "window_start"@
        || name == "window_end"@ || name == "count"@ || name == "sum"@ || name == "avg"@ || name == "min"@
        || name == "max"@
}

fn reserved_field(name: &str) -> (res: bool)
    ensures
        res == is_reserved_field(name@),
{
    str_eq(name, "_docID") || str_eq(name, "source_doc_id") || str_eq(name, "source_height")
        || str_eq(name, "window_start") || str_eq(name, "window_end") || str_eq(name, "count")
        || str_eq(name, "sum") || str_eq(name, "avg") || str_eq(name, "min") || str_eq(name, "max")
}

/// The names of the fields among the first `n` of `fields` that are not
/// reserved, in order.
pub open spec fn passthrough_names(fields: Seq<FieldDescription>, n: int) -> Seq<Seq<char>>
    decreases n,
{
    if n <= 0 {
        Seq::empty()
    } else if is_reserved_field(fields[n - 1].name@) {
        passthrough_names(fields, n - 1)
    } else {
        passthrough_names(fields, n - 1).push(fields[n - 1].name@)
    }
}

/// The fields of `target` that are copied from the source documents: all
/// but the reserved ones, in order.
pub fn passthrough_fields(target: &CollectionVersion) -> (res: Vec<String>)
    ensures
        views(res@) == passthrough_names(target.fields@, target.fields@.len() as int),
{
    let mut out: Vec<String> = Vec::new();
    let mut i: usize = 0;
    assert(views(out@) =~= Seq::<Seq<char>>::empty());
    while i < target.fields.len()
        invariant
            0 <= i <= target.fields@.len(),
            views(out@) == passthrough_names(target.fields@, i as int),
        decreases target.fields.len() - i,
    {
        if !reserved_field(target.fields[i].name.as_str()) {
            let ghost before = views(out@);
            out.push(target.fields[i].name.clone());
            assert(views(out@) =~= before.push(target.fields@[i as int].name@));
        }
        i += 1;
    }
    out
}

/// Why passthrough field `f` is refused, if it is.
pub open spec fn passthrough_refusal(
    target: CollectionVersion,
    source: CollectionVersion,
    selected: Seq<Seq<char>>,
    f: Seq<char>,
) -> Option<Seq<char>> {
    if !selected.contains(f) {
        Some("downsample passthrough field '"@ + target.name@ + "."@ + f + "' must be selected from '"@ + source.name@ + "'"@)
    } else {
        match field_of(source, f) {
            None => Some("downsample source collection '"@ + source.name@ + "' does not define field '"@ + f + "'"@),
            Some(sf) => match field_of(target, f) {
                None => Some("downsample collection '"@ + target.name@ + "' does not define field '"@ + f + "'"@),
                Some(tf) => if kind_same(sf.kind, tf.kind) {
                    None
                } else {
                    Some("downsample passthrough field '"@ + target.name@ + "."@ + f + "' must match the source field type"@)
                },
            },
        }
    }
}

/// The refusal of the first refused field among the first `n` of `pass`.
pub open spec fn first_passthrough_refusal(
    target: CollectionVersion,
    source: CollectionVersion,
    selected: Seq<Seq<char>>,
    pass: Seq<Seq<char>>,
    n: int,
) -> Option<Seq<char>>
    decreases n,
{
    if n <= 0 {
        None
    } else {
        match first_passthrough_refusal(target, source, selected, pass, n - 1) {
            Some(e) => Some(e),
            None => passthrough_refusal(target, source, selected, pass[n - 1]),
        }
    }
}

proof fn lemma_first_passthrough_refusal_stays(
    target: CollectionVersion,
    source: CollectionVersion,
    selected: Seq<Seq<char>>,
    pass: Seq<Seq<char>>,
    m: int,
    n: int,
)
    requires
        0 <= m <= n,
        first_passthrough_refusal(target, source, selected, pass, m) is Some,
    ensures
        first_passthrough_refusal(target, source, selected, pass, n) == first_passthrough_refusal(target, source, selected, pass, m),
    decreases n - m,
{
    if n > m {
        lemma_first_passthrough_refusal_stays(target, source, selected, pass, m, n - 1);
    }
}


fn check_passthrough_field(
    target: &CollectionVersion,
    source: &CollectionVersion,
    selected: &Vec<String>,
    f: &str,
) -> (res: Result<(), Error>)
    ensures
        refused_as(res, passthrough_refusal(*target, *source, views(selected@), f@)),
{
    if !contains_name(selected, f) {
        let head = cat5("downsample passthrough field '", target.name.as_str(), ".", f, "' must be selected from '");
        return Err(Error::Other(cat3(head.as_str(), source.name.as_str(), "'")));
    }
    let si = match lookup_field(source, f) {
        Some(i) => i,
        None => {
            let head = cat4("downsample source collection '", source.name.as_str(), "' does not define field '", f);
            return Err(Error::Other(cat2(head.as_str(), "'")));
        },
    };
    let ti = match lookup_field(target, f) {
        Some(i) => i,
        None => {
            let head = cat4("downsample collection '", target.name.as_str(), "' does not define field '", f);
            return Err(Error::Other(cat2(head.as_str(), "'")));
        },
    };
    if source.fields[si].kind.same_as(&target.fields[ti].kind) {
        Ok(())
    } else {
        let head = cat4("downsample passthrough field '", target.name.as_str(), ".", f);
        Err(Error::Other(cat2(head.as_str(), "' must match the source field type")))
    }
}

/// Checks every passthrough field: it must be selected by the source query,
/// defined by both collections, and of the same kind in both.
pub fn check_passthrough_fields(
    target: &CollectionVersion,
    source: &CollectionVersion,
    selected: &Vec<String>,
    pass: &Vec<String>,
) -> (res: Result<(), Error>)
    ensures
        refused_as(res, first_passthrough_refusal(*target, *source, views(selected@), views(pass@), pass@.len() as int)),
{
    let mut i: usize = 0;
    while i < pass.len()
        invariant
            0 <= i <= pass@.len(),
            first_passthrough_refusal(*target, *source, views(selected@), views(pass@), i as int) is None,
        decreases pass.len() - i,
    {
        let r = check_passthrough_field(target, source, selected, pass[i].as_str());
        assert(views(pass@)[i as int] == pass@[i as int]@);
        if r.is_err() {
            proof {
                lemma_first_passthrough_refusal_stays(*target, *source, views(selected@), views(pass@), i + 1, pass@.len() as int);
            }
            return r;
        }
        i += 1;
    }
    Ok(())
}


// ---------------------------------------------------------------------------
// Source kinds
// ---------------------------------------------------------------------------

/// The first of two refusals.
pub open spec fn first_of(a: Option<Seq<char>>, b: Option<Seq<char>>) -> Option<Seq<char>> {
    if a is Some { a } else { b }
}

/// A refusal that applies only when `cond` holds.
pub open spec fn when(cond: bool, r: Option<Seq<char>>) -> Option<Seq<char>> {
    if cond { r } else { None }
}

/// Why a downsample collection named `target` cannot roll up the downsample
/// collection `source`, if it cannot: the source query must select
/// `window_end`, the source must have the bookkeeping fields, and every
/// aggregate the target keeps must be readable from the source.
pub open spec fn rollup_refusal(
    target: Seq<char>,
    source: CollectionVersion,
    selected: Seq<Seq<char>>,
    aggs: Seq<AggregateField>,
) -> Option<Seq<char>> {
    if !selected.contains("window_end"@) {
        Some("downsample source query for '"@ + target
            + "' must select 'window_end' when chaining from another downsample collection"@)
    } else {
        first_of(kind_refusal(source, "source_height"@, seq![ScalarKind::Int]),
        first_of(kind_refusal(source, "window_start"@, seq![ScalarKind::DateTime]),
        first_of(kind_refusal(source, "window_end"@, seq![ScalarKind::DateTime]),
        first_of(when(aggs.contains(AggregateField::Count) || aggs.contains(AggregateField::Avg),
            kind_refusal(source, "count"@, seq![ScalarKind::Int])),
        first_of(when(aggs.contains(AggregateField::Sum) || aggs.contains(AggregateField::Avg),
            numeric_refusal(source, "sum"@)),
        first_of(when(aggs.contains(AggregateField::Min), numeric_refusal(source, "min"@)),
            when(aggs.contains(AggregateField::Max), numeric_refusal(source, "max"@))))))))
    }
}

fn agg_in(aggs: &Vec<AggregateField>, a: AggregateField) -> (res: bool)
    ensures
        res == aggs@.contains(a),
{
    let mut i: usize = 0;
    while i < aggs.len()
        invariant
            0 <= i <= aggs@.len(),
            forall|k: int| 0 <= k < i ==> aggs@[k] != a,
        decreases aggs.len() - i,
    {
        if aggs[i] == a {
            assert(aggs@[i as int] == a);
            return true;
        }
        i += 1;
    }
    false
}

fn kind_one(c: &CollectionVersion, f: &str, k: ScalarKind) -> (res: Result<(), Error>)
    ensures
        refused_as(res, kind_refusal(*c, f@, seq![k])),
{
    let allowed = [k];
    assert(allowed@ =~= seq![k]);
    require_scalar_kind(c, f, &allowed)
}

/// Checks that a downsample collection can roll up the downsample
/// collection `source` (see `rollup_refusal`).
pub fn check_rollup_source(
    target_name: &str,
    source: &CollectionVersion,
    selected: &Vec<String>,
    aggs: &Vec<AggregateField>,
) -> (res: Result<(), Error>)
    ensures
        refused_as(res, rollup_refusal(target_name@, *source, views(selected@), aggs@)),
{
    proof {
        reveal_strlit("window_end");
    }
    if !contains_name(selected, "window_end") {
        return Err(Error::Other(cat3(
            "downsample source query for '",
            target_name,
            "' must select 'window_end' when chaining from another downsample collection",
        )));
    }
    let r = kind_one(source, "source_height", ScalarKind::Int);
    if r.is_err() {
        return r;
    }
    let r = kind_one(source, "window_start", ScalarKind::DateTime);
    if r.is_err() {
        return r;
    }
    let r = kind_one(source, "window_end", ScalarKind::DateTime);
    if r.is_err() {
        return r;
    }
    if agg_in(aggs, AggregateField::Count) || agg_in(aggs, AggregateField::Avg) {
        let r = kind_one(source, "count", ScalarKind::Int);
        if r.is_err() {
            return r;
        }
    }
    if agg_in(aggs, AggregateField::Sum) || agg_in(aggs, AggregateField::Avg) {
        let r = require_numeric_field(source, "sum");
        if r.is_err() {
            return r;
        }
    }
    if agg_in(aggs, AggregateField::Min) {
        let r = require_numeric_field(source, "min");
        if r.is_err() {
            return r;
        }
    }
    if agg_in(aggs, AggregateField::Max) {
        let r = require_numeric_field(source, "max");
        if r.is_err() {
            return r;
        }
    }
    Ok(())
}

/// Whether selected field `f` can be the measure of a raw source: it is not
/// the time field, not passed through, and numeric in the source.
pub open spec fn is_measure_candidate(source: CollectionVersion, time: Seq<char>, pass: Seq<Seq<char>>, f: Seq<char>) -> bool {
    f != time && !pass.contains(f) && (field_of(source, f) matches Some(fd) && fd.kind.is_numeric_spec())
}

/// The measure candidates among the first `n` selected fields, in order.
pub open spec fn measure_candidates(
    source: CollectionVersion,
    time: Seq<char>,
    pass: Seq<Seq<char>>,
    selected: Seq<Seq<char>>,
    n: int,
) -> Seq<Seq<char>>
    decreases n,
{
    if n <= 0 {
        Seq::empty()
    } else if is_measure_candidate(source, time, pass, selected[n - 1]) {
        measure_candidates(source, time, pass, selected, n - 1).push(selected[n - 1])
    } else {
        measure_candidates(source, time, pass, selected, n - 1)
    }
}

/// The measure of a raw source: `value` when it is a candidate, else the one
/// candidate there is; refused when there is no such choice, or when the
/// choice is passed through.
pub open spec fn measure_choice(
    source: CollectionVersion,
    time: Seq<char>,
    pass: Seq<Seq<char>>,
    selected: Seq<Seq<char>>,
) -> Result<Seq<char>, Seq<char>> {
    let c = measure_candidates(source, time, pass, selected, selected.len() as int);
    let m = if c.contains("value"@) {
        Some("value"@)
    } else if c.len() == 1 {
        Some(c[0])
    } else {
        None
    };
    match m {
        None => Err("downsample source '"@ + source.name@ + "' must select exactly one numeric measure field"@),
        Some(m) => if pass.contains(m) {
            Err("downsample measure field '"@ + source.name@ + "."@ + m + "' can not also be a passthrough field"@)
        } else {
            Ok(m)
        },
    }
}

/// Picks the measure field of a raw source (see `measure_choice`).
pub fn choose_measure_field(
    source: &CollectionVersion,
    time_field: &str,
    pass: &Vec<String>,
    selected: &Vec<String>,
) -> (res: Result<String, Error>)
    ensures
        match measure_choice(*source, time_field@, views(pass@), views(selected@)) {
            Ok(m) => res matches Ok(s) && s@ == m,
            Err(m) => res matches Err(Error::Other(e)) && e@ == m,
        },
{
    let mut cands: Vec<String> = Vec::new();
    let mut i: usize = 0;
    assert(views(cands@) =~= Seq::<Seq<char>>::empty());
    while i < selected.len()
        invariant
            0 <= i <= selected@.len(),
            views(cands@) == measure_candidates(*source, time_field@, views(pass@), views(selected@), i as int),
        decreases selected.len() - i,
    {
        let f = selected[i].as_str();
        assert(views(selected@)[i as int] == f@);
        let numeric = match lookup_field(source, f) {
            Some(k) => source.fields[k].kind.is_numeric(),
            None => false,
        };
        if !str_eq(f, time_field) && !contains_name(pass, f) && numeric {
            let ghost before = views(cands@);
            cands.push(selected[i].clone());
            assert(views(cands@) =~= before.push(f@));
        }
        i += 1;
    }
    proof {
        reveal_strlit("value");
    }
    let measure: String;
    if contains_name(&cands, "value") {
        measure = String::from_str("value");
    } else if cands.len() == 1 {
        assert(views(cands@)[0] == cands@[0]@);
        measure = cands[0].clone();
    } else {
        return Err(Error::Other(cat3(
            "downsample source '",
            source.name.as_str(),
            "' must select exactly one numeric measure field",
        )));
    }
    if contains_name(pass, measure.as_str()) {
        let head = cat4("downsample measure field '", source.name.as_str(), ".", measure.as_str());
        return Err(Error::Other(cat2(head.as_str(), "' can not also be a passthrough field")));
    }
    Ok(measure)
}


// ---------------------------------------------------------------------------
// Plans
// ---------------------------------------------------------------------------

/// Where a downsample collection reads its samples from.
#[derive(Debug, PartialEq, Eq)]
pub enum SourceKind {
    /// Raw documents, whose numeric `measure_field` is aggregated.
    Raw { measure_field: String },
    /// Another downsample collection, whose aggregates are rolled up.
    Downsample,
}

/// How a downsample collection is filled.
#[derive(Debug)]
pub struct DownsamplePlan {
    /// The source collection: its index in the catalog the plan was made from.
    pub source: usize,
    pub interval_raw: String,
    pub interval_nanos: i64,
    pub time_field: String,
    pub passthrough_fields: Vec<String>,
    pub aggregate_fields: Vec<AggregateField>,
    pub source_kind: SourceKind,
}

/// Why a plan cannot be made.
pub enum PlanFailure {
    /// Reported as `Error::Other` with this message.
    Other(Seq<char>),
    /// The source collection with this name does not exist.
    NotFound(Seq<char>),
}

/// The source kind of a plan, as values.
pub enum SourceKindView {
    Raw(Seq<char>),
    Downsample,
}

/// A plan, as values.
#[verifier::ext_equal]
pub struct PlanView {
    pub source: int,
    pub interval_raw: Seq<char>,
    pub interval_nanos: i64,
    pub time_field: Seq<char>,
    pub passthrough: Seq<Seq<char>>,
    pub aggregates: Seq<AggregateField>,
    pub kind: SourceKindView,
}

/// The values a plan holds.
pub open spec fn plan_view(p: DownsamplePlan) -> PlanView {
    PlanView {
        source: p.source as int,
        interval_raw: p.interval_raw@,
        interval_nanos: p.interval_nanos,
        time_field: p.time_field@,
        passthrough: views(p.passthrough_fields@),
        aggregates: p.aggregate_fields@,
        kind: match p.source_kind {
            SourceKind::Raw { measure_field } => SourceKindView::Raw(measure_field@),
            SourceKind::Downsample => SourceKindView::Downsample,
        },
    }
}

/// The checks a plan makes once its source collection `source` (at `index`
/// in the catalog) is known, and the plan they give.
pub open spec fn source_checks(
    source: CollectionVersion,
    index: int,
    target: CollectionVersion,
    raw: Seq<char>,
    nanos: i64,
    time: Seq<char>,
    selected: Seq<Seq<char>>,
) -> Result<PlanView, PlanFailure> {
    if !selected.contains(time) {
        Err(PlanFailure::Other("downsample time field '"@ + source.name@ + "."@ + time + "' must be selected from '"@
            + source.name@ + "'"@))
    } else {
        match first_of(kind_refusal(source, time, seq![ScalarKind::DateTime]),
            first_of(kind_refusal(target, "source_doc_id"@, seq![ScalarKind::String, ScalarKind::DocID]),
            first_of(kind_refusal(target, "source_height"@, seq![ScalarKind::Int]),
            first_of(kind_refusal(target, "window_start"@, seq![ScalarKind::DateTime]),
                kind_refusal(target, "window_end"@, seq![ScalarKind::DateTime]))))) {
            Some(e) => Err(PlanFailure::Other(e)),
            None => match aggregate_scan(target, 5) {
                Err(e) => Err(PlanFailure::Other(e)),
                Ok(aggs) => if aggs.len() == 0 {
                    Err(PlanFailure::Other("downsample collection '"@ + target.name@
                        + "' must define at least one aggregate field (count, sum, avg, min, max)"@))
                } else {
                    let pass = passthrough_names(target.fields@, target.fields@.len() as int);
                    if pass.contains(time) {
                        Err(PlanFailure::Other("downsample time field '"@ + source.name@ + "."@ + time
                            + "' can not also be a passthrough field"@))
                    } else {
                        match first_passthrough_refusal(target, source, selected, pass, pass.len() as int) {
                            Some(e) => Err(PlanFailure::Other(e)),
                            None => {
                                let kind = if source.downsample_interval is Some {
                                    match rollup_refusal(target.name@, source, selected, aggs) {
                                        Some(e) => Err(e),
                                        None => Ok(SourceKindView::Downsample),
                                    }
                                } else {
                                    match measure_choice(source, time, pass, selected) {
                                        Err(e) => Err(e),
                                        Ok(m) => Ok(SourceKindView::Raw(m)),
                                    }
                                };
                                match kind {
                                    Err(e) => Err(PlanFailure::Other(e)),
                                    Ok(k) => Ok(PlanView {
                                        source: index,
                                        interval_raw: raw,
                                        interval_nanos: nanos,
                                        time_field: time,
                                        passthrough: pass,
                                        aggregates: aggs,
                                        kind: k,
                                    }),
                                }
                            },
                        }
                    }
                },
            },
        }
    }
}

/// The plan for downsample collection `target` over `catalog`, where
/// `interval` is the parse of its interval (in nanoseconds), or why there is
/// none; an interval that is not positive is refused.
pub open spec fn plan_outcome(
    catalog: Seq<CollectionVersion>,
    target: CollectionVersion,
    interval: Result<i64, String>,
) -> Result<PlanView, PlanFailure> {
    match target.downsample_interval {
        None => Err(PlanFailure::Other("collection '"@ + target.name@ + "' is not configured as a downsample collection"@)),
        Some(raw) => match interval {
            Err(e) => Err(PlanFailure::Other(e@)),
            Ok(nanos) => if nanos <= 0 {
                Err(PlanFailure::Other("downsample interval '"@ + raw@ + "' must be positive"@))
            } else { match target.downsample_time_field {
                None => Err(PlanFailure::Other("downsample collection '"@ + target.name@ + "' is missing its time field"@)),
                Some(time) => match target.downsample_source {
                    None => Err(PlanFailure::Other("downsample collection '"@ + target.name@
                        + "' is missing its source query"@)),
                    Some(q) => match source_query_outcome(q) {
                        Err(e) => Err(PlanFailure::Other(e)),
                        Ok((source_name, selected)) => match cycle_check(catalog, target.name@, source_name) {
                            Err(e) => Err(PlanFailure::Other(e)),
                            Ok(()) => {
                                let i = resolve(catalog, source_name);
                                if i < 0 || i >= catalog.len() {
                                    Err(PlanFailure::NotFound(source_name))
                                } else {
                                    source_checks(catalog[i], i, target, raw@, nanos, time@, selected)
                                }
                            },
                        },
                    },
                },
            } },
        },
    }
}

/// Whether `res` is the plan (or the failure) that `plan_outcome` describes.
pub open spec fn plan_built(
    catalog: Seq<CollectionVersion>,
    target: CollectionVersion,
    interval: Result<i64, String>,
    res: Result<DownsamplePlan, Error>,
) -> bool {
    match plan_outcome(catalog, target, interval) {
        Ok(pv) => res matches Ok(p) && plan_view(p) == pv,
        Err(PlanFailure::Other(m)) => res matches Err(Error::Other(e)) && e@ == m,
        Err(PlanFailure::NotFound(n)) => res matches Err(Error::CollectionNotFound(e)) && e@ == n,
    }
}

fn check_target_bookkeeping(source: &CollectionVersion, target: &CollectionVersion, time: &str) -> (res: Result<(), Error>)
    ensures
        refused_as(res, first_of(kind_refusal(*source, time@, seq![ScalarKind::DateTime]),
            first_of(kind_refusal(*target, "source_doc_id"@, seq![ScalarKind::String, ScalarKind::DocID]),
            first_of(kind_refusal(*target, "source_height"@, seq![ScalarKind::Int]),
            first_of(kind_refusal(*target, "window_start"@, seq![ScalarKind::DateTime]),
                kind_refusal(*target, "window_end"@, seq![ScalarKind::DateTime])))))),
{
    let r = kind_one(source, time, ScalarKind::DateTime);
    if r.is_err() {
        return r;
    }
    let ids = [ScalarKind::String, ScalarKind::DocID];
    assert(ids@ =~= seq![ScalarKind::String, ScalarKind::DocID]);
    let r = require_scalar_kind(target, "source_doc_id", &ids);
    if r.is_err() {
        return r;
    }
    let r = kind_one(target, "source_height", ScalarKind::Int);
    if r.is_err() {
        return r;
    }
    let r = kind_one(target, "window_start", ScalarKind::DateTime);
    if r.is_err() {
        return r;
    }
    kind_one(target, "window_end", ScalarKind::DateTime)
}

/// Plans downsample collection `target` over the collections of `catalog`,
/// given the parse of its interval (`interval`, the result of parsing
/// `target.downsample_interval` as a duration in nanoseconds), which must be
/// positive. The target must have an interval, a time
/// field and a source query; the source query must pass analysis, must not
/// lead back to the target, and must name an existing collection; the
/// source must provide the time field as a DateTime; the target must have
/// its bookkeeping fields and at least one aggregate, with the right kinds;
/// every passthrough field must come unchanged from the source; a rollup of
/// another downsample collection must find every aggregate it needs there,
/// and a raw source must offer exactly one measure.
pub fn build_downsample_plan(
    catalog: &DefinitionState,
    target: &CollectionVersion,
    interval: Result<i64, String>,
) -> (res: Result<DownsamplePlan, Error>)
    ensures
        plan_built(catalog.collections@, *target, interval, res),
        res matches Ok(p) ==> p.interval_nanos > 0,
{
    let interval_raw = match &target.downsample_interval {
        Some(r) => r.clone(),
        None => {
            return Err(Error::Other(cat3(
                "collection '",
                target.name.as_str(),
                "' is not configured as a downsample collection",
            )));
        },
    };
    let interval_nanos = match parse_positive_interval_nanos(interval_raw.as_str(), interval) {
        Ok(n) => n,
        Err(e) => {
            return Err(Error::Other(e));
        },
    };
    let time_field = match &target.downsample_time_field {
        Some(t) => t.clone(),
        None => {
            return Err(Error::Other(cat3(
                "downsample collection '",
                target.name.as_str(),
                "' is missing its time field",
            )));
        },
    };
    let query_source = match &target.downsample_source {
        Some(q) => q,
        None => {
            return Err(Error::Other(cat3(
                "downsample collection '",
                target.name.as_str(),
                "' is missing its source query",
            )));
        },
    };
    let parsed: ParsedSourceQuery = match parse_downsample_source_query(query_source) {
        Ok(p) => p,
        Err(e) => {
            return Err(e);
        },
    };
    match validate_downsample_cycle(catalog, target.name.as_str(), parsed.collection_name.as_str()) {
        Ok(()) => {},
        Err(e) => {
            return Err(e);
        },
    }
    let si = match catalog.active_by_name(&parsed.collection_name) {
        Some(i) => i,
        None => {
            return Err(Error::CollectionNotFound(parsed.collection_name));
        },
    };
    let source = &catalog.collections[si];
    let selected = &parsed.selected_fields;
    if !contains_name(selected, time_field.as_str()) {
        let head = cat5("downsample time field '", source.name.as_str(), ".", time_field.as_str(), "' must be selected from '");
        return Err(Error::Other(cat3(head.as_str(), source.name.as_str(), "'")));
    }
    match check_target_bookkeeping(source, target, time_field.as_str()) {
        Ok(()) => {},
        Err(e) => {
            return Err(e);
        },
    }
    let aggregate_fields = match select_aggregate_fields(target) {
        Ok(a) => a,
        Err(e) => {
            return Err(e);
        },
    };
    if aggregate_fields.len() == 0 {
        return Err(Error::Other(cat3(
            "downsample collection '",
            target.name.as_str(),
            "' must define at least one aggregate field (count, sum, avg, min, max)",
        )));
    }
    let pass = passthrough_fields(target);
    if contains_name(&pass, time_field.as_str()) {
        let head = cat4("downsample time field '", source.name.as_str(), ".", time_field.as_str());
        return Err(Error::Other(cat2(head.as_str(), "' can not also be a passthrough field")));
    }
    match check_passthrough_fields(target, source, selected, &pass) {
        Ok(()) => {},
        Err(e) => {
            return Err(e);
        },
    }
    let source_kind = if source.downsample_interval.is_some() {
        match check_rollup_source(target.name.as_str(), source, selected, &aggregate_fields) {
            Ok(()) => SourceKind::Downsample,
            Err(e) => {
                return Err(e);
            },
        }
    } else {
        match choose_measure_field(source, time_field.as_str(), &pass, selected) {
            Ok(m) => SourceKind::Raw { measure_field: m },
            Err(e) => {
                return Err(e);
            },
        }
    };
    let plan = DownsamplePlan {
        source: si,
        interval_raw,
        interval_nanos,
        time_field,
        passthrough_fields: pass,
        aggregate_fields,
        source_kind,
    };

    Ok(plan)
}


/// Whether collection `i` of the catalog is the one its name resolves to
/// (the catalog holds one current collection per name).
pub open spec fn is_current(catalog: Seq<CollectionVersion>, i: int) -> bool {
    resolve(catalog, catalog[i].name@) == i
}

/// Whether collection `c` is selected for planning: it is a downsample
/// collection, and named in `names` when there is a list of names.
pub open spec fn selected_for_planning(c: CollectionVersion, names: Option<Seq<Seq<char>>>) -> bool {
    c.downsample_interval is Some && (names matches Some(ns) ==> ns.contains(c.name@))
}

/// The plans of the first `n` current collections of the catalog that are
/// selected, reading from `source` when given, or the first failure.
pub open spec fn plans_outcome(
    catalog: Seq<CollectionVersion>,
    intervals: Seq<Result<i64, String>>,
    names: Option<Seq<Seq<char>>>,
    source: Option<Seq<char>>,
    n: int,
) -> Result<Seq<PlanView>, PlanFailure>
    decreases n,
{
    if n <= 0 {
        Ok(Seq::empty())
    } else {
        match plans_outcome(catalog, intervals, names, source, n - 1) {
            Err(e) => Err(e),
            Ok(ps) => if is_current(catalog, n - 1) && selected_for_planning(catalog[n - 1], names) {
                match plan_outcome(catalog, catalog[n - 1], intervals[n - 1]) {
                    Err(e) => Err(e),
                    Ok(p) => if source matches Some(sn) && sn != catalog[p.source].name@ {
                        Ok(ps)
                    } else {
                        Ok(ps.push(p))
                    },
                }
            } else {
                Ok(ps)
            },
        }
    }
}

proof fn lemma_plans_err(
    catalog: Seq<CollectionVersion>,
    intervals: Seq<Result<i64, String>>,
    names: Option<Seq<Seq<char>>>,
    source: Option<Seq<char>>,
    m: int,
    n: int,
)
    requires
        0 <= m <= n,
        plans_outcome(catalog, intervals, names, source, m) is Err,
    ensures
        plans_outcome(catalog, intervals, names, source, n) == plans_outcome(catalog, intervals, names, source, m),
    decreases n - m,
{
    if n > m {
        lemma_plans_err(catalog, intervals, names, source, m, n - 1);
    }
}

/// Whether `res` holds the plans (or the failure) of `outcome`.
pub open spec fn plans_built(outcome: Result<Seq<PlanView>, PlanFailure>, res: Result<Vec<DownsamplePlan>, Error>) -> bool {
    match outcome {
        Ok(ps) => res matches Ok(v) && v@.map_values(|p: DownsamplePlan| plan_view(p)) == ps,
        Err(PlanFailure::Other(m)) => res matches Err(Error::Other(e)) && e@ == m,
        Err(PlanFailure::NotFound(n)) => res matches Err(Error::CollectionNotFound(e)) && e@ == n,
    }
}

fn clone_interval(r: &Result<i64, String>) -> (res: Result<i64, String>)
    ensures
        match *r {
            Ok(n) => res == Ok::<i64, String>(n),
            Err(e) => res matches Err(f) && f@ == e@,
        },
{
    match r {
        Ok(n) => Ok(*n),
        Err(e) => Err(e.clone()),
    }
}

/// Plans every downsample collection of the catalog (restricted to `names`
/// when given), keeping the plans that read from `source_name` when given;
/// `intervals` holds the parse of each collection's interval; every plan
/// has a positive interval.
pub fn downsample_plans(
    catalog: &DefinitionState,
    intervals: &Vec<Result<i64, String>>,
    names: Option<&Vec<String>>,
    source_name: Option<&str>,
) -> (res: Result<Vec<DownsamplePlan>, Error>)
    requires
        intervals@.len() == catalog.collections@.len(),
    ensures
        plans_built(
            plans_outcome(
                catalog.collections@,
                intervals@,
                match names { Some(v) => Some(views(v@)), None => None },
                match source_name { Some(s) => Some(s@), None => None },
                catalog.collections@.len() as int,
            ),
            res,
        ),
        res matches Ok(v) ==> forall|k: int| 0 <= k < v@.len() ==> (#[trigger] v@[k]).interval_nanos > 0,
{
    let ghost cat = catalog.collections@;
    let ghost ns: Option<Seq<Seq<char>>> = match names { Some(v) => Some(views(v@)), None => None };
    let ghost src: Option<Seq<char>> = match source_name { Some(s) => Some(s@), None => None };
    let mut plans: Vec<DownsamplePlan> = Vec::new();
    let mut i: usize = 0;
    assert(plans@.map_values(|p: DownsamplePlan| plan_view(p)) =~= Seq::<PlanView>::empty());
    while i < catalog.collections.len()
        invariant
            0 <= i <= cat.len(),
            cat == catalog.collections@,
            intervals@.len() == cat.len(),
            ns == (match names { Some(v) => Some(views(v@)), None => None::<Seq<Seq<char>>> }),
            src == (match source_name { Some(s) => Some(s@), None => None::<Seq<char>> }),
            plans_outcome(cat, intervals@, ns, src, i as int) matches Ok(ps)
                && plans@.map_values(|p: DownsamplePlan| plan_view(p)) == ps,
            forall|k: int| 0 <= k < plans@.len() ==> (plans@[k].source as int) < cat.len(),
            forall|k: int| 0 <= k < plans@.len() ==> (#[trigger] plans@[k]).interval_nanos > 0,
        decreases cat.len() - i,
    {
        let c = &catalog.collections[i];
        let current = match catalog.active_by_name(&c.name) {
            Some(j) => j == i,
            None => false,
        };
        let wanted = c.downsample_interval.is_some() && match names {
            Some(v) => contains_name(v, c.name.as_str()),
            None => true,
        };
        if current && wanted {
            match build_downsample_plan(catalog, c, clone_interval(&intervals[i])) {
                Ok(p) => {
                    proof {
                        lemma_last_active_by_name_range(cat, cat[p.source as int].name@, cat.len() as int);
                    }
                    let keep = match source_name {
                        Some(sn) => str_eq(sn, catalog.collections[p.source].name.as_str()),
                        None => true,
                    };
                    if keep {
                        let ghost before = plans@.map_values(|q: DownsamplePlan| plan_view(q));
                        let ghost pv = plan_view(p);
                        plans.push(p);
                        assert(plans@.map_values(|q: DownsamplePlan| plan_view(q)) =~= before.push(pv));
                    }
                },
                Err(e) => {
                    proof {
                        lemma_plans_err(cat, intervals@, ns, src, i + 1, cat.len() as int);
                    }
                    return Err(e);
                },
            }
        }
        i += 1;
    }
    Ok(plans)
}

} // verus!
