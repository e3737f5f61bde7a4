//! Analysis of the query a downsample collection reads its source from: it
//! must be a flat select of named fields from one collection.

use vstd::prelude::*;
use vstd::string::StringExecFns;
use vstd::string::StrSliceExecFns;
use crate::error::Error;
use crate::schema::{JsonValue, QuerySource};
use crate::text::{str_eq, views};

verus! {

/// Index of the last of the first `n` entries with key `key`, or -1.
pub open spec fn last_key(entries: Seq<(String, JsonValue)>, key: Seq<char>, n: int) -> int
    decreases n,
{
    if n <= 0 {
        -1
    } else if entries[n - 1].0@ == key {
        n - 1
    } else {
        last_key(entries, key, n - 1)
    }
}

proof fn lemma_last_key_range(entries: Seq<(String, JsonValue)>, key: Seq<char>, n: int)
    requires
        0 <= n,
    ensures
        -1 <= last_key(entries, key, n) < n,
        last_key(entries, key, n) >= 0 ==> entries[last_key(entries, key, n)].0@ == key,
    decreases n,
{
    if n > 0 {
        lemma_last_key_range(entries, key, n - 1);
    }
}

/// The member `key` of `v` when `v` is an object (a key given twice keeps
/// its last value, as a JSON parser filling a map does); nothing otherwise.
pub open spec fn json_get_spec(v: JsonValue, key: Seq<char>) -> Option<JsonValue> {
    match v {
        JsonValue::Object(entries) => {
            let i = last_key(entries@, key, entries@.len() as int);
            if 0 <= i < entries@.len() { Some(entries@[i].1) } else { None }
        },
        _ => None,
    }
}

/// The member `key` of `v`, as `json_get_spec` describes it.
pub fn json_get<'a>(v: &'a JsonValue, key: &str) -> (res: Option<&'a JsonValue>)
    ensures
        match res {
            Some(r) => json_get_spec(*v, key@) == Some(*r),
            None => json_get_spec(*v, key@) is None,
        },
{
    match v {
        JsonValue::Object(entries) => {
            let mut i = entries.len();
            while i > 0
                invariant
                    i <= entries.len(),
                    *v == JsonValue::Object(*entries),
                    last_key(entries@, key@, entries@.len() as int) == last_key(entries@, key@, i as int),
                decreases i,
            {
                if str_eq(entries[i - 1].0.as_str(), key) {
                    assert(last_key(entries@, key@, i as int) == i - 1);
                    let r = &entries[i - 1].1;
                    assert(*r == entries@[i - 1].1);
                    assert(json_get_spec(*v, key@) == Some(entries@[i - 1].1));
                    return Some(r);
                }
                i -= 1;
            }
            None
        },
        _ => None,
    }
}

/// The text of a string value.
pub open spec fn json_str(v: Option<JsonValue>) -> Option<Seq<char>> {
    match v {
        Some(JsonValue::Str(s)) => Some(s@),
        _ => None,
    }
}

/// Whether `key` is present in `v` with a value other than `null`.
pub open spec fn present_non_null(v: JsonValue, key: Seq<char>) -> bool {
    json_get_spec(v, key) matches Some(x) && !(x is Null)
}

/// Whether `key` is present in `v` with the value `true`.
pub open spec fn flag_set(v: JsonValue, key: Seq<char>) -> bool {
    json_get_spec(v, key) matches Some(JsonValue::Bool(b)) && b
}

/// A non-empty string member `key` of `v`.
pub open spec fn non_empty_name(v: JsonValue, key: Seq<char>) -> Option<Seq<char>> {
    match json_str(json_get_spec(v, key)) {
        Some(s) => if s.len() > 0 { Some(s) } else { None },
        None => None,
    }
}

/// Why a selected field of a source query is refused, if it is.
pub open spec fn field_refusal(f: JsonValue) -> Option<Seq<char>> {
    if json_get_spec(f, "Fields"@) is Some || json_get_spec(f, "Targets"@) is Some {
        Some("downsample source queries only support flat field selections"@)
    } else if present_non_null(f, "Alias"@) {
        Some("downsample source queries do not support field aliases"@)
    } else if non_empty_name(f, "Name"@) is None {
        Some("downsample source queries contain an unnamed field"@)
    } else {
        None
    }
}

/// The distinct names of the first `n` selected fields, in order of first
/// selection, or the refusal of the first refused field.
pub open spec fn selected_names(fields: Seq<JsonValue>, n: int) -> Result<Seq<Seq<char>>, Seq<char>>
    decreases n,
{
    if n <= 0 {
        Ok(Seq::empty())
    } else {
        match selected_names(fields, n - 1) {
            Err(e) => Err(e),
            Ok(names) => match field_refusal(fields[n - 1]) {
                Some(e) => Err(e),
                None => {
                    let name = non_empty_name(fields[n - 1], "Name"@).unwrap();
                    Ok(if names.contains(name) { names } else { names.push(name) })
                },
            },
        }
    }
}

/// Once a field is refused, later fields change nothing.
proof fn lemma_refusal_persists(fields: Seq<JsonValue>, m: int, n: int)
    requires
        0 <= m <= n,
        selected_names(fields, m) is Err,
    ensures
        selected_names(fields, n) == selected_names(fields, m),
    decreases n - m,
{
    if n > m {
        lemma_refusal_persists(fields, m, n - 1);
    }
}

/// The analysis result once the collection `name` is known and the field
/// selection has been read.
pub open spec fn selection_outcome(name: Seq<char>, sel: Result<Seq<Seq<char>>, Seq<char>>) -> Result<(Seq<char>, Seq<Seq<char>>), Seq<char>> {
    match sel {
        Err(e) => Err(e),
        Ok(names) => if names.len() == 0 {
            Err("downsample source queries must select at least one field"@)
        } else {
            Ok((name, names))
        },
    }
}

/// The analysis of a source query: the source collection's name and the
/// selected field names, or why the query is refused.
pub open spec fn source_query_outcome(q: QuerySource) -> Result<(Seq<char>, Seq<Seq<char>>), Seq<char>> {
    let v = q.query;
    if q.transform is Some {
        Err("downsample source queries do not support lens transforms"@)
    } else if present_non_null(v, "Filter"@) {
        Err("downsample source queries must be flat collection selects without Filter"@)
    } else if present_non_null(v, "Limit"@) {
        Err("downsample source queries must be flat collection selects without Limit"@)
    } else if present_non_null(v, "Offset"@) {
        Err("downsample source queries must be flat collection selects without Offset"@)
    } else if present_non_null(v, "OrderBy"@) {
        Err("downsample source queries must be flat collection selects without OrderBy"@)
    } else if present_non_null(v, "DocIDs"@) {
        Err("downsample source queries must be flat collection selects without DocIDs"@)
    } else if present_non_null(v, "CID"@) {
        Err("downsample source queries must be flat collection selects without CID"@)
    } else if present_non_null(v, "GroupBy"@) {
        Err("downsample source queries must be flat collection selects without GroupBy"@)
    } else if flag_set(v, "ShowDeleted"@) {
        Err("downsample source queries do not support ShowDeleted"@)
    } else if non_empty_name(v, "Name"@) is None {
        Err("downsample source queries must select a source collection"@)
    } else {
        match json_get_spec(v, "Fields"@) {
            Some(JsonValue::Array(fields)) => selection_outcome(
                non_empty_name(v, "Name"@).unwrap(),
                selected_names(fields@, fields@.len() as int),
            ),
            _ => Err("downsample source queries must list selected fields"@),
        }
    }
}

/// A source query that passed analysis.
#[derive(Debug)]
pub struct ParsedSourceQuery {
    pub collection_name: String,
    /// The selected field names; none occurs twice.
    pub selected_fields: Vec<String>,
}

/// Whether `res` is what analysing `q` gives.
pub open spec fn source_query_parsed(q: QuerySource, res: Result<ParsedSourceQuery, Error>) -> bool {
    match source_query_outcome(q) {
        Ok((name, fields)) => res matches Ok(p) && p.collection_name@ == name && views(p.selected_fields@) == fields,
        Err(m) => res matches Err(Error::Other(e)) && e@ == m,
    }
}

fn other(msg: &str) -> (res: Error)
    ensures
        res matches Error::Other(m) && m@ == msg@,
{
    Error::Other(String::from_str(msg))
}

fn is_present_non_null(v: &JsonValue, key: &str) -> (res: bool)
    ensures
        res == present_non_null(*v, key@),
{
    match json_get(v, key) {
        Some(x) => match x {
            JsonValue::Null => false,
            _ => true,
        },
        None => false,
    }
}

fn get_non_empty_name(v: &JsonValue, key: &str) -> (res: Option<String>)
    ensures
        match res {
            Some(s) => non_empty_name(*v, key@) == Some(s@),
            None => non_empty_name(*v, key@) is None,
        },
{
    match json_get(v, key) {
        Some(x) => match x {
            JsonValue::Str(s) => if s.as_str().unicode_len() > 0 {
                Some(s.clone())
            } else {
                None
            },
            _ => None,
        },
        None => None,
    }
}

fn contains_string(v: &Vec<String>, s: &String) -> (res: bool)
    ensures
        res == views(v@).contains(s@),
{
    let mut i: usize = 0;
    while i < v.len()
        invariant
            0 <= i <= v.len(),
            forall|k: int| 0 <= k < i ==> v@[k]@ != s@,
        decreases v.len() - i,
    {
        if str_eq(v[i].as_str(), s.as_str()) {
            assert(views(v@)[i as int] == s@);
            return true;
        }
        i += 1;
    }
    assert forall|k: int| 0 <= k < views(v@).len() implies views(v@)[k] != s@ by {
        assert(views(v@)[k] == v@[k]@);
    }
    false
}

/// Analyses the source query of a downsample collection: it must be a flat
/// select, without filters, limits, ordering, grouping, lens transforms or
/// deleted documents, of one named collection and at least one plainly
/// named field.
pub fn parse_downsample_source_query(query_source: &QuerySource) -> (res: Result<ParsedSourceQuery, Error>)
    ensures
        source_query_parsed(*query_source, res),
{
    if query_source.transform.is_some() {
        return Err(other("downsample source queries do not support lens transforms"));
    }
    let v = &query_source.query;
    if is_present_non_null(v, "Filter") {
        return Err(other("downsample source queries must be flat collection selects without Filter"));
    }
    if is_present_non_null(v, "Limit") {
        return Err(other("downsample source queries must be flat collection selects without Limit"));
    }
    if is_present_non_null(v, "Offset") {
        return Err(other("downsample source queries must be flat collection selects without Offset"));
    }
    if is_present_non_null(v, "OrderBy") {
        return Err(other("downsample source queries must be flat collection selects without OrderBy"));
    }
    if is_present_non_null(v, "DocIDs") {
        return Err(other("downsample source queries must be flat collection selects without DocIDs"));
    }
    if is_present_non_null(v, "CID") {
        return Err(other("downsample source queries must be flat collection selects without CID"));
    }
    if is_present_non_null(v, "GroupBy") {
        return Err(other("downsample source queries must be flat collection selects without GroupBy"));
    }
    let show_deleted = match json_get(v, "ShowDeleted") {
        Some(x) => match x {
            JsonValue::Bool(b) => *b,
            _ => false,
        },
        None => false,
    };
    if show_deleted {
        return Err(other("downsample source queries do not support ShowDeleted"));
    }
    let collection_name = match get_non_empty_name(v, "Name") {
        Some(n) => n,
        None => {
            return Err(other("downsample source queries must select a source collection"));
        },
    };
    let fields = match json_get(v, "Fields") {
        Some(x) => match x {
            JsonValue::Array(a) => a,
            _ => {
                return Err(other("downsample source queries must list selected fields"));
            },
        },
        None => {
            return Err(other("downsample source queries must list selected fields"));
        },
    };
    let mut selected: Vec<String> = Vec::new();
    let mut i: usize = 0;
    assert(views(selected@) =~= Seq::<Seq<char>>::empty());
    while i < fields.len()
        invariant
            0 <= i <= fields.len(),
            source_query_outcome(*query_source) == selection_outcome(
                collection_name@,
                selected_names(fields@, fields@.len() as int),
            ),
            selected_names(fields@, i as int) == Ok::<Seq<Seq<char>>, Seq<char>>(views(selected@)),
        decreases fields.len() - i,
    {
        let f = &fields[i];
        if json_get(f, "Fields").is_some() || json_get(f, "Targets").is_some() {
            proof { lemma_refusal_persists(fields@, i as int + 1, fields@.len() as int); }
            return Err(other("downsample source queries only support flat field selections"));
        }
        if is_present_non_null(f, "Alias") {
            proof { lemma_refusal_persists(fields@, i as int + 1, fields@.len() as int); }
            return Err(other("downsample source queries do not support field aliases"));
        }
        let name = match get_non_empty_name(f, "Name") {
            Some(n) => n,
            None => {
                proof { lemma_refusal_persists(fields@, i as int + 1, fields@.len() as int); }
                return Err(other("downsample source queries contain an unnamed field"));
            },
        };
        if !contains_string(&selected, &name) {
            let ghost before = selected@;
            selected.push(name);
            assert(views(selected@) =~= views(before).push(name@));
        }
        i += 1;
    }
    if selected.len() == 0 {
        return Err(other("downsample source queries must select at least one field"));
    }
    Ok(ParsedSourceQuery { collection_name, selected_fields: selected })
}

} // verus!
