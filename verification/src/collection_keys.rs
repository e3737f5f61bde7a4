//! Where a collection's documents live in the store, the collection short
//! IDs persisted beside them, name-to-ID resolution, placeholder versions
//! for migrations, and the immutability of fields across updates.

use vstd::prelude::*;
use vstd::string::StringExecFns;
use vstd::string::StringSliceAdditionalSpecFns;
use vstd::utf8::{decode_utf8, encode_utf8, valid_utf8, encode_utf8_decode_utf8, encode_utf8_valid_utf8};
use crate::error::Error;
use crate::outside::{cid_parses, lossy_text, parses_as_cid, utf8_lossy, utf8_text};
use crate::schema::{CollectionVersion, FieldDescription, orphan_collection_id, orphan_collection_id_spec};
use crate::collection_setup::{extract_last_path_segment_str, last_segment, parse_short_id, u32_text_value};
use crate::definition_validation::DefinitionState;
use crate::downsample_plan::resolve;
use crate::text::{cat3, chars_of, opt_view, views};

verus! {

/// `bytes` followed by the UTF-8 encoding of `s`.
fn push_text(out: &mut Vec<u8>, s: &str)
    ensures
        final(out)@ == old(out)@ + s.spec_bytes(),
{
    let b = s.as_bytes();
    let mut i: usize = 0;
    let ghost start = out@;
    while i < b.len()
        invariant
            0 <= i <= b@.len(),
            b@ == s.spec_bytes(),
            out@ == start + b@.take(i as int),
        decreases b.len() - i,
    {
        out.push(b[i]);
        assert(b@.take(i + 1) =~= b@.take(i as int).push(b@[i as int]));
        i += 1;
    }
    assert(b@.take(b@.len() as int) =~= b@);
}

/// The bytes `/d/`.
pub open spec fn doc_prefix() -> Seq<u8> {
    seq![47u8, 100u8, 47u8]
}

/// The bytes `/del/`.
pub open spec fn deleted_prefix() -> Seq<u8> {
    seq![47u8, 100u8, 101u8, 108u8, 47u8]
}

/// The key prefix under which a collection's documents are stored:
/// `/d/<collection id>/`.
pub fn collection_key_prefix(collection_id: &str) -> (res: Vec<u8>)
    ensures
        res@ == doc_prefix() + encode_utf8(collection_id@) + seq![47u8],
{
    let mut key: Vec<u8> = vec![47u8, 100u8, 47u8];
    assert(key@ =~= doc_prefix());
    push_text(&mut key, collection_id);
    key.push(47u8);
    key
}

/// The key of a document's data: `/d/<collection id>/<doc id>`.
pub fn doc_key(collection_id: &str, doc_id: &str) -> (res: Vec<u8>)
    ensures
        res@ == doc_prefix() + encode_utf8(collection_id@) + seq![47u8] + encode_utf8(doc_id@),
{
    let mut key = collection_key_prefix(collection_id);
    push_text(&mut key, doc_id);
    key
}

/// The key of a document's deletion marker: `/del/<collection id>/<doc id>`.
pub fn deleted_key(collection_id: &str, doc_id: &str) -> (res: Vec<u8>)
    ensures
        res@ == deleted_prefix() + encode_utf8(collection_id@) + seq![47u8] + encode_utf8(doc_id@),
{
    let mut key = deleted_key_prefix(collection_id);
    push_text(&mut key, doc_id);
    key
}

/// The key prefix of a collection's deletion markers: `/del/<collection id>/`.
pub fn deleted_key_prefix(collection_id: &str) -> (res: Vec<u8>)
    ensures
        res@ == deleted_prefix() + encode_utf8(collection_id@) + seq![47u8],
{
    let mut key: Vec<u8> = vec![47u8, 100u8, 101u8, 108u8, 47u8];
    assert(key@ =~= deleted_prefix());
    push_text(&mut key, collection_id);
    key.push(47u8);
    key
}

/// The key of a document's schema version: its data key followed by `/v`.
pub fn version_key(collection_id: &str, doc_id: &str) -> (res: Vec<u8>)
    ensures
        res@ == doc_prefix() + encode_utf8(collection_id@) + seq![47u8] + encode_utf8(doc_id@) + seq![47u8, 118u8],
{
    let mut key = doc_key(collection_id, doc_id);
    key.push(47u8);
    key.push(118u8);
    key
}

/// A document's data key starts with its collection's key prefix, so a
/// prefix scan of the collection finds it.
pub proof fn law_doc_key_under_prefix(collection_id: Seq<char>, doc_id: Seq<char>)
    ensures
        (doc_prefix() + encode_utf8(collection_id) + seq![47u8] + encode_utf8(doc_id)).subrange(
            0,
            (doc_prefix() + encode_utf8(collection_id) + seq![47u8]).len() as int,
        ) == doc_prefix() + encode_utf8(collection_id) + seq![47u8],
{
    let p = doc_prefix() + encode_utf8(collection_id) + seq![47u8];
    assert((p + encode_utf8(doc_id)).subrange(0, p.len() as int) =~= p);
}

/// The collection short ID persisted as decimal text, when there is one and
/// it reads as a `u32`.
pub open spec fn persisted_short_id(stored: Option<Seq<u8>>) -> Option<nat> {
    match stored {
        None => None,
        Some(b) => if valid_utf8(b) { u32_text_value(decode_utf8(b)) } else { None },
    }
}

/// Reads a persisted collection short ID (see `persisted_short_id`).
pub fn load_persisted_collection_short_id(stored: &Option<Vec<u8>>) -> (res: Option<u32>)
    ensures
        match persisted_short_id(match stored { Some(b) => Some(b@), None => None }) {
            Some(v) => res == Some(v as u32),
            None => res is None,
        },
{
    match stored {
        None => None,
        Some(b) => match utf8_text(b.as_slice()) {
            None => None,
            Some(t) => {
                proof {
                    encode_utf8_decode_utf8(t@);
                    encode_utf8_valid_utf8(t@);
                }
                parse_short_id(t.as_str())
            },
        },
    }
}

/// A persisted short ID that must exist.
pub fn require_persisted_collection_short_id(loaded: Option<u32>, collection_id: &str) -> (res: Result<u32, Error>)
    ensures
        loaded matches Some(v) ==> res == Ok::<u32, Error>(v),
        loaded is None ==> (res matches Err(Error::Other(m))
            && m@ == "missing persisted collection root_id for collection_id '"@ + collection_id@ + "'"@),
{
    match loaded {
        Some(v) => Ok(v),
        None => Err(Error::Other(cat3("missing persisted collection root_id for collection_id '", collection_id, "'"))),
    }
}

/// The names of `names` with the IDs of the collections they resolve to,
/// in order, or the first name with no collection.
pub open spec fn resolved_ids(catalog: Seq<CollectionVersion>, names: Seq<Seq<char>>, n: int) -> Result<Seq<(Seq<char>, Seq<char>)>, Seq<char>>
    decreases n,
{
    if n <= 0 {
        Ok(Seq::empty())
    } else {
        match resolved_ids(catalog, names, n - 1) {
            Err(e) => Err(e),
            Ok(v) => {
                let i = resolve(catalog, names[n - 1]);
                if 0 <= i < catalog.len() {
                    Ok(v.push((names[n - 1], catalog[i].collection_id@)))
                } else {
                    Err(names[n - 1])
                }
            },
        }
    }
}

proof fn lemma_resolved_ids_err(catalog: Seq<CollectionVersion>, names: Seq<Seq<char>>, m: int, n: int)
    requires
        0 <= m <= n,
        resolved_ids(catalog, names, m) is Err,
    ensures
        resolved_ids(catalog, names, n) == resolved_ids(catalog, names, m),
    decreases n - m,
{
    if n > m {
        lemma_resolved_ids_err(catalog, names, m, n - 1);
    }
}

/// Resolves collection names to (name, collection ID) pairs; a name with no
/// collection is reported as not found.
pub fn resolve_collection_ids(catalog: &DefinitionState, names: &Vec<String>) -> (res: Result<Vec<(String, String)>, Error>)
    ensures
        match resolved_ids(catalog.collections@, views(names@), names@.len() as int) {
            Ok(v) => res matches Ok(r) && r@.len() == v.len()
                && forall|k: int| 0 <= k < v.len() ==> (#[trigger] r@[k]).0@ == v[k].0 && r@[k].1@ == v[k].1,
            Err(n) => res matches Err(Error::CollectionNotFound(m)) && m@ == n,
        },
{
    let ghost nv = views(names@);
    let mut out: Vec<(String, String)> = Vec::new();
    let mut i: usize = 0;
    while i < names.len()
        invariant
            0 <= i <= names@.len(),
            nv == views(names@),
            resolved_ids(catalog.collections@, nv, i as int) matches Ok(v) && out@.len() == v.len()
                && forall|k: int| 0 <= k < v.len() ==> (#[trigger] out@[k]).0@ == v[k].0 && out@[k].1@ == v[k].1,
        decreases names.len() - i,
    {
        assert(nv[i as int] == names@[i as int]@);
        match catalog.active_by_name(&names[i]) {
            Some(j) => {
                out.push((names[i].clone(), catalog.collections[j].collection_id.clone()));
            },
            None => {
                proof {
                    lemma_resolved_ids_err(catalog.collections@, nv, i + 1, names@.len() as int);
                }
                return Err(Error::CollectionNotFound(names[i].clone()));
            },
        }
        i += 1;
    }
    Ok(out)
}

/// Whether `c` is the inactive, materialized placeholder version
/// `version_id` of collection `collection_id`, named `name`, with nothing
/// else defined.
pub open spec fn is_placeholder_version(c: CollectionVersion, version_id: Seq<char>, name: Seq<char>, collection_id: Seq<char>) -> bool {
    &&& c.version_id@ == version_id
    &&& c.name@ == name
    &&& c.collection_id@ == collection_id
    &&& c.is_placeholder
    &&& c.is_materialized
    &&& !c.is_active
    &&& !c.is_branchable
    &&& c.fields@.len() == 0
    &&& c.policy is None
    &&& c.indexes@.len() == 0
    &&& c.previous_version is None
    &&& c.query is None
    &&& c.vector_embeddings@.len() == 0
    &&& c.downsample_interval is None
    &&& c.downsample_time_field is None
    &&& c.downsample_source is None
}

fn placeholder(version_id: &str, name: &str, collection_id: String) -> (res: CollectionVersion)
    ensures
        is_placeholder_version(res, version_id@, name@, collection_id@),
{
    CollectionVersion {
        name: String::from_str(name),
        version_id: String::from_str(version_id),
        collection_id,
        is_active: false,
        is_placeholder: true,
        is_branchable: false,
        is_materialized: true,
        fields: Vec::new(),
        policy: None,
        indexes: Vec::new(),
        previous_version: None,
        query: None,
        vector_embeddings: Vec::new(),
        downsample_interval: None,
        downsample_time_field: None,
        downsample_source: None,
    }
}

/// The placeholder for a version that a migration references before it
/// exists; without a collection ID it belongs to the orphan collection.
pub fn create_orphan_placeholder(version_id: &str, name: &str, collection_id: &str) -> (res: CollectionVersion)
    ensures
        is_placeholder_version(
            res,
            version_id@,
            name@,
            if collection_id@.len() == 0 { orphan_collection_id_spec() } else { collection_id@ },
        ),
{
    let id = if collection_id.unicode_len() == 0 {
        String::from_str(orphan_collection_id())
    } else {
        String::from_str(collection_id)
    };
    placeholder(version_id, name, id)
}

/// The placeholder for a version that a migration derives from a known
/// source collection.
pub fn create_placeholder_with_source(version_id: &str, source_name: &str, source_collection_id: &str) -> (res: CollectionVersion)
    ensures
        is_placeholder_version(res, version_id@, source_name@, source_collection_id@),
{
    placeholder(version_id, source_name, String::from_str(source_collection_id))
}

/// The first of the first `n` immutable fields whose value changed, if any
/// (`unchanged` tells, per field, whether the update kept its value).
pub open spec fn first_changed_immutable(fields: Seq<FieldDescription>, unchanged: Seq<bool>, n: int) -> Option<int>
    decreases n,
{
    if n <= 0 {
        None
    } else {
        match first_changed_immutable(fields, unchanged, n - 1) {
            Some(k) => Some(k),
            None => if fields[n - 1].immutable && !unchanged[n - 1] { Some(n - 1) } else { None },
        }
    }
}

proof fn lemma_first_changed_stays(fields: Seq<FieldDescription>, unchanged: Seq<bool>, m: int, n: int)
    requires
        0 <= m <= n,
        first_changed_immutable(fields, unchanged, m) is Some,
    ensures
        first_changed_immutable(fields, unchanged, n) == first_changed_immutable(fields, unchanged, m),
    decreases n - m,
{
    if n > m {
        lemma_first_changed_stays(fields, unchanged, m, n - 1);
    }
}

/// Refuses an update that changes an immutable field (`unchanged` tells,
/// per field of `fields`, whether the update kept its value), naming the
/// first such field.
pub fn validate_immutable_fields_unchanged(fields: &Vec<FieldDescription>, unchanged: &Vec<bool>) -> (res: Result<(), Error>)
    requires
        unchanged@.len() == fields@.len(),
    ensures
        match first_changed_immutable(fields@, unchanged@, fields@.len() as int) {
            None => res is Ok,
            Some(k) => res matches Err(Error::InvalidDocument(m))
                && m@ == "immutable field '"@ + fields@[k].name@ + "' cannot be changed"@,
        },
{
    let mut i: usize = 0;
    while i < fields.len()
        invariant
            0 <= i <= fields@.len(),
            unchanged@.len() == fields@.len(),
            first_changed_immutable(fields@, unchanged@, i as int) is None,
        decreases fields.len() - i,
    {
        if fields[i].immutable && !unchanged[i] {
            proof {
                lemma_first_changed_stays(fields@, unchanged@, i + 1, fields@.len() as int);
            }
            return Err(Error::InvalidDocument(cat3("immutable field '", fields[i].name.as_str(), "' cannot be changed")));
        }
        i += 1;
    }
    Ok(())
}


// ---------------------------------------------------------------------------
// Clearing a collection
// ---------------------------------------------------------------------------

/// Whether `key` ends with `/v`, as the version keys of documents do.
pub open spec fn is_version_key(key: Seq<u8>) -> bool {
    key.len() >= 2 && key[key.len() - 2] == 47u8 && key[key.len() - 1] == 118u8
}

/// The position of the last `/` among the first `n` bytes of `key`, or -1.
pub open spec fn last_slash(key: Seq<u8>, n: int) -> int
    decreases n,
{
    if n <= 0 {
        -1
    } else if key[n - 1] == 47u8 {
        n - 1
    } else {
        last_slash(key, n - 1)
    }
}

/// The document a data key of a collection names: the text after the key's
/// last `/` (invalid UTF-8 replaced), unless the key is a version key, has
/// no `/`, or that text is empty.
pub open spec fn data_key_doc_id(key: Seq<u8>) -> Option<Seq<char>> {
    let p = last_slash(key, key.len() as int);
    if is_version_key(key) || p < 0 {
        None
    } else {
        let t = lossy_text(key.subrange(p + 1, key.len() as int));
        if t.len() == 0 { None } else { Some(t) }
    }
}

/// The documents named by the first `n` data keys, in order.
pub open spec fn doc_ids_of_keys(keys: Seq<Seq<u8>>, n: int) -> Seq<Seq<char>>
    decreases n,
{
    if n <= 0 {
        Seq::empty()
    } else {
        let rest = doc_ids_of_keys(keys, n - 1);
        match data_key_doc_id(keys[n - 1]) {
            Some(t) => rest.push(t),
            None => rest,
        }
    }
}

fn doc_id_of_data_key(key: &Vec<u8>) -> (res: Option<String>)
    ensures
        opt_view(res) == data_key_doc_id(key@),
{
    let n = key.len();
    if n >= 2 && key[n - 2] == 47u8 && key[n - 1] == 118u8 {
        return None;
    }
    let mut i = n;
    while i > 0 && key[i - 1] != 47u8
        invariant
            i <= n,
            n == key@.len(),
            last_slash(key@, n as int) == last_slash(key@, i as int),
        decreases i,
    {
        i -= 1;
    }
    if i == 0 {
        return None;
    }
    let mut tail: Vec<u8> = Vec::new();
    let mut j = i;
    while j < n
        invariant
            i <= j <= n,
            n == key@.len(),
            tail@ == key@.subrange(i as int, j as int),
        decreases n - j,
    {
        tail.push(key[j]);
        assert(key@.subrange(i as int, j + 1) =~= key@.subrange(i as int, j as int).push(key@[j as int]));
        j += 1;
    }
    let t = utf8_lossy(tail.as_slice());
    if chars_of(t.as_str()).len() == 0 {
        None
    } else {
        Some(t)
    }
}

/// The documents named by the data keys of a collection being cleared, in
/// the order of the keys (see `data_key_doc_id`).
pub fn doc_ids_from_data_keys(keys: &Vec<Vec<u8>>) -> (res: Vec<String>)
    ensures
        views(res@) == doc_ids_of_keys(keys@.map_values(|k: Vec<u8>| k@), keys@.len() as int),
{
    let ghost ks = keys@.map_values(|k: Vec<u8>| k@);
    let mut out: Vec<String> = Vec::new();
    let mut i: usize = 0;
    while i < keys.len()
        invariant
            0 <= i <= keys@.len(),
            ks == keys@.map_values(|k: Vec<u8>| k@),
            views(out@) == doc_ids_of_keys(ks, i as int),
        decreases keys.len() - i,
    {
        assert(ks[i as int] == keys@[i as int]@);
        match doc_id_of_data_key(&keys[i]) {
            Some(d) => {
                let ghost before = out@;
                out.push(d);
                assert(views(out@) =~= views(before).push(out@[out@.len() - 1]@));
            },
            None => {},
        }
        i += 1;
    }
    out
}

/// The block a head key names: the key's last `/`-separated segment, when
/// the key is valid UTF-8 and that segment parses as a CID.
pub open spec fn head_key_cid(key: Seq<u8>) -> Option<Seq<char>> {
    if valid_utf8(key) && parses_as_cid(last_segment(decode_utf8(key))) {
        Some(last_segment(decode_utf8(key)))
    } else {
        None
    }
}

/// The blocks named by the first `n` head keys, in order.
pub open spec fn cids_of_head_keys(keys: Seq<Seq<u8>>, n: int) -> Seq<Seq<char>>
    decreases n,
{
    if n <= 0 {
        Seq::empty()
    } else {
        let rest = cids_of_head_keys(keys, n - 1);
        match head_key_cid(keys[n - 1]) {
            Some(c) => rest.push(c),
            None => rest,
        }
    }
}

/// The blocks named by the head keys of the documents being cleared, whose
/// blocks are deleted with them (see `head_key_cid`).
pub fn head_key_cids(keys: &Vec<Vec<u8>>) -> (res: Vec<String>)
    ensures
        views(res@) == cids_of_head_keys(keys@.map_values(|k: Vec<u8>| k@), keys@.len() as int),
{
    let ghost ks = keys@.map_values(|k: Vec<u8>| k@);
    let mut out: Vec<String> = Vec::new();
    let mut i: usize = 0;
    while i < keys.len()
        invariant
            0 <= i <= keys@.len(),
            ks == keys@.map_values(|k: Vec<u8>| k@),
            views(out@) == cids_of_head_keys(ks, i as int),
        decreases keys.len() - i,
    {
        assert(ks[i as int] == keys@[i as int]@);
        match extract_last_path_segment_str(keys[i].as_slice()) {
            Some(seg) => {
                if cid_parses(seg.as_str()) {
                    let ghost before = out@;
                    out.push(seg);
                    assert(views(out@) =~= views(before).push(out@[out@.len() - 1]@));
                }
            },
            None => {},
        }
        i += 1;
    }
    out
}

} // verus!
