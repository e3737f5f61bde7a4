//! Making one version of a collection the active one, and pointing its
//! name at that version.

use vstd::prelude::*;
use crate::error::Error;
use crate::schema::CollectionVersion;
use crate::definition_validation::{DefinitionState, last_by_version, lemma_last_by_version_range};
use crate::text::str_eq;

verus! {

/// Version `c` after version `target` (of collection `collection_id`) is
/// made active: the target becomes active, the other versions of the same
/// collection inactive, and every other version stays as it was.
pub open spec fn after_activation(c: CollectionVersion, target: Seq<char>, collection_id: Seq<char>) -> CollectionVersion {
    if c.version_id@ == target {
        CollectionVersion { is_active: true, ..c }
    } else if c.collection_id@ == collection_id {
        CollectionVersion { is_active: false, ..c }
    } else {
        c
    }
}

/// The version that name `n` points to in the name entries `names` (pairs
/// of a collection name and a version ID; a later entry of a name replaces
/// an earlier one).
pub open spec fn name_target(names: Seq<(String, String)>, n: Seq<char>) -> Option<Seq<char>>
    decreases names.len(),
{
    if names.len() == 0 {
        None
    } else if names.last().0@ == n {
        Some(names.last().1@)
    } else {
        name_target(names.drop_last(), n)
    }
}

/// The collection that a lookup by name `n` finds: the version its name
/// entry points to.
pub open spec fn lookup_by_name(catalog: Seq<CollectionVersion>, names: Seq<(String, String)>, n: Seq<char>) -> Option<CollectionVersion> {
    match name_target(names, n) {
        None => None,
        Some(v) => {
            let i = last_by_version(catalog, v, catalog.len() as int);
            if i >= 0 { Some(catalog[i]) } else { None }
        },
    }
}

/// The name entries without those of name `n`.
fn without_name(names: &Vec<(String, String)>, n: &str) -> (res: Vec<(String, String)>)
    ensures
        name_target(res@, n@) is None,
        forall|m: Seq<char>| m != n@ ==> name_target(res@, m) == name_target(names@, m),
{
    let mut out: Vec<(String, String)> = Vec::new();
    let mut i: usize = 0;
    while i < names.len()
        invariant
            0 <= i <= names@.len(),
            name_target(out@, n@) is None,
            forall|m: Seq<char>| m != n@ ==> name_target(out@, m) == name_target(names@.take(i as int), m),
        decreases names.len() - i,
    {
        let ghost before = out@;
        let ghost t1 = names@.take(i + 1);
        assert(t1.drop_last() =~= names@.take(i as int));
        assert(t1.last() == names@[i as int]);
        if !str_eq(names[i].0.as_str(), n) {
            out.push((names[i].0.clone(), names[i].1.clone()));
            assert(out@.drop_last() =~= before);
            assert(out@.last().0@ == names@[i as int].0@ && out@.last().1@ == names@[i as int].1@);
        }
        assert forall|m: Seq<char>| m != n@ implies name_target(out@, m) == name_target(t1, m) by {
            assert(name_target(before, m) == name_target(names@.take(i as int), m));
        }
        i += 1;
    }
    assert(names@.take(names@.len() as int) =~= names@);
    out
}

proof fn lemma_last_by_version_kept(cols: Seq<CollectionVersion>, target: Seq<char>, collection_id: Seq<char>, id: Seq<char>, n: int)
    requires
        0 <= n <= cols.len(),
    ensures
        last_by_version(cols.map_values(|c: CollectionVersion| after_activation(c, target, collection_id)), id, n)
            == last_by_version(cols, id, n),
    decreases n,
{
    if n > 0 {
        lemma_last_by_version_kept(cols, target, collection_id, id, n - 1);
    }
}

fn activate_one(c: CollectionVersion, target: &String, collection_id: &String) -> (res: CollectionVersion)
    ensures
        res == after_activation(c, target@, collection_id@),
{
    if c.version_id == *target {
        CollectionVersion { is_active: true, ..c }
    } else if c.collection_id == *collection_id {
        CollectionVersion { is_active: false, ..c }
    } else {
        c
    }
}

/// Makes version `version_id` the active version of its collection, and
/// every other version of that collection inactive, and points the
/// collection's name at it in the name entries `names`, so that a lookup by
/// that name finds it. Refused for an empty ID and for an ID no version has;
/// the catalog and the name entries are then unchanged.
pub fn set_active_collection_version(
    catalog: &mut Vec<CollectionVersion>,
    names: &mut Vec<(String, String)>,
    version_id: &String,
) -> (res: Result<(), Error>)
    ensures
        version_id@.len() == 0 ==> (res matches Err(Error::CollectionVersionIdEmpty) && final(catalog)@ == old(catalog)@
            && final(names)@ == old(names)@),
        version_id@.len() > 0 && last_by_version(old(catalog)@, version_id@, old(catalog)@.len() as int) < 0
            ==> (res matches Err(Error::CollectionVersionNotFound(m)) && m@ == version_id@ && final(catalog)@ == old(catalog)@
                && final(names)@ == old(names)@),
        version_id@.len() > 0 && last_by_version(old(catalog)@, version_id@, old(catalog)@.len() as int) >= 0 ==> {
            let ti = last_by_version(old(catalog)@, version_id@, old(catalog)@.len() as int);
            let t = old(catalog)@[ti];
            &&& res is Ok
            &&& final(catalog)@ == old(catalog)@.map_values(|c: CollectionVersion| after_activation(c, version_id@, t.collection_id@))
            &&& name_target(final(names)@, t.name@) == Some(version_id@)
            &&& forall|m: Seq<char>| m != t.name@ ==> name_target(final(names)@, m) == name_target(old(names)@, m)
            &&& lookup_by_name(final(catalog)@, final(names)@, t.name@) == Some(final(catalog)@[ti])
            &&& final(catalog)@[ti].version_id@ == version_id@
            &&& final(catalog)@[ti].name@ == t.name@
            &&& final(catalog)@[ti].is_active
        },
{
    if version_id.as_str().unicode_len() == 0 {
        return Err(Error::CollectionVersionIdEmpty);
    }
    let t = {
        let state = DefinitionState::new(catalog.as_slice());
        match state.by_id(version_id) {
            Some(t) => t,
            None => {
                return Err(Error::CollectionVersionNotFound(version_id.clone()));
            },
        }
    };
    let collection_id = catalog[t].collection_id.clone();
    let old_cat_name = catalog[t].name.clone();
    let ghost old_cat = catalog@;
    let ghost n = catalog@.len();
    let mut reversed: Vec<CollectionVersion> = Vec::new();
    while catalog.len() > 0
        invariant
            catalog@.len() + reversed@.len() == n,
            catalog@ == old_cat.take(catalog@.len() as int),
            n == old_cat.len(),
            forall|k: int| 0 <= k < reversed@.len() ==> #[trigger] reversed@[k]
                == after_activation(old_cat[n - 1 - k], version_id@, collection_id@),
        decreases catalog@.len(),
    {
        let ghost before = catalog@;
        let c = catalog.pop().unwrap();
        assert(c == old_cat[before.len() - 1]);
        assert(catalog@ =~= old_cat.take(catalog@.len() as int));
        reversed.push(activate_one(c, version_id, &collection_id));
    }
    while reversed.len() > 0
        invariant
            catalog@.len() + reversed@.len() == n,
            n == old_cat.len(),
            forall|k: int| 0 <= k < reversed@.len() ==> #[trigger] reversed@[k]
                == after_activation(old_cat[n - 1 - k], version_id@, collection_id@),
            forall|k: int| 0 <= k < catalog@.len() ==> #[trigger] catalog@[k]
                == after_activation(old_cat[k], version_id@, collection_id@),
        decreases reversed@.len(),
    {
        let c = reversed.pop().unwrap();
        catalog.push(c);
    }
    assert(catalog@ =~= old_cat.map_values(|c: CollectionVersion| after_activation(c, version_id@, collection_id@)));
    let mut entries = without_name(names, old_cat_name.as_str());
    let ghost filtered = entries@;
    let ghost nm = old_cat_name@;
    entries.push((old_cat_name, version_id.clone()));
    proof {
        assert(entries@.drop_last() =~= filtered);
        assert(entries@.last().0@ == nm);
        assert forall|m: Seq<char>| m != nm implies name_target(entries@, m) == name_target(old(names)@, m) by {
            assert(name_target(filtered, m) == name_target(old(names)@, m));
        }
        lemma_last_by_version_range(old_cat, version_id@, n as int);
        lemma_last_by_version_kept(old_cat, version_id@, collection_id@, version_id@, n as int);
    }
    *names = entries;
    Ok(())
}

/// After a version is made active, it is the only active version of its
/// collection.
pub proof fn law_activation_leaves_one_active_version(
    before: Seq<CollectionVersion>,
    target: Seq<char>,
    collection_id: Seq<char>,
    i: int,
)
    requires
        0 <= i < before.len(),
        before[i].collection_id@ == collection_id,
    ensures
        after_activation(before[i], target, collection_id).is_active
            <==> before[i].version_id@ == target,
{
}

} // verus!
