//! The order in which downsample collections are filled: a collection that
//! reads from another downsample collection comes after it, so each
//! collection is ordered by the depth of its chain of sources.

use vstd::prelude::*;
use vstd::string::StringExecFns;
use crate::error::Error;
use crate::definition_validation::DefinitionState;
use crate::schema::CollectionVersion;
use crate::source_query::{parse_downsample_source_query, source_query_outcome};
use crate::downsample_plan::{resolve, lemma_resolved_names_bound};
use crate::definition_validation::lemma_last_active_by_name_range;
use crate::text::{cat3, contains_name, views};

verus! {

/// The depth of the chain of downsample sources from `current`, with the
/// names already on the chain in `seen`: a collection that is unknown or
/// not a downsample collection has depth 0, one that reads from another has
/// that one's depth plus one. Meeting a name of `seen` again is a cycle; a
/// refused source query is reported as refused. `fuel` bounds the walk (it
/// never runs out when it starts above the size of the catalog).
pub open spec fn depth_walk(
    catalog: Seq<CollectionVersion>,
    current: Seq<char>,
    seen: Seq<Seq<char>>,
    fuel: nat,
) -> Result<nat, Seq<char>>
    decreases fuel,
{
    if fuel == 0 {
        Ok(0)
    } else if seen.contains(current) {
        Err("detected a downsample dependency cycle involving '"@ + current + "'"@)
    } else {
        let i = resolve(catalog, current);
        if i < 0 || i >= catalog.len() {
            Ok(0)
        } else {
            match catalog[i].downsample_source {
                None => Ok(0),
                Some(q) => match source_query_outcome(q) {
                    Err(e) => Err(e),
                    Ok((next, _)) => match depth_walk(catalog, next, seen.push(current), (fuel - 1) as nat) {
                        Ok(d) => Ok(d + 1),
                        Err(e) => Err(e),
                    },
                },
            }
        }
    }
}

/// The depth of the chain of downsample sources below collection `name`.
pub open spec fn depth_check(catalog: Seq<CollectionVersion>, name: Seq<char>) -> Result<nat, Seq<char>> {
    depth_walk(catalog, name, Seq::empty(), (catalog.len() + 1) as nat)
}

/// How many downsample collections lie below collection `collection_name`
/// along its chain of sources (0 when it is unknown or reads raw
/// documents). A chain that comes back to a collection is refused, as is a
/// source query that cannot be read.
pub fn downsample_depth(catalog: &DefinitionState, collection_name: &str) -> (res: Result<usize, Error>)
    ensures
        match depth_check(catalog.collections@, collection_name@) {
            Ok(d) => res matches Ok(r) && r as int == d,
            Err(m) => res matches Err(Error::Other(e)) && e@ == m,
        },
{
    let ghost cat = catalog.collections@;
    let mut seen: Vec<String> = Vec::new();
    let mut current = String::from_str(collection_name);
    assert(views(seen@) =~= Seq::<Seq<char>>::empty());
    loop
        invariant
            catalog.collections@ == cat,
            views(seen@).no_duplicates(),
            forall|j: int| 0 <= j < views(seen@).len() ==> resolve(cat, #[trigger] views(seen@)[j]) >= 0,
            seen@.len() <= cat.len(),
            depth_check(cat, collection_name@) == (match depth_walk(cat, current@, views(seen@), (cat.len() + 1 - seen@.len()) as nat) {
                Ok(d) => Ok(d + seen@.len()),
                Err(e) => Err(e),
            }),
        decreases cat.len() + 1 - seen@.len(),
    {
        if contains_name(&seen, current.as_str()) {
            return Err(Error::Other(cat3("detected a downsample dependency cycle involving '", current.as_str(), "'")));
        }
        let i = match catalog.active_by_name(&current) {
            Some(i) => i,
            None => {
                return Ok(seen.len());
            },
        };
        let source = match &catalog.collections[i].downsample_source {
            Some(q) => q,
            None => {
                return Ok(seen.len());
            },
        };
        let parsed = match parse_downsample_source_query(source) {
            Ok(p) => p,
            Err(e) => {
                return Err(e);
            },
        };
        let ghost before = views(seen@);
        seen.push(current);
        proof {
            assert(views(seen@) =~= before.push(views(seen@).last()));
            assert forall|j: int| 0 <= j < views(seen@).len() implies resolve(cat, #[trigger] views(seen@)[j]) >= 0 by {
                if j < before.len() {
                    assert(views(seen@)[j] == before[j]);
                }
            }
            lemma_resolved_names_bound(cat, views(seen@));
        }
        current = parsed.collection_name;
    }
}


/// The key by which collection `name` is ordered for filling: its depth,
/// or the largest `usize` when its depth cannot be found.
pub open spec fn depth_key(catalog: Seq<CollectionVersion>, name: Seq<char>) -> int {
    match depth_check(catalog, name) {
        Ok(d) => d as int,
        Err(_) => usize::MAX as int,
    }
}

/// Whether item `i` comes before item `j` when ordered by `keys`, the
/// position breaking ties.
pub open spec fn key_before(keys: Seq<usize>, i: int, j: int) -> bool {
    keys[i] < keys[j] || (keys[i] == keys[j] && i < j)
}

/// Whether item `i` comes after `last` when ordered by `keys` (every item
/// does when there is no last).
pub open spec fn after_last(keys: Seq<usize>, i: int, last: Option<usize>) -> bool {
    match last {
        None => true,
        Some(l) => key_before(keys, l as int, i),
    }
}

/// Whether position `i` appears in `s`.
pub open spec fn appears(s: Seq<usize>, i: int) -> bool {
    exists|k: int| 0 <= k < s.len() && s[k] == i
}

/// How many of the first `n` items come after `last`.
pub open spec fn count_after(keys: Seq<usize>, last: Option<usize>, n: int) -> nat
    decreases n,
{
    if n <= 0 {
        0
    } else {
        count_after(keys, last, n - 1) + if after_last(keys, n - 1, last) { 1nat } else { 0nat }
    }
}

proof fn lemma_count_after_all(keys: Seq<usize>, n: int)
    ensures
        n >= 0 ==> count_after(keys, None, n) == n,
    decreases n,
{
    if n > 0 {
        lemma_count_after_all(keys, n - 1);
    }
}

proof fn lemma_count_after_step(keys: Seq<usize>, last: Option<usize>, b: usize, n: int)
    requires
        (b as int) < keys.len(),
        n <= keys.len(),
        after_last(keys, b as int, last),
        forall|k: int| 0 <= k < keys.len() && after_last(keys, k, last) ==> k == b || key_before(keys, b as int, k),
        last matches Some(l) ==> (l as int) < keys.len(),
    ensures
        count_after(keys, Some(b), n) + (if (b as int) < n { 1int } else { 0int }) == count_after(keys, last, n),
    decreases n,
{
    if n > 0 {
        lemma_count_after_step(keys, last, b, n - 1);
    }
}

/// The positions `0..keys.len()` in ascending order of their key, positions
/// with equal keys keeping their order.
pub fn stable_order_by_key(keys: &Vec<usize>) -> (res: Vec<usize>)
    ensures
        res@.len() == keys@.len(),
        forall|k: int| 0 <= k < res@.len() ==> (#[trigger] res@[k]) < keys@.len(),
        forall|j: int, k: int| 0 <= j < k < res@.len() ==> key_before(keys@, res@[j] as int, res@[k] as int),
        forall|i: int| 0 <= i < keys@.len() ==> #[trigger] appears(res@, i),
{
    let n = keys.len();
    let mut out: Vec<usize> = Vec::new();
    let mut last: Option<usize> = None;
    proof { lemma_count_after_all(keys@, n as int); }
    loop
        invariant
            n == keys@.len(),
            forall|k: int| 0 <= k < out@.len() ==> (#[trigger] out@[k]) < n,
            forall|j: int, k: int| 0 <= j < k < out@.len() ==> key_before(keys@, out@[j] as int, out@[k] as int),
            forall|k: int| 0 <= k < out@.len() ==> !after_last(keys@, #[trigger] out@[k] as int, last),
            last is None ==> out@.len() == 0,
            last matches Some(l) ==> l < n,
            forall|i: int| 0 <= i < n && !after_last(keys@, i, last) ==> #[trigger] appears(out@, i),
            out@.len() + count_after(keys@, last, n as int) == n,
        ensures
            forall|i: int| 0 <= i < n ==> !after_last(keys@, i, last),
        decreases count_after(keys@, last, n as int),
    {
        let mut best: Option<usize> = None;
        let mut i: usize = 0;
        while i < n
            invariant
                n == keys@.len(),
                0 <= i <= n,
                last matches Some(l) ==> l < n,
                match best {
                    Some(b) => b < i && after_last(keys@, b as int, last)
                        && forall|k: int| 0 <= k < i && after_last(keys@, k, last) ==> !key_before(keys@, k, b as int),
                    None => forall|k: int| 0 <= k < i ==> !after_last(keys@, k, last),
                },
            decreases n - i,
        {
            let is_after = match last {
                None => true,
                Some(l) => keys[l] < keys[i] || (keys[l] == keys[i] && l < i),
            };
            if is_after {
                match best {
                    None => {
                        best = Some(i);
                    },
                    Some(b) => {
                        if keys[i] < keys[b] {
                            best = Some(i);
                        }
                    },
                }
            }
            i += 1;
        }
        let b = match best {
            Some(b) => b,
            None => {
                break;
            },
        };
        proof {
            assert forall|k: int| 0 <= k < keys@.len() && after_last(keys@, k, last) implies k == b || key_before(keys@, b as int, k) by {
                assert(!key_before(keys@, k, b as int));
            }
            lemma_count_after_step(keys@, last, b, n as int);
        }
        let ghost before = out@;
        out.push(b);
        proof {
            assert forall|i2: int| 0 <= i2 < n && !after_last(keys@, i2, Some(b))
                implies #[trigger] appears(out@, i2) by {
                if i2 == b as int {
                    assert(out@[out@.len() - 1] == i2);
                } else if after_last(keys@, i2, last) {
                    assert(!key_before(keys@, i2, b as int));
                } else {
                    assert(appears(before, i2));
                    let k = choose|k: int| 0 <= k < before.len() && before[k] == i2;
                    assert(out@[k] == before[k]);
                }
            }
            assert forall|k: int| 0 <= k < out@.len() implies !after_last(keys@, #[trigger] out@[k] as int, Some(b)) by {
                if k < before.len() {
                    assert(out@[k] == before[k]);
                }
            }
            assert forall|j: int, k: int| 0 <= j < k < out@.len() implies key_before(keys@, out@[j] as int, out@[k] as int) by {
                if k == out@.len() - 1 {
                    assert(out@[j] == before[j]);
                }
            }
        }
        last = Some(b);
    }
    proof {
        assert(count_after(keys@, last, n as int) == 0) by {
            lemma_count_after_zero(keys@, last, n as int);
        }
    }
    out
}

proof fn lemma_count_after_zero(keys: Seq<usize>, last: Option<usize>, n: int)
    requires
        n <= keys.len(),
        forall|i: int| 0 <= i < n ==> !after_last(keys, i, last),
    ensures
        count_after(keys, last, n) == 0,
    decreases n,
{
    if n > 0 {
        lemma_count_after_zero(keys, last, n - 1);
    }
}

/// The order in which the downsample collections named `targets` are
/// filled: by the depth of each one's chain of sources, a collection whose
/// depth cannot be found last, collections of equal depth in the given
/// order. The result lists positions in `targets`.
pub fn bootstrap_order(catalog: &DefinitionState, targets: &Vec<String>) -> (res: Vec<usize>)
    ensures
        bootstrap_ordered(catalog.collections@, targets@, res@),
{
    let mut keys: Vec<usize> = Vec::new();
    let mut i: usize = 0;
    while i < targets.len()
        invariant
            0 <= i <= targets@.len(),
            keys@.len() == i,
            forall|k: int| 0 <= k < i ==> (#[trigger] keys@[k]) as int == depth_key(catalog.collections@, targets@[k]@),
        decreases targets.len() - i,
    {
        let key = match downsample_depth(catalog, targets[i].as_str()) {
            Ok(d) => d,
            Err(_) => usize::MAX,
        };
        keys.push(key);
        i += 1;
    }
    let order = stable_order_by_key(&keys);
    proof {
        assert forall|j: int, k: int| #![trigger order@[j], order@[k]] 0 <= j < k < order@.len() implies ({
            let a = depth_key(catalog.collections@, targets@[order@[j] as int]@);
            let b = depth_key(catalog.collections@, targets@[order@[k] as int]@);
            a < b || (a == b && order@[j] < order@[k])
        }) by {
            assert(key_before(keys@, order@[j] as int, order@[k] as int));
            assert(keys@[order@[j] as int] as int == depth_key(catalog.collections@, targets@[order@[j] as int]@));
            assert(keys@[order@[k] as int] as int == depth_key(catalog.collections@, targets@[order@[k] as int]@));
        }
    }
    order
}


/// The name of the collection that collection `name` reads from, when it
/// is a downsample collection whose source query can be read.
pub open spec fn source_name_of(catalog: Seq<CollectionVersion>, name: Seq<char>) -> Option<Seq<char>> {
    let i = resolve(catalog, name);
    if i < 0 || i >= catalog.len() {
        None
    } else {
        match catalog[i].downsample_source {
            None => None,
            Some(q) => match source_query_outcome(q) {
                Ok((next, _)) => Some(next),
                Err(_) => None,
            },
        }
    }
}

/// Names met along a walk: none twice, each resolving in the catalog.
spec fn walk_seen_ok(catalog: Seq<CollectionVersion>, seen: Seq<Seq<char>>) -> bool {
    &&& seen.no_duplicates()
    &&& forall|j: int| 0 <= j < seen.len() ==> resolve(catalog, #[trigger] seen[j]) >= 0
}

proof fn lemma_walk_seen_push(catalog: Seq<CollectionVersion>, seen: Seq<Seq<char>>, cur: Seq<char>)
    requires
        walk_seen_ok(catalog, seen),
        !seen.contains(cur),
        resolve(catalog, cur) >= 0,
    ensures
        walk_seen_ok(catalog, seen.push(cur)),
        seen.push(cur).len() <= catalog.len(),
{
    let s2 = seen.push(cur);
    assert forall|a: int, b: int| 0 <= a < s2.len() && 0 <= b < s2.len() && a != b implies s2[a] != s2[b] by {
        if a == s2.len() - 1 {
            assert(s2[b] == seen[b]);
        } else if b == s2.len() - 1 {
            assert(s2[a] == seen[a]);
        } else {
            assert(s2[a] == seen[a] && s2[b] == seen[b]);
        }
    }
    assert forall|j: int| 0 <= j < s2.len() implies resolve(catalog, #[trigger] s2[j]) >= 0 by {
        if j < seen.len() {
            assert(s2[j] == seen[j]);
        }
    }
    lemma_resolved_names_bound(catalog, s2);
}

/// A walk whose fuel starts above what is left of the catalog never runs
/// out: any two such amounts give the same result.
proof fn lemma_depth_fuel(catalog: Seq<CollectionVersion>, cur: Seq<char>, seen: Seq<Seq<char>>, f: nat, g: nat)
    requires
        walk_seen_ok(catalog, seen),
        f >= catalog.len() + 1 - seen.len(),
        g >= catalog.len() + 1 - seen.len(),
    ensures
        depth_walk(catalog, cur, seen, f) == depth_walk(catalog, cur, seen, g),
    decreases f,
{
    lemma_resolved_names_bound(catalog, seen);
    if !seen.contains(cur) {
        let i = resolve(catalog, cur);
        lemma_last_active_by_name_range(catalog, cur, catalog.len() as int);
        if 0 <= i < catalog.len() {
            match catalog[i].downsample_source {
                None => {},
                Some(q) => match source_query_outcome(q) {
                    Err(_) => {},
                    Ok((next, _)) => {
                        lemma_walk_seen_push(catalog, seen, cur);
                        lemma_depth_fuel(catalog, next, seen.push(cur), (f - 1) as nat, (g - 1) as nat);
                    },
                },
            }
        }
    }
}

/// A walk that succeeds having met more names succeeds alike having met
/// fewer.
proof fn lemma_depth_fewer_seen(catalog: Seq<CollectionVersion>, cur: Seq<char>, s1: Seq<Seq<char>>, s2: Seq<Seq<char>>, d: nat)
    requires
        walk_seen_ok(catalog, s1),
        walk_seen_ok(catalog, s2),
        forall|x: Seq<char>| s1.contains(x) ==> s2.contains(x),
        depth_walk(catalog, cur, s2, (catalog.len() + 1 - s2.len()) as nat) == Ok::<nat, Seq<char>>(d),
    ensures
        depth_walk(catalog, cur, s1, (catalog.len() + 1 - s1.len()) as nat) == Ok::<nat, Seq<char>>(d),
    decreases catalog.len() + 1 - s2.len(),
{
    lemma_resolved_names_bound(catalog, s1);
    lemma_resolved_names_bound(catalog, s2);
    lemma_last_active_by_name_range(catalog, cur, catalog.len() as int);
    let i = resolve(catalog, cur);
    if 0 <= i < catalog.len() {
        match catalog[i].downsample_source {
            None => {},
            Some(q) => match source_query_outcome(q) {
                Err(_) => {},
                Ok((next, _)) => {
                    lemma_walk_seen_push(catalog, s1, cur);
                    lemma_walk_seen_push(catalog, s2, cur);
                    let t1 = s1.push(cur);
                    let t2 = s2.push(cur);
                    assert forall|x: Seq<char>| t1.contains(x) implies t2.contains(x) by {
                        if x == cur {
                            assert(t2[t2.len() - 1] == cur);
                        } else {
                            let j = choose|j: int| 0 <= j < t1.len() && t1[j] == x;
                            assert(s1[j] == x);
                            assert(s1.contains(x));
                            assert(s2.contains(x));
                            let k = choose|k: int| 0 <= k < s2.len() && s2[k] == x;
                            assert(t2[k] == x);
                        }
                    }
                    let r = depth_walk(catalog, next, t2, (catalog.len() + 1 - t2.len()) as nat);
                    assert(r is Ok);
                    lemma_depth_fewer_seen(catalog, next, t1, t2, (d - 1) as nat);
                },
            },
        }
    }
}

/// A downsample collection lies one level above the collection it reads
/// from: when its depth is `d`, its source's depth is `d - 1`.
pub proof fn law_source_depth_is_one_less(catalog: Seq<CollectionVersion>, target: Seq<char>, source: Seq<char>, d: nat)
    requires
        depth_check(catalog, target) == Ok::<nat, Seq<char>>(d),
        source_name_of(catalog, target) == Some(source),
    ensures
        d >= 1,
        depth_check(catalog, source) == Ok::<nat, Seq<char>>((d - 1) as nat),
{
    let empty = Seq::<Seq<char>>::empty();
    let one = empty.push(target);
    lemma_last_active_by_name_range(catalog, target, catalog.len() as int);
    assert(walk_seen_ok(catalog, empty));
    lemma_walk_seen_push(catalog, empty, target);
    assert(one.len() == 1);
    assert(depth_walk(catalog, source, one, catalog.len() as nat) is Ok);
    lemma_depth_fewer_seen(catalog, source, empty, one, (d - 1) as nat);
}

/// Whether `order` lists the positions of `targets` in the order in which
/// they are filled (see `bootstrap_order`).
pub open spec fn bootstrap_ordered(catalog: Seq<CollectionVersion>, targets: Seq<String>, order: Seq<usize>) -> bool {
    &&& order.len() == targets.len()
    &&& forall|k: int| 0 <= k < order.len() ==> (#[trigger] order[k]) < targets.len()
    &&& forall|j: int, k: int| #![trigger order[j], order[k]] 0 <= j < k < order.len() ==> ({
        let a = depth_key(catalog, targets[order[j] as int]@);
        let b = depth_key(catalog, targets[order[k] as int]@);
        a < b || (a == b && order[j] < order[k])
    })
    &&& forall|i: int| 0 <= i < targets.len() ==> #[trigger] appears(order, i)
}

/// A downsample collection is filled after the collection it reads from,
/// when both are filled and its own depth can be found.
pub proof fn law_source_is_filled_first(
    catalog: Seq<CollectionVersion>,
    targets: Seq<String>,
    order: Seq<usize>,
    t: int,
    s: int,
)
    requires
        bootstrap_ordered(catalog, targets, order),
        0 <= t < targets.len(),
        0 <= s < targets.len(),
        depth_check(catalog, targets[t]@) is Ok,
        source_name_of(catalog, targets[t]@) == Some(targets[s]@),
    ensures
        exists|j: int, k: int| 0 <= j < k < order.len() && order[j] == s && order[k] == t,
{
    let d = depth_check(catalog, targets[t]@)->Ok_0;
    law_source_depth_is_one_less(catalog, targets[t]@, targets[s]@, d);
    assert(depth_key(catalog, targets[t]@) == d as int);
    assert(depth_key(catalog, targets[s]@) == d - 1);
    assert(appears(order, t));
    assert(appears(order, s));
    let pk = choose|k: int| 0 <= k < order.len() && order[k] == t;
    let pj = choose|k: int| 0 <= k < order.len() && order[k] == s;
    if pk < pj {
        assert(depth_key(catalog, targets[order[pk] as int]@) <= depth_key(catalog, targets[order[pj] as int]@));
    }
    assert(pj != pk);
    assert(0 <= pj < pk < order.len() && order[pj] == s && order[pk] == t);
}

} // verus!
