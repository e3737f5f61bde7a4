//! What a transaction sees of the collections: its own name entries first
//! (they include collections it created), then the process-wide cache.

use vstd::prelude::*;
use vstd::utf8::{decode_utf8, valid_utf8, encode_utf8_decode_utf8, encode_utf8_valid_utf8};
use crate::outside::utf8_text;
use crate::collection_setup::collection_key_name;
use crate::text::{contains_name, starts_with, views};

verus! {

/// What the value of a collection-name entry holds: the version ID of the
/// collection, or (in entries written by older versions) the whole
/// collection definition as JSON.
#[derive(Debug, PartialEq, Eq)]
pub enum NameEntry {
    VersionId(String),
    InlineDefinition,
}

/// Whether `s` starts with `{`.
pub open spec fn opens_object(s: Seq<char>) -> bool {
    s.len() > 0 && s[0] == '{'
}

/// Reads the value of a collection-name entry: text that is valid UTF-8 and
/// does not start with `{` is a version ID; anything else is a definition
/// stored inline.
pub fn classify_name_entry(value: &Vec<u8>) -> (res: NameEntry)
    ensures
        valid_utf8(value@) && !opens_object(decode_utf8(value@))
            ==> (res matches NameEntry::VersionId(v) && v@ == decode_utf8(value@)),
        !(valid_utf8(value@) && !opens_object(decode_utf8(value@))) ==> res is InlineDefinition,
{
    match utf8_text(value.as_slice()) {
        Some(text) => {
            proof {
                encode_utf8_decode_utf8(text@);
                encode_utf8_valid_utf8(text@);
            }
            if starts_with(text.as_str(), "{") {
                proof {
                    reveal_strlit("{");
                    assert(text@.subrange(0, 1) == "{"@);
                    assert(text@[0] == text@.subrange(0, 1)[0]);
                }
                NameEntry::InlineDefinition
            } else {
                proof {
                    reveal_strlit("{");
                    if opens_object(text@) {
                        assert(text@.subrange(0, 1) =~= "{"@);
                    }
                }
                NameEntry::VersionId(text)
            }
        },
        None => NameEntry::InlineDefinition,
    }
}

/// The name a collection-name key of the transaction holds: the key
/// without `prefix`, when the key is valid UTF-8 and starts with it.
pub open spec fn key_name(key: Seq<u8>, prefix: Seq<char>) -> Option<Seq<char>> {
    if valid_utf8(key) && prefix.len() <= decode_utf8(key).len()
        && decode_utf8(key).subrange(0, prefix.len() as int) == prefix {
        Some(decode_utf8(key).skip(prefix.len() as int))
    } else {
        None
    }
}

/// The collections a transaction lists: every name of `cached`, and every
/// name held by the transaction's own name keys `keys` (see `key_name`),
/// each once.
pub fn merge_collection_names(cached: &Vec<String>, keys: &Vec<Vec<u8>>, prefix: &str) -> (res: Vec<String>)
    ensures
        views(res@).no_duplicates(),
        forall|x: Seq<char>| views(res@).contains(x) <==> (views(cached@).contains(x)
            || exists|i: int| 0 <= i < keys@.len() && key_name(#[trigger] keys@[i]@, prefix@) == Some(x)),
{
    let mut out: Vec<String> = Vec::new();
    let mut i: usize = 0;
    while i < cached.len()
        invariant
            0 <= i <= cached@.len(),
            views(out@).no_duplicates(),
            forall|x: Seq<char>| views(out@).contains(x) <==> views(cached@).take(i as int).contains(x),
        decreases cached.len() - i,
    {
        let ghost before = views(out@);
        if !contains_name(&out, cached[i].as_str()) {
            out.push(cached[i].clone());
            proof {
                assert(views(out@) =~= before.push(cached@[i as int]@));
            }
        }
        proof {
            let t0 = views(cached@).take(i as int);
            let t1 = views(cached@).take(i + 1);
            let o = views(out@);
            assert(t1 =~= t0.push(cached@[i as int]@));
            assert forall|x: Seq<char>| o.contains(x) <==> t1.contains(x) by {
                if x == cached@[i as int]@ {
                    assert(t1[i as int] == x);
                    if before.contains(x) {
                        let k = choose|k: int| 0 <= k < before.len() && before[k] == x;
                        assert(o[k] == x);
                    } else {
                        assert(o[o.len() - 1] == x);
                    }
                } else {
                    if o.contains(x) {
                        let k = choose|k: int| 0 <= k < o.len() && o[k] == x;
                        if k < before.len() {
                            assert(before[k] == x);
                        }
                        assert(before.contains(x));
                        let m = choose|m: int| 0 <= m < t0.len() && t0[m] == x;
                        assert(t1[m] == x);
                    }
                    if t1.contains(x) {
                        let m = choose|m: int| 0 <= m < t1.len() && t1[m] == x;
                        assert(t0[m] == x);
                        assert(before.contains(x));
                        let k = choose|k: int| 0 <= k < before.len() && before[k] == x;
                        assert(o[k] == x);
                    }
                }
            }
            assert forall|a: int, b: int| 0 <= a < views(out@).len() && 0 <= b < views(out@).len() && a != b
                implies views(out@)[a] != views(out@)[b] by {
                if a < before.len() && b < before.len() {
                    assert(views(out@)[a] == before[a] && views(out@)[b] == before[b]);
                } else if a < before.len() {
                    assert(views(out@)[a] == before[a]);
                } else if b < before.len() {
                    assert(views(out@)[b] == before[b]);
                }
            }
        }
        i += 1;
    }
    assert(views(cached@).take(cached@.len() as int) =~= views(cached@));
    let mut j: usize = 0;
    while j < keys.len()
        invariant
            0 <= j <= keys@.len(),
            views(out@).no_duplicates(),
            forall|x: Seq<char>| views(out@).contains(x) <==> (views(cached@).contains(x)
                || exists|i: int| 0 <= i < j && key_name(#[trigger] keys@[i]@, prefix@) == Some(x)),
        decreases keys.len() - j,
    {
        let ghost before = views(out@);
        let name: Option<String> = match utf8_text(keys[j].as_slice()) {
            Some(text) => {
                proof {
                    encode_utf8_decode_utf8(text@);
                    encode_utf8_valid_utf8(text@);
                }
                match collection_key_name(text.as_str(), prefix) {
                    Ok(n) => Some(n),
                    Err(_) => None,
                }
            },
            None => None,
        };
        assert(match name {
            Some(n) => key_name(keys@[j as int]@, prefix@) == Some(n@),
            None => key_name(keys@[j as int]@, prefix@) is None,
        });
        match name {
            Some(n) => {
                if !contains_name(&out, n.as_str()) {
                    out.push(n);
                    proof {
                        assert(views(out@) =~= before.push(views(out@).last()));
                    }
                }
            },
            None => {},
        }
        proof {
            assert forall|x: Seq<char>| views(out@).contains(x) <==> (views(cached@).contains(x)
                || exists|i: int| 0 <= i < j + 1 && key_name(#[trigger] keys@[i]@, prefix@) == Some(x)) by {
                if key_name(keys@[j as int]@, prefix@) == Some(x) {
                    if before.contains(x) {
                        let k = choose|k: int| 0 <= k < before.len() && before[k] == x;
                        assert(views(out@)[k] == x);
                    } else {
                        assert(views(out@)[views(out@).len() - 1] == x);
                    }
                } else {
                    if views(out@).contains(x) {
                        let k = choose|k: int| 0 <= k < views(out@).len() && views(out@)[k] == x;
                        if k < before.len() {
                            assert(before[k] == x);
                        }
                        assert(before.contains(x));
                    }
                    if before.contains(x) {
                        let k = choose|k: int| 0 <= k < before.len() && before[k] == x;
                        assert(views(out@)[k] == x);
                    }
                    if exists|i: int| 0 <= i < j + 1 && key_name(#[trigger] keys@[i]@, prefix@) == Some(x) {
                        let i = choose|i: int| 0 <= i < j + 1 && key_name(#[trigger] keys@[i]@, prefix@) == Some(x);
                        assert(i < j);
                    }
                }
            }
            assert forall|a: int, b: int| 0 <= a < views(out@).len() && 0 <= b < views(out@).len() && a != b
                implies views(out@)[a] != views(out@)[b] by {
                if a < before.len() && b < before.len() {
                    assert(views(out@)[a] == before[a] && views(out@)[b] == before[b]);
                } else if a < before.len() {
                    assert(views(out@)[a] == before[a]);
                } else if b < before.len() {
                    assert(views(out@)[b] == before[b]);
                }
            }
        }
        j += 1;
    }
    out
}

} // verus!
