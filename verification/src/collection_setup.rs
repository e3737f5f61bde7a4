//! The arithmetic and text handling around creating and loading
//! collections: sequence counters, index IDs, the order in which field
//! definition blocks are stored, and the names recovered from store keys.

use vstd::prelude::*;
use vstd::string::StringExecFns;
use vstd::utf8::{decode_utf8, valid_utf8, encode_utf8_decode_utf8, encode_utf8_valid_utf8};
use crate::error::Error;
use crate::outside::utf8_text;
use crate::text::{cat5, chars_of, starts_with};
use crate::doc_ids::be_value;
use crate::schema::FieldDescription;
use crate::text::{lex_lt, lemma_lex_asym, lemma_lex_total, lemma_lex_trans, str_eq, str_lt};

verus! {

/// The text after the last `/` of `s` (all of `s` when it has none).
pub open spec fn last_segment(s: Seq<char>) -> Seq<char>
    decreases s.len(),
{
    if s.len() == 0 {
        s
    } else if s.last() == '/' {
        Seq::empty()
    } else {
        last_segment(s.drop_last()).push(s.last())
    }
}

/// The text after the last `/` of `text`.
pub fn last_segment_of(text: &str) -> (res: String)
    ensures
        res@ == last_segment(text@),
{
    let cs = chars_of(text);
    let mut i = cs.len();
    assert(text@.take(i as int) =~= text@);
    assert(text@.skip(i as int) =~= Seq::<char>::empty());
    assert(last_segment(text@) + Seq::<char>::empty() =~= last_segment(text@));
    while i > 0 && cs[i - 1] != '/'
        invariant
            i <= cs@.len(),
            cs@ == text@,
            last_segment(text@) == last_segment(text@.take(i as int)) + text@.skip(i as int),
        decreases i,
    {
        proof {
            let t = text@.take(i as int);
            assert(t.drop_last() =~= text@.take(i - 1));
            assert(t.last() == text@[i - 1]);
            assert(last_segment(t) == last_segment(text@.take(i - 1)).push(text@[i - 1]));
            assert(last_segment(text@.take(i - 1)).push(text@[i - 1]) + text@.skip(i as int)
                =~= last_segment(text@.take(i - 1)) + text@.skip(i - 1));
        }
        i -= 1;
    }
    proof {
        if i > 0 {
            assert(text@.take(i as int).last() == text@[i - 1]);
        } else {
            assert(text@.take(0) =~= Seq::<char>::empty());
        }
        assert(last_segment(text@.take(i as int)) =~= Seq::<char>::empty());
        assert(last_segment(text@) =~= text@.skip(i as int));
    }
    let seg = text.substring_char(i, cs.len());
    String::from_str(seg)
}

/// The last `/`-separated segment of a store key, when the key is valid
/// UTF-8.
pub fn extract_last_path_segment_str(key: &[u8]) -> (res: Option<String>)
    ensures
        valid_utf8(key@) ==> (res matches Some(s) && s@ == last_segment(decode_utf8(key@))),
        !valid_utf8(key@) ==> res is None,
{
    let text = match utf8_text(key) {
        Some(t) => t,
        None => {
            return None;
        },
    };
    proof {
        encode_utf8_decode_utf8(text@);
        encode_utf8_valid_utf8(text@);
    }
    Some(last_segment_of(text.as_str()))
}


/// The name a collection-name key holds: the key without `prefix`; refused
/// when the key does not start with it.
pub fn collection_key_name(key: &str, prefix: &str) -> (res: Result<String, Error>)
    ensures
        prefix@.len() <= key@.len() && key@.subrange(0, prefix@.len() as int) == prefix@
            ==> (res matches Ok(n) && n@ == key@.skip(prefix@.len() as int)),
        !(prefix@.len() <= key@.len() && key@.subrange(0, prefix@.len() as int) == prefix@)
            ==> (res matches Err(Error::Other(m))
                && m@ == "collection key '"@ + key@ + "' does not match expected prefix '"@ + prefix@ + "'"@),
{
    if starts_with(key, prefix) {
        let n = prefix.unicode_len();
        let k = key.unicode_len();
        let rest = key.substring_char(n, k);
        Ok(String::from_str(rest))
    } else {
        Err(Error::Other(cat5("collection key '", key, "' does not match expected prefix '", prefix, "'")))
    }
}

/// The value of a stored sequence counter: its four bytes read big-endian,
/// and 0 when it is missing or not four bytes long.
pub fn decode_sequence_counter(stored: &Option<Vec<u8>>) -> (res: u32)
    ensures
        res as nat == match stored {
            Some(b) => if b@.len() == 4 { be_value(b@) } else { 0 },
            None => 0,
        },
{
    match stored {
        Some(b) => {
            if b.len() == 4 {
                let v = (b[0] as u32) * 16777216 + (b[1] as u32) * 65536 + (b[2] as u32) * 256 + (b[3] as u32);
                proof {
                    let s = b@;
                    let s3 = s.drop_last();
                    let s2 = s3.drop_last();
                    let s1 = s2.drop_last();
                    let s0 = s1.drop_last();
                    assert(s0.len() == 0);
                    assert(be_value(s0) == 0);
                    assert(be_value(s1) == s[0] as nat);
                    assert(be_value(s2) == s[0] as nat * 256 + s[1] as nat);
                    assert(be_value(s3) == (s[0] as nat * 256 + s[1] as nat) * 256 + s[2] as nat);
                }
                v
            } else {
                0
            }
        },
        None => 0,
    }
}

/// The next collection short ID after the stored counter value `current`.
pub fn next_collection_short_id(current: u32) -> (res: u32)
    requires
        current < u32::MAX,
    ensures
        res == current + 1,
{
    current + 1
}

/// The IDs given to `count` new indexes when the index-ID counter stands at
/// `current`: the next `count` numbers, in order, and the counter after them.
pub fn assign_index_ids(count: usize, current: u32) -> (res: (Vec<u32>, u32))
    requires
        current + count <= u32::MAX,
    ensures
        res.0@.len() == count,
        forall|i: int| 0 <= i < count ==> res.0@[i] == current + i + 1,
        res.1 == current + count,
{
    let mut ids: Vec<u32> = Vec::new();
    let mut c = current;
    let mut i: usize = 0;
    while i < count
        invariant
            0 <= i <= count,
            current + count <= u32::MAX,
            c == current + i,
            ids@.len() == i,
            forall|k: int| 0 <= k < i ==> ids@[k] == current + k + 1,
        decreases count - i,
    {
        c = c + 1;
        ids.push(c);
        i += 1;
    }
    (ids, c)
}

/// Whether `s` is the text of a `u32` as `u32::from_str` reads it: an
/// optional `+`, then one or more decimal digits, of value at most
/// `u32::MAX`; and that value.
pub open spec fn u32_text_value(s: Seq<char>) -> Option<nat> {
    let d = if s.len() > 0 && s[0] == '+' { s.drop_first() } else { s };
    if d.len() > 0 && crate::downsample::all_digits(d) && crate::downsample::dec_value(d) <= u32::MAX {
        Some(crate::downsample::dec_value(d))
    } else {
        None
    }
}

/// Reads the short ID stored as decimal text (as `u32::from_str` does).
pub fn parse_short_id(s: &str) -> (res: Option<u32>)
    ensures
        match u32_text_value(s@) {
            Some(v) => res == Some(v as u32),
            None => res is None,
        },
{
    let cs = chars_of(s);
    let start: usize = if cs.len() > 0 && cs[0] == '+' { 1 } else { 0 };
    let ghost d = if s@.len() > 0 && s@[0] == '+' { s@.drop_first() } else { s@ };
    assert(d =~= cs@.skip(start as int));
    if start >= cs.len() {
        return None;
    }
    let mut v: u32 = 0;
    let mut i = start;
    while i < cs.len()
        invariant
            start <= i <= cs@.len(),
            cs@ == s@,
            d == (if s@.len() > 0 && s@[0] == '+' { s@.drop_first() } else { s@ }),
            d =~= cs@.skip(start as int),
            crate::downsample::all_digits(cs@.subrange(start as int, i as int)),
            v as nat == crate::downsample::dec_value(cs@.subrange(start as int, i as int)),
        decreases cs.len() - i,
    {
        let c = cs[i];
        if !(c >= '0' && c <= '9') {
            proof {
                assert(d[i - start] == c);
                assert(!crate::downsample::all_digits(d));
            }
            return None;
        }
        let ghost sub = cs@.subrange(start as int, i + 1);
        assert(sub.drop_last() =~= cs@.subrange(start as int, i as int));
        assert(sub.last() == c);
        let dv: u32 = if c == '0' { 0 } else if c == '1' { 1 } else if c == '2' { 2 } else if c == '3' { 3 }
            else if c == '4' { 4 } else if c == '5' { 5 } else if c == '6' { 6 } else if c == '7' { 7 }
            else if c == '8' { 8 } else { 9 };
        if v > (u32::MAX - dv) / 10 {
            proof {
                assert(crate::downsample::dec_value(sub) > u32::MAX);
                assert(crate::downsample::all_digits(sub));
                assert(d.take(i + 1 - start) =~= sub);
                if crate::downsample::all_digits(d) {
                    crate::downsample::lemma_dec_value_mono(d, i + 1 - start);
                    assert(crate::downsample::dec_value(d) > u32::MAX);
                }
            }
            return None;
        }
        v = v * 10 + dv;
        i += 1;
    }
    assert(cs@.subrange(start as int, cs@.len() as int) =~= d);
    Some(v)
}


/// Whether field `i` is stored before field `j` among the field definition
/// blocks: `_docID` first, then by name, fields of equal name in their
/// order.
pub open spec fn block_order_lt(fields: Seq<FieldDescription>, i: int, j: int) -> bool {
    let a_doc = fields[i].name@ == "_docID"@;
    let b_doc = fields[j].name@ == "_docID"@;
    if a_doc != b_doc {
        a_doc
    } else if fields[i].name@ != fields[j].name@ {
        lex_lt(fields[i].name@, fields[j].name@)
    } else {
        i < j
    }
}

proof fn lemma_block_order(fields: Seq<FieldDescription>, i: int, j: int, k: int)
    ensures
        !(block_order_lt(fields, i, j) && block_order_lt(fields, j, i)),
        !block_order_lt(fields, i, i),
        i != j ==> block_order_lt(fields, i, j) || block_order_lt(fields, j, i),
        block_order_lt(fields, i, j) && block_order_lt(fields, j, k) ==> block_order_lt(fields, i, k),
{
    lemma_lex_asym(fields[i].name@, fields[j].name@);
    lemma_lex_total(fields[i].name@, fields[j].name@);
    if lex_lt(fields[i].name@, fields[j].name@) && lex_lt(fields[j].name@, fields[k].name@) {
        lemma_lex_trans(fields[i].name@, fields[j].name@, fields[k].name@);
    }
    lemma_lex_asym(fields[i].name@, fields[k].name@);
}

/// Whether field `i` has a definition block (its ID is set).
pub open spec fn has_block(fields: Seq<FieldDescription>, i: int) -> bool {
    0 <= i < fields.len() && fields[i].id@.len() > 0
}

/// Whether field `i` is stored after field `last` (every field is, when
/// there is no last).
pub open spec fn block_after(fields: Seq<FieldDescription>, i: int, last: Option<usize>) -> bool {
    match last {
        None => true,
        Some(l) => block_order_lt(fields, l as int, i),
    }
}

/// How many fields with a block come after `last`, among the first `n`.
pub open spec fn count_blocks_after(fields: Seq<FieldDescription>, last: Option<usize>, n: int) -> nat
    decreases n,
{
    if n <= 0 {
        0
    } else {
        count_blocks_after(fields, last, n - 1) + if has_block(fields, n - 1) && block_after(fields, n - 1, last) { 1nat } else { 0nat }
    }
}

proof fn lemma_count_blocks_after(fields: Seq<FieldDescription>, last: Option<usize>, c: usize, n: int)
    requires
        0 <= n <= fields.len(),
        has_block(fields, c as int),
        block_after(fields, c as int, last),
    ensures
        count_blocks_after(fields, Some(c), n) + (if (c as int) < n { 1nat } else { 0nat }) <= count_blocks_after(fields, last, n),
    decreases n,
{
    if n > 0 {
        lemma_count_blocks_after(fields, last, c, n - 1);
        lemma_block_order(fields, c as int, n - 1, n - 1);
        match last {
            Some(l) => {
                lemma_block_order(fields, l as int, c as int, n - 1);
            },
            None => {},
        }
    }
}

fn is_doc_id_field(name: &str) -> (res: bool)
    ensures
        res == (name@ == "_docID"@),
{
    str_eq(name, "_docID")
}

fn block_order_before(fields: &Vec<FieldDescription>, i: usize, j: usize) -> (res: bool)
    requires
        i < fields@.len(),
        j < fields@.len(),
    ensures
        res == block_order_lt(fields@, i as int, j as int),
{
    let a_doc = is_doc_id_field(fields[i].name.as_str());
    let b_doc = is_doc_id_field(fields[j].name.as_str());
    if a_doc != b_doc {
        a_doc
    } else if !str_eq(fields[i].name.as_str(), fields[j].name.as_str()) {
        str_lt(fields[i].name.as_str(), fields[j].name.as_str())
    } else {
        i < j
    }
}

/// The order in which the definition blocks of a collection's fields are
/// stored: the fields whose ID is set, `_docID` first, then by name.
pub fn field_block_order(fields: &Vec<FieldDescription>) -> (res: Vec<usize>)
    ensures
        forall|k: int| 0 <= k < res@.len() ==> has_block(fields@, #[trigger] res@[k] as int),
        forall|i: int| has_block(fields@, i) ==> exists|k: int| 0 <= k < res@.len() && res@[k] == i,
        forall|j: int, k: int| 0 <= j < k < res@.len() ==> block_order_lt(fields@, res@[j] as int, res@[k] as int),
{
    let mut out: Vec<usize> = Vec::new();
    let mut last: Option<usize> = None;
    loop
        invariant
            forall|k: int| 0 <= k < out@.len() ==> has_block(fields@, #[trigger] out@[k] as int),
            forall|j: int, k: int| 0 <= j < k < out@.len() ==> block_order_lt(fields@, out@[j] as int, out@[k] as int),
            last is None ==> out@.len() == 0,
            last matches Some(l) ==> out@.len() > 0 && out@[out@.len() - 1] == l && (l as int) < fields@.len(),
            forall|i: int| #[trigger] has_block(fields@, i) && !block_after(fields@, i, last)
                ==> exists|k: int| 0 <= k < out@.len() && out@[k] == i,
        ensures
            forall|i: int| #[trigger] has_block(fields@, i) ==> exists|k: int| 0 <= k < out@.len() && out@[k] == i,
        decreases count_blocks_after(fields@, last, fields@.len() as int),
    {
        let mut best: Option<usize> = None;
        let mut i: usize = 0;
        while i < fields.len()
            invariant
                0 <= i <= fields@.len(),
                last matches Some(l) ==> (l as int) < fields@.len(),
                match best {
                    Some(b) => (b as int) < i && has_block(fields@, b as int) && block_after(fields@, b as int, last)
                        && forall|k: int| 0 <= k < i && #[trigger] has_block(fields@, k) && block_after(fields@, k, last)
                            ==> !block_order_lt(fields@, k, b as int),
                    None => forall|k: int| 0 <= k < i ==> !(#[trigger] has_block(fields@, k) && block_after(fields@, k, last)),
                },
            decreases fields.len() - i,
        {
            let after = match last {
                None => true,
                Some(l) => block_order_before(fields, l, i),
            };
            if fields[i].id.as_str().unicode_len() > 0 && after {
                match best {
                    None => {
                        proof { lemma_block_order(fields@, i as int, i as int, i as int); }
                        best = Some(i);
                    },
                    Some(b) => {
                        if block_order_before(fields, i, b) {
                            proof {
                                assert forall|k: int| 0 <= k < i + 1 && #[trigger] has_block(fields@, k) && block_after(fields@, k, last)
                                    implies !block_order_lt(fields@, k, i as int) by {
                                    lemma_block_order(fields@, k, i as int, b as int);
                                }
                            }
                            best = Some(i);
                        }
                    },
                }
            }
            i += 1;
        }
        let b = match best {
            Some(b) => b,
            None => {
                proof {
                    assert forall|i: int| #[trigger] has_block(fields@, i) implies exists|k: int| 0 <= k < out@.len() && out@[k] == i by {
                        assert(!block_after(fields@, i, last));
                    }
                }
                break;
            },
        };
        proof {
            lemma_count_blocks_after(fields@, last, b, fields@.len() as int);
        }
        let ghost before = out@;
        out.push(b);
        proof {
            assert forall|i: int| #[trigger] has_block(fields@, i) && !block_after(fields@, i, Some(b))
                implies exists|k: int| 0 <= k < out@.len() && out@[k] == i by {
                lemma_block_order(fields@, i, b as int, b as int);
                if i == b as int {
                    assert(out@[out@.len() - 1] == b);
                } else if block_after(fields@, i, last) {
                    assert(false);
                } else {
                    let k = choose|k: int| 0 <= k < before.len() && before[k] == i;
                    assert(out@[k] == before[k]);
                }
            }
            assert forall|j: int, k: int| 0 <= j < k < out@.len() implies block_order_lt(fields@, out@[j] as int, out@[k] as int) by {
                if k == out@.len() - 1 {
                    match last {
                        Some(l) => {
                            if j < before.len() - 1 {
                                lemma_block_order(fields@, out@[j] as int, l as int, b as int);
                            }
                        },
                        None => {},
                    }
                }
            }
        }
        last = Some(b);
    }
    out
}

} // verus!
