//! The format version of index keys on disk. A store stamped with an older
//! format (or with none) has its secondary indexes rebuilt on open and is
//! then stamped with the current one.

use vstd::prelude::*;
use crate::schema::CollectionVersion;

verus! {

/// The current index key format: version 2 stores a DateTime as separate
/// seconds and nanoseconds (version 1 stored one count of nanoseconds).
pub const CURRENT_INDEX_FORMAT: u32 = 2;

/// The four big-endian bytes of `format`.
pub open spec fn be_bytes(format: u32) -> Seq<u8> {
    seq![
        (format / 16777216) as u8,
        ((format / 65536) % 256) as u8,
        ((format / 256) % 256) as u8,
        (format % 256) as u8,
    ]
}

/// The format a stored stamp holds: four bytes read big-endian; anything
/// else, or no stamp, is no format.
pub open spec fn stamped_format(raw: Option<Seq<u8>>) -> Option<u32> {
    match raw {
        Some(b) => if b.len() == 4 {
            Some((b[0] * 16777216 + b[1] * 65536 + b[2] * 256 + b[3]) as u32)
        } else {
            None
        },
        None => None,
    }
}

/// The format stamped on disk, from the stored stamp (see `stamped_format`).
pub fn decode_index_format(raw: &Option<Vec<u8>>) -> (res: Option<u32>)
    ensures
        res == stamped_format(match raw { Some(b) => Some(b@), None => None }),
{
    match raw {
        Some(b) => {
            if b.len() == 4 {
                let v = (b[0] as u32) * 16777216 + (b[1] as u32) * 65536 + (b[2] as u32) * 256 + (b[3] as u32);
                Some(v)
            } else {
                None
            }
        },
        None => None,
    }
}

/// The stamp that records `format`.
pub fn encode_index_format(format: u32) -> (res: Vec<u8>)
    ensures
        res@ == be_bytes(format),
{
    let v = vec![
        (format / 16777216) as u8,
        ((format / 65536) % 256) as u8,
        ((format / 256) % 256) as u8,
        (format % 256) as u8,
    ];
    assert(v@ =~= be_bytes(format));
    v
}

/// A stamp reads back as the format it records.
pub proof fn law_stamp_reads_back(format: u32)
    ensures
        stamped_format(Some(be_bytes(format))) == Some(format),
{
    let f = format as int;
    let b = be_bytes(format);
    assert(b[0] == f / 16777216 && b[1] == (f / 65536) % 256 && b[2] == (f / 256) % 256 && b[3] == f % 256) by {
        assert(f / 16777216 < 256) by (nonlinear_arith)
            requires 0 <= f < 4294967296;
    }
    assert((f / 16777216) * 16777216 + ((f / 65536) % 256) * 65536 + ((f / 256) % 256) * 256 + f % 256 == f) by (nonlinear_arith)
        requires 0 <= f;
}

/// Whether the indexes on disk need no rebuild: the stamp records the
/// current format.
pub fn index_format_is_current(stored: Option<u32>) -> (res: bool)
    ensures
        res == (stored == Some(CURRENT_INDEX_FORMAT)),
{
    match stored {
        Some(f) => f == CURRENT_INDEX_FORMAT,
        None => false,
    }
}

/// The names, in order, of the first `n` collections that have secondary
/// indexes.
pub open spec fn indexed_names(cols: Seq<CollectionVersion>, n: int) -> Seq<Seq<char>>
    decreases n,
{
    if n <= 0 {
        Seq::empty()
    } else if cols[n - 1].indexes@.len() > 0 {
        indexed_names(cols, n - 1).push(cols[n - 1].name@)
    } else {
        indexed_names(cols, n - 1)
    }
}

/// The collections whose indexes are rebuilt when the stamp is not current:
/// those of `active` (the active collections) that have secondary indexes.
pub fn stale_index_collections(active: &Vec<CollectionVersion>) -> (res: Vec<String>)
    ensures
        crate::text::views(res@) == indexed_names(active@, active@.len() as int),
{
    let mut out: Vec<String> = Vec::new();
    let mut i: usize = 0;
    while i < active.len()
        invariant
            0 <= i <= active@.len(),
            crate::text::views(out@) == indexed_names(active@, i as int),
        decreases active.len() - i,
    {
        if active[i].indexes.len() > 0 {
            let ghost before = out@;
            out.push(active[i].name.clone());
            assert(crate::text::views(out@) =~= crate::text::views(before).push(active@[i as int].name@));
        }
        i += 1;
    }
    out
}

} // verus!
