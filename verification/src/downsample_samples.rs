//! Source samples of a downsample collection, read from the commit history
//! of its source documents: the commits of the fields that matter are
//! grouped by height, the last value of a field at a height wins, and each
//! height gives one sample.

use vstd::prelude::*;
use vstd::string::StringExecFns;
use crate::error::Error;
use crate::schema::CollectionVersion;
use crate::downsample::AggregateField;
use crate::downsample_plan::{DownsamplePlan, SourceKind};
use crate::text::{cat2, cat4, contains_name, decimal, str_eq, u64_to_decimal, views};
use crate::downsample_windows::{above, num_above, next_bucket, lemma_num_above_decreases};

verus! {

/// What sampling reads of a decoded commit delta: whether it is a time (a
/// date-time, or a string in RFC 3339 form), whether it is a number, and its
/// value if it is an integer.
#[derive(Debug, Clone, Copy)]
pub struct DeltaValue {
    pub is_time: bool,
    pub is_numeric: bool,
    pub int_value: Option<i64>,
}

/// One commit of a source document: the field it updated, its height, and
/// its decoded delta (`None` when the delta did not decode).
#[derive(Debug)]
pub struct CommitEntry {
    pub field_name: Option<String>,
    pub height: Option<i64>,
    pub value: Option<DeltaValue>,
}

/// The commit (by its index) that holds the value of a field at a height.
#[derive(Debug)]
pub struct FieldCommit {
    pub field_name: String,
    pub commit: usize,
}

/// The latest value of each field updated at one height.
#[derive(Debug)]
pub struct HeightGroup {
    pub height: u64,
    pub values: Vec<FieldCommit>,
}

/// Whether commit `c` takes part in grouping: it names one of the `needed`
/// fields, has a height that is not negative, and its delta decoded.
pub open spec fn kept(c: CommitEntry, needed: Seq<Seq<char>>) -> bool {
    &&& c.field_name matches Some(f) && needed.contains(f@)
    &&& c.height matches Some(h) && h >= 0
    &&& c.value is Some
}

/// Whether commit `c` is at height `h`.
pub open spec fn at_height(c: CommitEntry, h: int) -> bool {
    c.height matches Some(x) && x as int == h
}

/// Whether commit `c` updated field `f`.
pub open spec fn named(c: CommitEntry, f: Seq<char>) -> bool {
    c.field_name matches Some(n) && n@ == f
}

/// The index of the last of the first `n` commits that takes part in
/// grouping and updated field `f` at height `h`.
pub open spec fn latest(commits: Seq<CommitEntry>, needed: Seq<Seq<char>>, h: int, f: Seq<char>, n: int) -> Option<int>
    decreases n,
{
    if n <= 0 {
        None
    } else if kept(commits[n - 1], needed) && at_height(commits[n - 1], h) && named(commits[n - 1], f) {
        Some(n - 1)
    } else {
        latest(commits, needed, h, f, n - 1)
    }
}

/// Whether some commit that takes part in grouping is at height `h`.
pub open spec fn has_height(commits: Seq<CommitEntry>, needed: Seq<Seq<char>>, h: int) -> bool {
    exists|i: int| 0 <= i < commits.len() && kept(commits[i], needed) && #[trigger] at_height(commits[i], h)
}

/// Whether `vs` holds, for each field updated at height `h` by the first
/// `n` commits, the latest such commit, once per field.
#[verifier::opaque]
pub open spec fn values_match_upto(commits: Seq<CommitEntry>, needed: Seq<Seq<char>>, h: int, vs: Seq<FieldCommit>, n: int) -> bool {
    &&& forall|j: int| 0 <= j < vs.len() ==> latest(commits, needed, h, (#[trigger] vs[j]).field_name@, n) == Some(vs[j].commit as int)
    &&& forall|j: int, k: int| 0 <= j < k < vs.len() ==> vs[j].field_name@ != vs[k].field_name@
    &&& forall|i: int| 0 <= i < n && kept(commits[i], needed) && #[trigger] at_height(commits[i], h)
        ==> exists|j: int| 0 <= j < vs.len() && named(commits[i], (#[trigger] vs[j]).field_name@)
}

/// Whether group `g` holds the latest value of each field at its height.
pub open spec fn group_matches(commits: Seq<CommitEntry>, needed: Seq<Seq<char>>, g: HeightGroup) -> bool {
    values_match_upto(commits, needed, g.height as int, g.values@, commits.len() as int)
}

/// Whether `gs` are the groups of `commits`: one per height, in ascending
/// order of height, each with the latest value of each field.
pub open spec fn groups_described(commits: Seq<CommitEntry>, needed: Seq<Seq<char>>, gs: Seq<HeightGroup>) -> bool {
    &&& forall|k: int| 0 <= k < gs.len() ==> has_height(commits, needed, (#[trigger] gs[k]).height as int) && group_matches(commits, needed, gs[k])
    &&& forall|j: int, k: int| 0 <= j < k < gs.len() ==> gs[j].height < gs[k].height
    &&& forall|i: int| 0 <= i < commits.len() && #[trigger] kept(commits[i], needed)
        ==> exists|k: int| 0 <= k < gs.len() && at_height(commits[i], (#[trigger] gs[k]).height as int)
}

/// What `latest` gives is a commit that takes part in grouping, at that
/// height, for that field.
pub proof fn lemma_latest_some(commits: Seq<CommitEntry>, needed: Seq<Seq<char>>, h: int, f: Seq<char>, n: int)
    requires
        n <= commits.len(),
        latest(commits, needed, h, f, n) is Some,
    ensures
        ({
            let i = latest(commits, needed, h, f, n)->0;
            0 <= i < n && kept(commits[i], needed) && at_height(commits[i], h) && named(commits[i], f)
        }),
    decreases n,
{
    if n > 0 && !(kept(commits[n - 1], needed) && at_height(commits[n - 1], h) && named(commits[n - 1], f)) {
        lemma_latest_some(commits, needed, h, f, n - 1);
    }
}

fn is_kept(c: &CommitEntry, needed: &Vec<String>) -> (res: bool)
    ensures
        res == kept(*c, views(needed@)),
{
    match &c.field_name {
        None => false,
        Some(f) => {
            let listed = contains_name(needed, f.as_str());
            let height_ok = match c.height {
                Some(h) => h >= 0,
                None => false,
            };
            listed && height_ok && c.value.is_some()
        },
    }
}

fn find_field(values: &Vec<FieldCommit>, f: &str) -> (res: Option<usize>)
    ensures
        match res {
            Some(j) => j < values@.len() && values@[j as int].field_name@ == f@,
            None => forall|j: int| 0 <= j < values@.len() ==> (#[trigger] values@[j]).field_name@ != f@,
        },
{
    let mut j: usize = 0;
    while j < values.len()
        invariant
            0 <= j <= values@.len(),
            forall|k: int| 0 <= k < j ==> (#[trigger] values@[k]).field_name@ != f@,
        decreases values.len() - j,
    {
        if str_eq(values[j].field_name.as_str(), f) {
            return Some(j);
        }
        j += 1;
    }
    None
}

/// The latest value of each needed field updated at height `h`.
fn collect_height(commits: &Vec<CommitEntry>, needed: &Vec<String>, h: i64) -> (res: Vec<FieldCommit>)
    requires
        h >= 0,
    ensures
        values_match_upto(commits@, views(needed@), h as int, res@, commits@.len() as int),
{
    let ghost nd = views(needed@);
    let mut values: Vec<FieldCommit> = Vec::new();
    let mut i: usize = 0;
    proof { reveal(values_match_upto); }
    while i < commits.len()
        invariant
            nd == views(needed@),
            0 <= i <= commits@.len(),
            values_match_upto(commits@, nd, h as int, values@, i as int),
        decreases commits.len() - i,
    {
        proof { reveal(values_match_upto); }
        let c = &commits[i];
        let take = is_kept(c, needed) && match c.height {
            Some(x) => x == h,
            None => false,
        };
        if take {
            let f = match &c.field_name {
                Some(f) => f,
                None => {
                    return values;
                },
            };
            let ghost before = values@;
            let entry = FieldCommit { field_name: f.clone(), commit: i };
            let ghost mut pos: int = 0;
            match find_field(&values, f.as_str()) {
                Some(j) => {
                    values.set(j, entry);
                    proof { pos = j as int; }
                },
                None => {
                    values.push(entry);
                    proof { pos = values@.len() - 1; }
                },
            }
            assert(0 <= pos < values@.len() && values@[pos].field_name@ == f@ && values@[pos].commit == i);
            proof {
                assert forall|k: int| 0 <= k < values@.len()
                    implies latest(commits@, nd, h as int, (#[trigger] values@[k]).field_name@, i + 1) == Some(values@[k].commit as int) by {
                    if values@[k].field_name@ != f@ {
                        assert(values@[k] == before[k]);
                    }
                }
                assert forall|i2: int| 0 <= i2 < i + 1 && kept(commits@[i2], nd) && #[trigger] at_height(commits@[i2], h as int)
                    implies exists|j: int| 0 <= j < values@.len() && named(commits@[i2], (#[trigger] values@[j]).field_name@) by {
                    if i2 == i {
                        assert(named(commits@[i2], values@[pos].field_name@));
                    } else {
                        let j = choose|j: int| 0 <= j < before.len() && named(commits@[i2], (#[trigger] before[j]).field_name@);
                        if values@[j].field_name@ == before[j].field_name@ {
                            assert(named(commits@[i2], values@[j].field_name@));
                        } else {
                            assert(named(commits@[i2], values@[pos].field_name@));
                        }
                    }
                }
            }
        }
        i += 1;
    }
    values
}

/// Whether every height of `hs` is one at which some commit takes part in
/// grouping.
#[verifier::opaque]
spec fn heights_listed(commits: Seq<CommitEntry>, nd: Seq<Seq<char>>, hs: Seq<i64>) -> bool {
    forall|k: int| 0 <= k < hs.len() ==> (#[trigger] hs[k]) >= 0 && has_height(commits, nd, hs[k] as int)
}

/// Whether the height of every commit that takes part in grouping is in `hs`.
#[verifier::opaque]
spec fn heights_cover(commits: Seq<CommitEntry>, nd: Seq<Seq<char>>, hs: Seq<i64>) -> bool {
    forall|i: int| 0 <= i < commits.len() && #[trigger] kept(commits[i], nd)
        ==> exists|k: int| 0 <= k < hs.len() && at_height(commits[i], (#[trigger] hs[k]) as int)
}

/// Whether every height of `hs` up to `last` has a group in `out`.
#[verifier::opaque]
spec fn groups_cover(hs: Seq<i64>, out: Seq<HeightGroup>, last: Option<i64>) -> bool {
    forall|k: int| 0 <= k < hs.len() && !above(#[trigger] hs[k], last)
        ==> exists|j: int| 0 <= j < out.len() && (#[trigger] out[j]).height as int == hs[k] as int
}

/// The heights of the commits that take part in grouping, in commit order.
fn kept_heights(commits: &Vec<CommitEntry>, needed: &Vec<String>) -> (res: Vec<i64>)
    ensures
        heights_listed(commits@, views(needed@), res@),
        heights_cover(commits@, views(needed@), res@),
{
    let ghost nd = views(needed@);
    let mut hs: Vec<i64> = Vec::new();
    let mut i: usize = 0;
    proof { reveal(heights_listed); }
    while i < commits.len()
        invariant
            nd == views(needed@),
            0 <= i <= commits@.len(),
            heights_listed(commits@, nd, hs@),
            forall|i2: int| 0 <= i2 < i && #[trigger] kept(commits@[i2], nd)
                ==> exists|k: int| 0 <= k < hs@.len() && at_height(commits@[i2], (#[trigger] hs@[k]) as int),
        decreases commits.len() - i,
    {
        if is_kept(&commits[i], needed) {
            match commits[i].height {
                Some(h) => {
                    let ghost before = hs@;
                    hs.push(h);
                    proof {
                        reveal(heights_listed);
                        assert(at_height(commits@[i as int], h as int));
                        assert(hs@[hs@.len() - 1] == h);
                        assert forall|k: int| 0 <= k < hs@.len() implies (#[trigger] hs@[k]) >= 0 && has_height(commits@, nd, hs@[k] as int) by {
                            if k < before.len() {
                                assert(hs@[k] == before[k]);
                            }
                        }
                        assert forall|i2: int| 0 <= i2 < i + 1 && #[trigger] kept(commits@[i2], nd)
                            implies exists|k: int| 0 <= k < hs@.len() && at_height(commits@[i2], (#[trigger] hs@[k]) as int) by {
                            if i2 < i {
                                let k = choose|k: int| 0 <= k < before.len() && at_height(commits@[i2], (#[trigger] before[k]) as int);
                                assert(hs@[k] == before[k]);
                            } else {
                                assert(at_height(commits@[i2], hs@[hs@.len() - 1] as int));
                            }
                        }
                    }
                },
                None => {},
            }
        }
        i += 1;
    }
    proof { reveal(heights_cover); }
    hs
}

/// Groups the commits that update one of `fields` by height, in ascending
/// order of height; at each height the last commit of a field gives its
/// value. Commits without a field name, with a negative or missing height,
/// or whose delta did not decode, are left out.
pub fn group_commit_values_by_height(commits: &Vec<CommitEntry>, fields: &Vec<String>) -> (res: Vec<HeightGroup>)
    ensures
        groups_described(commits@, views(fields@), res@),
{
    let ghost nd = views(fields@);
    let hs = kept_heights(commits, fields);
    let mut out: Vec<HeightGroup> = Vec::new();
    let mut last: Option<i64> = None;
    proof { reveal(groups_cover); }
    loop
        invariant
            nd == views(fields@),
            heights_listed(commits@, nd, hs@),
            heights_cover(commits@, nd, hs@),
            forall|k: int| 0 <= k < out@.len() ==> has_height(commits@, nd, (#[trigger] out@[k]).height as int) && group_matches(commits@, nd, out@[k]),
            forall|j: int, k: int| 0 <= j < k < out@.len() ==> out@[j].height < out@[k].height,
            forall|k: int| 0 <= k < out@.len() ==> (#[trigger] out@[k]).height <= i64::MAX && !above(out@[k].height as i64, last),
            last is None ==> out@.len() == 0,
            groups_cover(hs@, out@, last),
        ensures
            forall|k: int| 0 <= k < hs@.len() ==> !above(#[trigger] hs@[k], last),
        decreases num_above(hs@, last),
    {
        let cur = match next_bucket(&hs, last) {
            Some(c) => c,
            None => {
                break;
            },
        };
        proof {
            lemma_num_above_decreases(hs@, last, cur);
        }
        let ghost wi = choose|k: int| 0 <= k < hs@.len() && hs@[k] == cur;
        assert(cur >= 0 && has_height(commits@, nd, cur as int)) by {
            reveal(heights_listed);
            assert(hs@[wi] >= 0);
        }
        let values = collect_height(commits, fields, cur);
        let g = HeightGroup { height: cur as u64, values };
        let ghost before = out@;
        out.push(g);
        proof {
            reveal(groups_cover);
            assert(out@[out@.len() - 1].height == cur as u64);
            assert forall|k: int| 0 <= k < hs@.len() && !above(#[trigger] hs@[k], Some(cur))
                implies exists|j: int| 0 <= j < out@.len() && (#[trigger] out@[j]).height as int == hs@[k] as int by {
                if hs@[k] == cur {
                    assert(out@[out@.len() - 1].height as int == hs@[k] as int);
                } else {
                    let j = choose|j: int| 0 <= j < before.len() && (#[trigger] before[j]).height as int == hs@[k] as int;
                    assert(out@[j] == before[j]);
                }
            }
            assert forall|k: int| 0 <= k < out@.len() implies has_height(commits@, nd, (#[trigger] out@[k]).height as int)
                && group_matches(commits@, nd, out@[k]) by {
                if k < before.len() {
                    assert(out@[k] == before[k]);
                }
            }
            assert forall|k: int| 0 <= k < out@.len() implies (#[trigger] out@[k]).height <= i64::MAX && !above(out@[k].height as i64, Some(cur)) by {
                if k < before.len() {
                    assert(out@[k] == before[k]);
                }
            }
        }
        last = Some(cur);
    }
    proof {
        reveal(groups_cover);
        reveal(heights_cover);
        assert forall|i: int| 0 <= i < commits@.len() && #[trigger] kept(commits@[i], nd)
            implies exists|k: int| 0 <= k < out@.len() && at_height(commits@[i], (#[trigger] out@[k]).height as int) by {
            let k = choose|k: int| 0 <= k < hs@.len() && at_height(commits@[i], (#[trigger] hs@[k]) as int);
            let j = choose|j: int| 0 <= j < out@.len() && (#[trigger] out@[j]).height as int == hs@[k] as int;
            assert(at_height(commits@[i], out@[j].height as int));
        }
    }
    out
}


/// The fields a sample is read from, as values.
pub enum RuleView {
    /// Raw documents: the time field and the numeric measure field.
    Raw(Seq<char>, Seq<char>),
    /// Another downsample collection: its time field, and whether its
    /// count, sum, min and max are read.
    Rollup(Seq<char>, bool, bool, bool, bool),
}

/// `[n]` when `b` holds, else nothing.
pub open spec fn name_if(b: bool, n: Seq<char>) -> Seq<Seq<char>> {
    if b { seq![n] } else { Seq::empty() }
}

/// The fields whose commits are grouped to read samples by rule `r`.
pub open spec fn rule_needed(r: RuleView) -> Seq<Seq<char>> {
    match r {
        RuleView::Raw(t, m) => seq![t, m],
        RuleView::Rollup(t, c, s, mi, ma) => seq![t, "window_end"@] + name_if(c, "count"@) + name_if(s, "sum"@)
            + name_if(mi, "min"@) + name_if(ma, "max"@),
    }
}

/// The latest decoded value of field `f` at height `h`.
pub open spec fn value_at(commits: Seq<CommitEntry>, needed: Seq<Seq<char>>, h: int, f: Seq<char>) -> Option<DeltaValue> {
    match latest(commits, needed, h, f, commits.len() as int) {
        Some(i) => commits[i].value,
        None => None,
    }
}

/// Whether the latest value of field `f` at height `h` is a time.
pub open spec fn time_at(commits: Seq<CommitEntry>, needed: Seq<Seq<char>>, h: int, f: Seq<char>) -> bool {
    value_at(commits, needed, h, f) matches Some(v) && v.is_time
}

/// Whether the latest value of field `f` at height `h` is a number.
pub open spec fn numeric_at(commits: Seq<CommitEntry>, needed: Seq<Seq<char>>, h: int, f: Seq<char>) -> bool {
    value_at(commits, needed, h, f) matches Some(v) && v.is_numeric
}

/// Whether the latest value of field `f` at height `h` is an integer.
pub open spec fn int_at(commits: Seq<CommitEntry>, needed: Seq<Seq<char>>, h: int, f: Seq<char>) -> bool {
    value_at(commits, needed, h, f) matches Some(v) && v.int_value is Some
}

/// The message of a sample that cannot be read at height `h`.
pub open spec fn height_msg(source: Seq<char>, detail: Seq<char>, h: int) -> Seq<char> {
    "downsample source '"@ + source + "."@ + detail + " at commit height "@ + decimal(h as nat)
}

/// Why the sample at height `h` of source `source` cannot be read by rule
/// `r`, if it cannot.
pub open spec fn sample_failure(commits: Seq<CommitEntry>, source: Seq<char>, r: RuleView, h: int) -> Option<Seq<char>> {
    let nd = rule_needed(r);
    match r {
        RuleView::Raw(t, m) => if !time_at(commits, nd, h, t) {
            Some(height_msg(source, t + "' must be updated alongside '"@ + m + "'"@, h))
        } else if !numeric_at(commits, nd, h, m) {
            Some(height_msg(source, m + "' must be numeric"@, h))
        } else {
            None
        },
        RuleView::Rollup(t, c, s, mi, ma) => if !time_at(commits, nd, h, t) {
            Some(height_msg(source, t + "' must be present"@, h))
        } else if !time_at(commits, nd, h, "window_end"@) {
            Some(height_msg(source, "window_end' must be present"@, h))
        } else if c && !int_at(commits, nd, h, "count"@) {
            Some(height_msg(source, "count' must be present"@, h))
        } else if s && !numeric_at(commits, nd, h, "sum"@) {
            Some(height_msg(source, "sum"@ + "' must be numeric"@, h))
        } else if mi && !numeric_at(commits, nd, h, "min"@) {
            Some(height_msg(source, "min"@ + "' must be numeric"@, h))
        } else if ma && !numeric_at(commits, nd, h, "max"@) {
            Some(height_msg(source, "max"@ + "' must be numeric"@, h))
        } else {
            None
        },
    }
}

/// A sample of the source at one commit height. Its time, the end of the
/// window it covers and its numeric values are each given by the index of
/// the commit that holds them; `count` is the number of raw samples it
/// stands for.
#[derive(Debug)]
pub struct SourceSample {
    pub height: u64,
    pub time: usize,
    pub coverage_end: Option<usize>,
    pub count: i64,
    pub sum: Option<usize>,
    pub min: Option<usize>,
    pub max: Option<usize>,
}

/// Whether `x` refers to commit `l` when `b` holds, and is `None` otherwise.
pub open spec fn ref_matches(b: bool, x: Option<usize>, l: Option<int>) -> bool {
    if b {
        x matches Some(i) && l == Some(i as int)
    } else {
        x is None
    }
}

/// Whether `s` is the sample read by rule `r` at its height.
pub open spec fn sample_matches(commits: Seq<CommitEntry>, r: RuleView, s: SourceSample) -> bool {
    let nd = rule_needed(r);
    let h = s.height as int;
    let n = commits.len() as int;
    match r {
        RuleView::Raw(t, m) => {
            &&& latest(commits, nd, h, t, n) == Some(s.time as int)
            &&& s.coverage_end is None
            &&& s.count == 1
            &&& s.sum matches Some(x) && latest(commits, nd, h, m, n) == Some(x as int)
            &&& s.min == s.sum
            &&& s.max == s.sum
        },
        RuleView::Rollup(t, c, su, mi, ma) => {
            &&& latest(commits, nd, h, t, n) == Some(s.time as int)
            &&& s.coverage_end matches Some(e) && latest(commits, nd, h, "window_end"@, n) == Some(e as int)
            &&& s.count == (if c { value_at(commits, nd, h, "count"@)->0.int_value->0 } else { 0 })
            &&& ref_matches(su, s.sum, latest(commits, nd, h, "sum"@, n))
            &&& ref_matches(mi, s.min, latest(commits, nd, h, "min"@, n))
            &&& ref_matches(ma, s.max, latest(commits, nd, h, "max"@, n))
        },
    }
}

/// Whether `ss` are the samples of `commits` by rule `r`: one per height,
/// in ascending order of height.
pub open spec fn samples_described(commits: Seq<CommitEntry>, r: RuleView, ss: Seq<SourceSample>) -> bool {
    let nd = rule_needed(r);
    &&& forall|k: int| 0 <= k < ss.len() ==> has_height(commits, nd, (#[trigger] ss[k]).height as int) && sample_matches(commits, r, ss[k])
    &&& forall|j: int, k: int| 0 <= j < k < ss.len() ==> ss[j].height < ss[k].height
    &&& forall|i: int| 0 <= i < commits.len() && #[trigger] kept(commits[i], nd)
        ==> exists|k: int| 0 <= k < ss.len() && at_height(commits[i], (#[trigger] ss[k]).height as int)
}

/// What reading the samples of `commits` by rule `r` gives: the failure at
/// the lowest height that has one, or else every sample.
pub open spec fn samples_outcome(commits: Seq<CommitEntry>, source: Seq<char>, r: RuleView, res: Result<Vec<SourceSample>, Error>) -> bool {
    let nd = rule_needed(r);
    if exists|h: int| #[trigger] has_height(commits, nd, h) && sample_failure(commits, source, r, h) is Some {
        res matches Err(Error::Other(e)) && exists|h: int| #[trigger] has_height(commits, nd, h)
            && sample_failure(commits, source, r, h) == Some(e@)
            && forall|h2: int| #[trigger] has_height(commits, nd, h2) && sample_failure(commits, source, r, h2) is Some ==> h <= h2
    } else {
        res matches Ok(ss) && samples_described(commits, r, ss@)
    }
}

/// The commit that holds the latest value of `f` in group `g`.
fn group_value(commits: &Vec<CommitEntry>, needed: Ghost<Seq<Seq<char>>>, g: &HeightGroup, f: &str) -> (res: Option<usize>)
    requires
        group_matches(commits@, needed@, *g),
    ensures
        match res {
            Some(i) => latest(commits@, needed@, g.height as int, f@, commits@.len() as int) == Some(i as int),
            None => latest(commits@, needed@, g.height as int, f@, commits@.len() as int) is None,
        },
{
    proof { reveal(values_match_upto); }
    match find_field(&g.values, f) {
        Some(j) => Some(g.values[j].commit),
        None => {
            proof {
                let l = latest(commits@, needed@, g.height as int, f@, commits@.len() as int);
                if l is Some {
                    lemma_latest_some(commits@, needed@, g.height as int, f@, commits@.len() as int);
                    let i = l->0;
                    let j = choose|j: int| 0 <= j < g.values@.len() && named(commits@[i], (#[trigger] g.values@[j]).field_name@);
                    assert(g.values@[j].field_name@ != f@);
                }
            }
            None
        },
    }
}

/// The decoded value of commit `i`, the latest of field `f` at height `h`.
fn value_of(commits: &Vec<CommitEntry>, needed: Ghost<Seq<Seq<char>>>, h: Ghost<int>, f: Ghost<Seq<char>>, i: usize) -> (res: DeltaValue)
    requires
        latest(commits@, needed@, h@, f@, commits@.len() as int) == Some(i as int),
    ensures
        value_at(commits@, needed@, h@, f@) == Some(res),
{
    proof { lemma_latest_some(commits@, needed@, h@, f@, commits@.len() as int); }
    match commits[i].value {
        Some(v) => v,
        None => DeltaValue { is_time: false, is_numeric: false, int_value: None },
    }
}

/// The error for a sample that cannot be read at height `h`.
fn height_error(source: &str, detail: &str, h: u64) -> (res: Error)
    ensures
        res matches Error::Other(e) && e@ == height_msg(source@, detail@, h as int),
{
    let mut m = String::from_str("downsample source '");
    m.append(source);
    m.append(".");
    m.append(detail);
    m.append(" at commit height ");
    m.append(u64_to_decimal(h).as_str());
    Error::Other(m)
}


/// How samples are read, with the names of the fields involved.
enum SampleRule {
    Raw { time_field: String, measure_field: String },
    Rollup { time_field: String, count: bool, sum: bool, min: bool, max: bool },
}

spec fn rule_view(r: SampleRule) -> RuleView {
    match r {
        SampleRule::Raw { time_field, measure_field } => RuleView::Raw(time_field@, measure_field@),
        SampleRule::Rollup { time_field, count, sum, min, max } => RuleView::Rollup(time_field@, count, sum, min, max),
    }
}

fn push_name_if(v: &mut Vec<String>, b: bool, n: &str)
    ensures
        views(final(v)@) == views(old(v)@) + name_if(b, n@),
{
    let ghost before = v@;
    if b {
        v.push(String::from_str(n));
        assert(views(v@) =~= views(before) + name_if(b, n@));
    } else {
        assert(views(v@) =~= views(before) + name_if(b, n@));
    }
}

/// The names of the fields that rule `r` reads.
fn rule_fields(r: &SampleRule) -> (res: Vec<String>)
    ensures
        views(res@) == rule_needed(rule_view(*r)),
{
    match r {
        SampleRule::Raw { time_field, measure_field } => {
            let mut v: Vec<String> = Vec::new();
            v.push(time_field.clone());
            v.push(measure_field.clone());
            assert(views(v@) =~= seq![time_field@, measure_field@]);
            v
        },
        SampleRule::Rollup { time_field, count, sum, min, max } => {
            let mut v: Vec<String> = Vec::new();
            v.push(time_field.clone());
            v.push(String::from_str("window_end"));
            assert(views(v@) =~= seq![time_field@, "window_end"@]);
            push_name_if(&mut v, *count, "count");
            push_name_if(&mut v, *sum, "sum");
            push_name_if(&mut v, *min, "min");
            push_name_if(&mut v, *max, "max");
            v
        },
    }
}

/// The commit of the latest value of `f` in `g` when that value is a time.
fn time_ref(commits: &Vec<CommitEntry>, needed: Ghost<Seq<Seq<char>>>, g: &HeightGroup, f: &str) -> (res: Option<usize>)
    requires
        group_matches(commits@, needed@, *g),
    ensures
        match res {
            Some(i) => time_at(commits@, needed@, g.height as int, f@)
                && latest(commits@, needed@, g.height as int, f@, commits@.len() as int) == Some(i as int),
            None => !time_at(commits@, needed@, g.height as int, f@),
        },
{
    match group_value(commits, needed, g, f) {
        Some(i) => {
            if value_of(commits, needed, Ghost(g.height as int), Ghost(f@), i).is_time { Some(i) } else { None }
        },
        None => None,
    }
}

/// The commit of the latest value of `f` in `g` when that value is a number.
fn numeric_ref(commits: &Vec<CommitEntry>, needed: Ghost<Seq<Seq<char>>>, g: &HeightGroup, f: &str) -> (res: Option<usize>)
    requires
        group_matches(commits@, needed@, *g),
    ensures
        match res {
            Some(i) => numeric_at(commits@, needed@, g.height as int, f@)
                && latest(commits@, needed@, g.height as int, f@, commits@.len() as int) == Some(i as int),
            None => !numeric_at(commits@, needed@, g.height as int, f@),
        },
{
    match group_value(commits, needed, g, f) {
        Some(i) => {
            if value_of(commits, needed, Ghost(g.height as int), Ghost(f@), i).is_numeric { Some(i) } else { None }
        },
        None => None,
    }
}

/// The latest value of `f` in `g` when that value is an integer.
fn int_value(commits: &Vec<CommitEntry>, needed: Ghost<Seq<Seq<char>>>, g: &HeightGroup, f: &str) -> (res: Option<i64>)
    requires
        group_matches(commits@, needed@, *g),
    ensures
        match res {
            Some(x) => int_at(commits@, needed@, g.height as int, f@)
                && value_at(commits@, needed@, g.height as int, f@)->0.int_value == Some(x),
            None => !int_at(commits@, needed@, g.height as int, f@),
        },
{
    match group_value(commits, needed, g, f) {
        Some(i) => value_of(commits, needed, Ghost(g.height as int), Ghost(f@), i).int_value,
        None => None,
    }
}

/// The commit of the latest numeric value of `f` in `g` when `wanted`; the
/// error names the field when that value is missing or not a number.
fn wanted_numeric(commits: &Vec<CommitEntry>, needed: Ghost<Seq<Seq<char>>>, g: &HeightGroup, source: &str, wanted: bool, f: &str)
    -> (res: Result<Option<usize>, Error>)
    requires
        group_matches(commits@, needed@, *g),
    ensures
        match res {
            Ok(x) => !(wanted && !numeric_at(commits@, needed@, g.height as int, f@))
                && ref_matches(wanted, x, latest(commits@, needed@, g.height as int, f@, commits@.len() as int)),
            Err(e) => wanted && !numeric_at(commits@, needed@, g.height as int, f@)
                && (e matches Error::Other(m) && m@ == height_msg(source@, f@ + "' must be numeric"@, g.height as int)),
        },
{
    if !wanted {
        return Ok(None);
    }
    match numeric_ref(commits, needed, g, f) {
        Some(i) => Ok(Some(i)),
        None => Err(height_error(source, cat2(f, "' must be numeric").as_str(), g.height)),
    }
}

/// The sample read by `rule` from group `g`.
fn sample_at(commits: &Vec<CommitEntry>, source: &str, rule: &SampleRule, g: &HeightGroup) -> (res: Result<SourceSample, Error>)
    requires
        group_matches(commits@, rule_needed(rule_view(*rule)), *g),
    ensures
        match sample_failure(commits@, source@, rule_view(*rule), g.height as int) {
            Some(m) => res matches Err(Error::Other(e)) && e@ == m,
            None => res matches Ok(s) && s.height == g.height && sample_matches(commits@, rule_view(*rule), s),
        },
{
    let ghost nd = rule_needed(rule_view(*rule));
    match rule {
        SampleRule::Raw { time_field, measure_field } => {
            let time = match time_ref(commits, Ghost(nd), g, time_field.as_str()) {
                Some(i) => i,
                None => {
                    let detail = cat4(time_field.as_str(), "' must be updated alongside '", measure_field.as_str(), "'");
                    return Err(height_error(source, detail.as_str(), g.height));
                },
            };
            let measure = match numeric_ref(commits, Ghost(nd), g, measure_field.as_str()) {
                Some(i) => i,
                None => {
                    let detail = cat2(measure_field.as_str(), "' must be numeric");
                    return Err(height_error(source, detail.as_str(), g.height));
                },
            };
            Ok(SourceSample {
                height: g.height,
                time,
                coverage_end: None,
                count: 1,
                sum: Some(measure),
                min: Some(measure),
                max: Some(measure),
            })
        },
        SampleRule::Rollup { time_field, count, sum, min, max } => {
            let time = match time_ref(commits, Ghost(nd), g, time_field.as_str()) {
                Some(i) => i,
                None => {
                    let detail = cat2(time_field.as_str(), "' must be present");
                    return Err(height_error(source, detail.as_str(), g.height));
                },
            };
            let coverage_end = match time_ref(commits, Ghost(nd), g, "window_end") {
                Some(i) => i,
                None => {
                    return Err(height_error(source, "window_end' must be present", g.height));
                },
            };
            let n = if *count {
                match int_value(commits, Ghost(nd), g, "count") {
                    Some(x) => x,
                    None => {
                        return Err(height_error(source, "count' must be present", g.height));
                    },
                }
            } else {
                0
            };
            let s = wanted_numeric(commits, Ghost(nd), g, source, *sum, "sum");
            let s = match s { Ok(x) => x, Err(e) => { return Err(e); } };
            let lo = wanted_numeric(commits, Ghost(nd), g, source, *min, "min");
            let lo = match lo { Ok(x) => x, Err(e) => { return Err(e); } };
            let hi = wanted_numeric(commits, Ghost(nd), g, source, *max, "max");
            let hi = match hi { Ok(x) => x, Err(e) => { return Err(e); } };
            Ok(SourceSample { height: g.height, time, coverage_end: Some(coverage_end), count: n, sum: s, min: lo, max: hi })
        },
    }
}


/// The samples of `commits` read by `rule`, one per height in ascending
/// order, or the failure at the lowest height that has one.
fn collect_samples(commits: &Vec<CommitEntry>, source: &str, rule: &SampleRule) -> (res: Result<Vec<SourceSample>, Error>)
    ensures
        samples_outcome(commits@, source@, rule_view(*rule), res),
{
    let ghost rv = rule_view(*rule);
    let ghost nd = rule_needed(rv);
    let fields = rule_fields(rule);
    let groups = group_commit_values_by_height(commits, &fields);
    let mut out: Vec<SourceSample> = Vec::new();
    let mut k: usize = 0;
    while k < groups.len()
        invariant
            rv == rule_view(*rule),
            nd == rule_needed(rv),
            groups_described(commits@, nd, groups@),
            0 <= k <= groups@.len(),
            out@.len() == k,
            forall|j: int| 0 <= j < k ==> sample_failure(commits@, source@, rv, (#[trigger] groups@[j]).height as int) is None,
            forall|j: int| 0 <= j < k ==> (#[trigger] out@[j]).height == groups@[j].height && sample_matches(commits@, rv, out@[j]),
        decreases groups.len() - k,
    {
        match sample_at(commits, source, rule, &groups[k]) {
            Ok(smp) => {
                let ghost before = out@;
                out.push(smp);
                proof {
                    assert forall|j: int| 0 <= j < k + 1 implies (#[trigger] out@[j]).height == groups@[j].height
                        && sample_matches(commits@, rv, out@[j]) by {
                        if j < k {
                            assert(out@[j] == before[j]);
                        }
                    }
                }
            },
            Err(e) => {
                proof {
                    let h = groups@[k as int].height as int;
                    assert(has_height(commits@, nd, h));
                    assert forall|h2: int| #[trigger] has_height(commits@, nd, h2) && sample_failure(commits@, source@, rv, h2) is Some
                        implies h <= h2 by {
                        let i = choose|i: int| 0 <= i < commits@.len() && kept(commits@[i], nd) && #[trigger] at_height(commits@[i], h2);
                        let j = choose|j: int| 0 <= j < groups@.len() && at_height(commits@[i], (#[trigger] groups@[j]).height as int);
                        assert(groups@[j].height as int == h2);
                        if j < k {
                            assert(sample_failure(commits@, source@, rv, groups@[j].height as int) is None);
                        } else if j > k {
                            assert(groups@[k as int].height < groups@[j].height);
                        }
                    }
                }
                return Err(e);
            },
        }
        k += 1;
    }
    proof {
        assert forall|h: int| #[trigger] has_height(commits@, nd, h) implies sample_failure(commits@, source@, rv, h) is None by {
            let i = choose|i: int| 0 <= i < commits@.len() && kept(commits@[i], nd) && #[trigger] at_height(commits@[i], h);
            let j = choose|j: int| 0 <= j < groups@.len() && at_height(commits@[i], (#[trigger] groups@[j]).height as int);
            assert(groups@[j].height as int == h);
        }
        assert forall|k2: int| 0 <= k2 < out@.len() implies has_height(commits@, nd, (#[trigger] out@[k2]).height as int)
            && sample_matches(commits@, rv, out@[k2]) by {
            assert(out@[k2].height == groups@[k2].height);
        }
        assert forall|j: int, k2: int| 0 <= j < k2 < out@.len() implies out@[j].height < out@[k2].height by {
            assert(out@[j].height == groups@[j].height);
            assert(out@[k2].height == groups@[k2].height);
        }
        assert forall|i: int| 0 <= i < commits@.len() && #[trigger] kept(commits@[i], nd)
            implies exists|k2: int| 0 <= k2 < out@.len() && at_height(commits@[i], (#[trigger] out@[k2]).height as int) by {
            let j = choose|j: int| 0 <= j < groups@.len() && at_height(commits@[i], (#[trigger] groups@[j]).height as int);
            assert(out@[j].height == groups@[j].height);
        }
    }
    Ok(out)
}


/// The rule by which a downsample collection with aggregates `aggs` is read
/// as a source: count when it has a count or an average, sum when it has a
/// sum or an average, and min and max when it has them.
pub open spec fn rollup_rule(time: Seq<char>, aggs: Seq<AggregateField>) -> RuleView {
    RuleView::Rollup(
        time,
        aggs.contains(AggregateField::Count) || aggs.contains(AggregateField::Avg),
        aggs.contains(AggregateField::Sum) || aggs.contains(AggregateField::Avg),
        aggs.contains(AggregateField::Min),
        aggs.contains(AggregateField::Max),
    )
}

/// The rule by which the source of `plan` is read.
pub open spec fn plan_rule(plan: DownsamplePlan) -> RuleView {
    match plan.source_kind {
        SourceKind::Raw { measure_field } => RuleView::Raw(plan.time_field@, measure_field@),
        SourceKind::Downsample => rollup_rule(plan.time_field@, plan.aggregate_fields@),
    }
}

/// Whether `aggs` has `a`.
fn has_aggregate(aggs: &Vec<AggregateField>, a: AggregateField) -> (res: bool)
    ensures
        res == aggs@.contains(a),
{
    let mut i: usize = 0;
    while i < aggs.len()
        invariant
            0 <= i <= aggs@.len(),
            forall|k: int| 0 <= k < i ==> aggs@[k] != a,
        decreases aggs.len() - i,
    {
        if aggs[i] == a {
            assert(aggs@[i as int] == a);
            return true;
        }
        i += 1;
    }
    false
}

/// Reads one sample per commit height of a raw source: the latest time
/// value and the latest value of `measure_field` at that height. A height
/// where the time is missing or is not a time, or where the measure is
/// missing or is not a number, fails, and the lowest such height is
/// reported.
pub fn build_raw_source_samples(
    plan: &DownsamplePlan,
    source: &CollectionVersion,
    measure_field: &str,
    commits: &Vec<CommitEntry>,
) -> (res: Result<Vec<SourceSample>, Error>)
    ensures
        samples_outcome(commits@, source.name@, RuleView::Raw(plan.time_field@, measure_field@), res),
{
    let rule = SampleRule::Raw { time_field: plan.time_field.clone(), measure_field: String::from_str(measure_field) };
    collect_samples(commits, source.name.as_str(), &rule)
}

/// Reads one sample per commit height of a source that is itself a
/// downsample collection: its time and window end, and the count, sum, min
/// and max that the plan's aggregates need (see `rollup_rule`). The lowest
/// height where one of them is missing or of the wrong kind is reported.
pub fn build_rollup_source_samples(
    plan: &DownsamplePlan,
    source: &CollectionVersion,
    commits: &Vec<CommitEntry>,
) -> (res: Result<Vec<SourceSample>, Error>)
    ensures
        samples_outcome(commits@, source.name@, rollup_rule(plan.time_field@, plan.aggregate_fields@), res),
{
    let avg = has_aggregate(&plan.aggregate_fields, AggregateField::Avg);
    let count = has_aggregate(&plan.aggregate_fields, AggregateField::Count) || avg;
    let sum = has_aggregate(&plan.aggregate_fields, AggregateField::Sum) || avg;
    let min = has_aggregate(&plan.aggregate_fields, AggregateField::Min);
    let max = has_aggregate(&plan.aggregate_fields, AggregateField::Max);
    let rule = SampleRule::Rollup { time_field: plan.time_field.clone(), count, sum, min, max };
    collect_samples(commits, source.name.as_str(), &rule)
}

/// Reads the samples of the source of `plan`, by the rule of its kind.
pub fn build_source_samples(
    plan: &DownsamplePlan,
    source: &CollectionVersion,
    commits: &Vec<CommitEntry>,
) -> (res: Result<Vec<SourceSample>, Error>)
    ensures
        samples_outcome(commits@, source.name@, plan_rule(*plan), res),
{
    match &plan.source_kind {
        SourceKind::Raw { measure_field } => build_raw_source_samples(plan, source, measure_field.as_str(), commits),
        SourceKind::Downsample => build_rollup_source_samples(plan, source, commits),
    }
}

} // verus!
