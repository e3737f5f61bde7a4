//! Writing a window into its downsample document: which fields are set, to
//! what, and which of them are written even when unchanged; plus the
//! decisions around it (which commits to read, which windows are closed).

use vstd::prelude::*;
use vstd::string::StringExecFns;
use crate::error::Error;
use crate::schema::{CollectionVersion, FieldKind, ScalarKind};
use crate::downsample::{AggregateField, aggregate_field_name, aggregate_name};
use crate::downsample_plan::{field_of, lookup_field, missing_field, missing_field_msg};
use crate::text::{cat2, cat3, cat4, cat5, views};

verus! {

/// The heights of a source document's commits that are still to be read,
/// as a half-open range: none when the document has no commits yet
/// (`latest_priority` 0) or when the downsample document has already seen
/// them all (`processed_height`).
pub fn commit_range_to_process(latest_priority: u64, processed_height: u64) -> (res: Option<(u64, u64)>)
    requires
        latest_priority < u64::MAX,
    ensures
        latest_priority == 0 || processed_height >= latest_priority ==> res is None,
        !(latest_priority == 0 || processed_height >= latest_priority)
            ==> (res matches Some((a, b)) && a == processed_height + 1 && b == latest_priority + 1),
{
    if latest_priority == 0 || processed_height >= latest_priority {
        None
    } else {
        Some((processed_height + 1, latest_priority + 1))
    }
}

/// The height a downsample document has processed up to: its stored
/// `source_height` when that is a non-negative integer, else 0.
pub fn processed_height_of(stored: Option<i64>) -> (res: u64)
    ensures
        res == match stored {
            Some(v) => if v >= 0 { v as u64 } else { 0 },
            None => 0,
        },
{
    match stored {
        Some(v) => if v >= 0 { v as u64 } else { 0 },
        None => 0,
    }
}

/// The id of the series that a source document belongs to: its
/// `source_doc_id` field when that holds a string, else the document's own
/// id; a document with neither is refused.
pub fn series_doc_id(source_doc_id: Option<&str>, doc_id: Option<&str>) -> (res: Result<String, Error>)
    ensures
        match source_doc_id {
            Some(s) => res matches Ok(r) && r@ == s@,
            None => match doc_id {
                Some(d) => res matches Ok(r) && r@ == d@,
                None => res matches Err(Error::Other(m)) && m@ == "downsample source document is missing an id"@,
            },
        },
{
    match source_doc_id {
        Some(s) => Ok(String::from_str(s)),
        None => match doc_id {
            Some(d) => Ok(String::from_str(d)),
            None => Err(Error::Other(String::from_str("downsample source document is missing an id"))),
        },
    }
}

/// Refuses windows that do not come after the window a downsample document
/// already holds (late data for closed windows is not supported).
pub fn check_window_order(
    current_window_start: Option<i64>,
    first_window_start: i64,
    source_name: &str,
    series_doc_id: &str,
) -> (res: Result<(), Error>)
    ensures
        (current_window_start matches Some(c) && first_window_start <= c) ==> (res matches Err(Error::Other(m))
            && m@ == "downsample source '"@ + source_name@ + "' produced out-of-order timestamps for series '"@
                + series_doc_id@ + "'; late data for already-closed windows is not yet supported"@),
        !(current_window_start matches Some(c) && first_window_start <= c) ==> res is Ok,
{
    match current_window_start {
        Some(c) => {
            if first_window_start <= c {
                return Err(Error::Other(cat5(
                    "downsample source '",
                    source_name,
                    "' produced out-of-order timestamps for series '",
                    series_doc_id,
                    "'; late data for already-closed windows is not yet supported",
                )));
            }
            Ok(())
        },
        None => Ok(()),
    }
}

/// Refuses a write whose time falls in a window that is already closed:
/// `source_window_start` no later than `current_window_start`. The two
/// times are reported as `source_time` and `current_window` (their text).
pub fn check_late_data(
    source_window_start: i64,
    current_window_start: i64,
    source_name: &str,
    source_time: &str,
    current_window: &str,
) -> (res: Result<(), Error>)
    ensures
        source_window_start <= current_window_start ==> (res matches Err(Error::Other(m))
            && m@ == "late data is not accepted for downsample source '"@ + source_name@ + "': timestamp '"@
                + source_time@ + "' falls in closed bucket '"@ + current_window@ + "'"@),
        source_window_start > current_window_start ==> res is Ok,
{
    if source_window_start <= current_window_start {
        let head = cat5("late data is not accepted for downsample source '", source_name, "': timestamp '", source_time, "' falls in closed bucket '");
        Err(Error::Other(cat3(head.as_str(), current_window, "'")))
    } else {
        Ok(())
    }
}

/// A numeric aggregate of a window, as far as its storing depends on it: an
/// integer, or a floating-point value (which the caller holds).
#[derive(PartialEq, Eq, Structural, Clone, Copy, Debug)]
pub enum Numeric {
    Int(i64),
    Float,
}

/// What a window gives the downsample document, as far as the choice of
/// writes depends on it.
#[derive(Debug)]
pub struct WindowFacts {
    pub count: i64,
    pub source_height: i64,
    pub window_start: i64,
    pub window_end: i64,
    pub sum: Option<Numeric>,
    pub has_avg: bool,
    pub min: Option<Numeric>,
    pub max: Option<Numeric>,
}

/// The value a field is set to.
#[derive(PartialEq, Eq, Structural, Clone, Copy, Debug)]
pub enum WriteValue {
    /// The series' DocID, as text.
    SeriesId,
    /// An integer.
    Int(i64),
    /// A time, in nanoseconds since the epoch.
    Time(i64),
    /// The source document's value of the same field.
    FromSource,
    /// The window's value of this aggregate, stored as an integer.
    AggregateInt(AggregateField),
    /// The window's value of this aggregate, stored as a Float32.
    AggregateFloat32(AggregateField),
    /// The window's value of this aggregate, stored as a Float (64 bits).
    AggregateFloat64(AggregateField),
}

/// A field write: the field, its value, and whether it is written even
/// when the document already holds that value.
#[derive(Debug, PartialEq, Eq)]
pub struct FieldWrite {
    pub field: String,
    pub value: WriteValue,
    pub force: bool,
}

/// A field write, as values.
pub struct WriteSpec {
    pub field: Seq<char>,
    pub value: WriteValue,
    pub force: bool,
}

/// The values of a list of writes.
pub open spec fn write_specs(w: Seq<FieldWrite>) -> Seq<WriteSpec> {
    w.map_values(|x: FieldWrite| WriteSpec { field: x.field@, value: x.value, force: x.force })
}

/// How aggregate `a` with value `v` is stored in field `a` of `target`, or
/// why it cannot be.
pub open spec fn stored_numeric(target: CollectionVersion, a: AggregateField, v: Numeric) -> Result<WriteValue, Seq<char>> {
    let f = aggregate_name(a);
    match field_of(target, f) {
        None => Err(missing_field_msg(target.name@, f)),
        Some(fd) => match fd.kind {
            FieldKind::Scalar(ScalarKind::Int) => match v {
                Numeric::Int(x) => Ok(WriteValue::AggregateInt(a)),
                Numeric::Float => Err("downsample field '"@ + target.name@ + "."@ + f + "' can not store floating-point values"@),
            },
            FieldKind::Scalar(ScalarKind::Float32) => Ok(WriteValue::AggregateFloat32(a)),
            FieldKind::Scalar(ScalarKind::Float64) => Ok(WriteValue::AggregateFloat64(a)),
            _ => Err("downsample field '"@ + target.name@ + "."@ + f + "' must be numeric"@),
        },
    }
}

/// How the average is stored in field `avg` of `target`, or why it cannot be.
pub open spec fn stored_average(target: CollectionVersion) -> Result<WriteValue, Seq<char>> {
    let f = "avg"@;
    match field_of(target, f) {
        None => Err(missing_field_msg(target.name@, f)),
        Some(fd) => match fd.kind {
            FieldKind::Scalar(ScalarKind::Float32) => Ok(WriteValue::AggregateFloat32(AggregateField::Avg)),
            FieldKind::Scalar(ScalarKind::Float64) => Ok(WriteValue::AggregateFloat64(AggregateField::Avg)),
            _ => Err("downsample field '"@ + target.name@ + "."@ + f + "' must be Float or Float32"@),
        },
    }
}

/// The write for aggregate `a`, or why there is none.
pub open spec fn aggregate_write(target: CollectionVersion, w: WindowFacts, a: AggregateField) -> Result<WriteSpec, Seq<char>> {
    let missing = |article: Seq<char>| "downsample window for '"@ + target.name@ + "' is missing "@ + article + " "@ + aggregate_name(a) + " value"@;
    let stored = match a {
        AggregateField::Count => Ok(WriteValue::Int(w.count)),
        AggregateField::Sum => match w.sum {
            None => Err(missing("a"@)),
            Some(v) => stored_numeric(target, a, v),
        },
        AggregateField::Avg => if w.has_avg { stored_average(target) } else { Err(missing("an"@)) },
        AggregateField::Min => match w.min {
            None => Err(missing("a"@)),
            Some(v) => stored_numeric(target, a, v),
        },
        AggregateField::Max => match w.max {
            None => Err(missing("a"@)),
            Some(v) => stored_numeric(target, a, v),
        },
    };
    match stored {
        Err(e) => Err(e),
        Ok(v) => Ok(WriteSpec { field: aggregate_name(a), value: v, force: true }),
    }
}

/// The writes that put window `w` into the downsample document of
/// `target`: the bookkeeping fields, then each passthrough field (which the
/// source document must have: `source_has`, one flag per field), then each
/// aggregate the plan keeps; or the first reason it cannot be written.
pub open spec fn window_writes(
    target: CollectionVersion,
    source_name: Seq<char>,
    passthrough: Seq<Seq<char>>,
    source_has: Seq<bool>,
    aggregates: Seq<AggregateField>,
    w: WindowFacts,
) -> Result<Seq<WriteSpec>, Seq<char>> {
    let head = seq![
        WriteSpec { field: "source_doc_id"@, value: WriteValue::SeriesId, force: false },
        WriteSpec { field: "source_height"@, value: WriteValue::Int(w.source_height), force: true },
        WriteSpec { field: "window_start"@, value: WriteValue::Time(w.window_start), force: true },
        WriteSpec { field: "window_end"@, value: WriteValue::Time(w.window_end), force: true },
    ];
    match passthrough_writes(source_name, passthrough, source_has, passthrough.len() as int) {
        Err(e) => Err(e),
        Ok(pw) => match aggregate_writes(target, w, aggregates, aggregates.len() as int) {
            Err(e) => Err(e),
            Ok(aw) => Ok(head + pw + aw),
        },
    }
}

/// The writes of the first `n` passthrough fields, or the first missing one.
pub open spec fn passthrough_writes(source_name: Seq<char>, passthrough: Seq<Seq<char>>, source_has: Seq<bool>, n: int) -> Result<Seq<WriteSpec>, Seq<char>>
    decreases n,
{
    if n <= 0 {
        Ok(Seq::empty())
    } else {
        match passthrough_writes(source_name, passthrough, source_has, n - 1) {
            Err(e) => Err(e),
            Ok(ws) => if source_has[n - 1] {
                Ok(ws.push(WriteSpec { field: passthrough[n - 1], value: WriteValue::FromSource, force: false }))
            } else {
                Err("downsample source '"@ + source_name + "' is missing passthrough field '"@ + passthrough[n - 1] + "'"@)
            },
        }
    }
}

/// The writes of the first `n` aggregates, or the first that cannot be
/// written.
pub open spec fn aggregate_writes(target: CollectionVersion, w: WindowFacts, aggregates: Seq<AggregateField>, n: int) -> Result<Seq<WriteSpec>, Seq<char>>
    decreases n,
{
    if n <= 0 {
        Ok(Seq::empty())
    } else {
        match aggregate_writes(target, w, aggregates, n - 1) {
            Err(e) => Err(e),
            Ok(ws) => match aggregate_write(target, w, aggregates[n - 1]) {
                Err(e) => Err(e),
                Ok(x) => Ok(ws.push(x)),
            },
        }
    }
}


fn store_numeric(target: &CollectionVersion, a: AggregateField, v: Numeric) -> (res: Result<WriteValue, Error>)
    ensures
        match stored_numeric(*target, a, v) {
            Ok(x) => res == Ok::<WriteValue, Error>(x),
            Err(m) => res matches Err(Error::Other(e)) && e@ == m,
        },
{
    let f = aggregate_field_name(a);
    let i = match lookup_field(target, f) {
        Some(i) => i,
        None => {
            return Err(missing_field(target, f));
        },
    };
    match &target.fields[i].kind {
        FieldKind::Scalar(ScalarKind::Int) => match v {
            Numeric::Int(_) => Ok(WriteValue::AggregateInt(a)),
            Numeric::Float => {
                let head = cat4("downsample field '", target.name.as_str(), ".", f);
                Err(Error::Other(cat2(head.as_str(), "' can not store floating-point values")))
            },
        },
        FieldKind::Scalar(ScalarKind::Float32) => Ok(WriteValue::AggregateFloat32(a)),
        FieldKind::Scalar(ScalarKind::Float64) => Ok(WriteValue::AggregateFloat64(a)),
        _ => {
            let head = cat4("downsample field '", target.name.as_str(), ".", f);
            Err(Error::Other(cat2(head.as_str(), "' must be numeric")))
        },
    }
}

fn store_average(target: &CollectionVersion) -> (res: Result<WriteValue, Error>)
    ensures
        match stored_average(*target) {
            Ok(x) => res == Ok::<WriteValue, Error>(x),
            Err(m) => res matches Err(Error::Other(e)) && e@ == m,
        },
{
    let i = match lookup_field(target, "avg") {
        Some(i) => i,
        None => {
            return Err(missing_field(target, "avg"));
        },
    };
    match &target.fields[i].kind {
        FieldKind::Scalar(ScalarKind::Float32) => Ok(WriteValue::AggregateFloat32(AggregateField::Avg)),
        FieldKind::Scalar(ScalarKind::Float64) => Ok(WriteValue::AggregateFloat64(AggregateField::Avg)),
        _ => Err(Error::Other(cat5("downsample field '", target.name.as_str(), ".", "avg", "' must be Float or Float32"))),
    }
}

fn missing_value(target: &CollectionVersion, article: &str, a: AggregateField) -> (res: Error)
    ensures
        res matches Error::Other(e) && e@ == "downsample window for '"@ + target.name@ + "' is missing "@ + article@ + " "@
            + aggregate_name(a) + " value"@,
{
    let head = cat5("downsample window for '", target.name.as_str(), "' is missing ", article, " ");
    Error::Other(cat3(head.as_str(), aggregate_field_name(a), " value"))
}

fn write_aggregate(target: &CollectionVersion, w: &WindowFacts, a: AggregateField) -> (res: Result<FieldWrite, Error>)
    ensures
        match aggregate_write(*target, *w, a) {
            Ok(x) => res matches Ok(fw) && fw.field@ == x.field && fw.value == x.value && fw.force == x.force,
            Err(m) => res matches Err(Error::Other(e)) && e@ == m,
        },
{
    let stored = match a {
        AggregateField::Count => Ok(WriteValue::Int(w.count)),
        AggregateField::Sum => match w.sum {
            None => Err(missing_value(target, "a", a)),
            Some(v) => store_numeric(target, a, v),
        },
        AggregateField::Avg => if w.has_avg { store_average(target) } else { Err(missing_value(target, "an", a)) },
        AggregateField::Min => match w.min {
            None => Err(missing_value(target, "a", a)),
            Some(v) => store_numeric(target, a, v),
        },
        AggregateField::Max => match w.max {
            None => Err(missing_value(target, "a", a)),
            Some(v) => store_numeric(target, a, v),
        },
    };
    match stored {
        Err(e) => Err(e),
        Ok(v) => Ok(FieldWrite { field: String::from_str(aggregate_field_name(a)), value: v, force: true }),
    }
}

fn bookkeeping_write(field: &str, value: WriteValue, force: bool) -> (res: FieldWrite)
    ensures
        res.field@ == field@,
        res.value == value,
        res.force == force,
{
    FieldWrite { field: String::from_str(field), value, force }
}

proof fn lemma_passthrough_err(source_name: Seq<char>, passthrough: Seq<Seq<char>>, source_has: Seq<bool>, m: int, n: int)
    requires
        0 <= m <= n,
        passthrough_writes(source_name, passthrough, source_has, m) is Err,
    ensures
        passthrough_writes(source_name, passthrough, source_has, n) == passthrough_writes(source_name, passthrough, source_has, m),
    decreases n - m,
{
    if n > m {
        lemma_passthrough_err(source_name, passthrough, source_has, m, n - 1);
    }
}

proof fn lemma_aggregate_err(target: CollectionVersion, w: WindowFacts, aggregates: Seq<AggregateField>, m: int, n: int)
    requires
        0 <= m <= n,
        aggregate_writes(target, w, aggregates, m) is Err,
    ensures
        aggregate_writes(target, w, aggregates, n) == aggregate_writes(target, w, aggregates, m),
    decreases n - m,
{
    if n > m {
        lemma_aggregate_err(target, w, aggregates, m, n - 1);
    }
}

/// The writes that put a window into its downsample document (see
/// `window_writes`).
pub fn window_field_writes(
    target: &CollectionVersion,
    source_name: &str,
    passthrough: &Vec<String>,
    source_has: &Vec<bool>,
    aggregates: &Vec<AggregateField>,
    w: &WindowFacts,
) -> (res: Result<Vec<FieldWrite>, Error>)
    requires
        source_has@.len() == passthrough@.len(),
    ensures
        match window_writes(*target, source_name@, views(passthrough@), source_has@, aggregates@, *w) {
            Ok(ws) => res matches Ok(v) && write_specs(v@) == ws,
            Err(m) => res matches Err(Error::Other(e)) && e@ == m,
        },
{
    let mut out: Vec<FieldWrite> = Vec::new();
    out.push(bookkeeping_write("source_doc_id", WriteValue::SeriesId, false));
    out.push(bookkeeping_write("source_height", WriteValue::Int(w.source_height), true));
    out.push(bookkeeping_write("window_start", WriteValue::Time(w.window_start), true));
    out.push(bookkeeping_write("window_end", WriteValue::Time(w.window_end), true));
    let ghost head = write_specs(out@);
    let ghost pv = views(passthrough@);
    assert(head =~= seq![
        WriteSpec { field: "source_doc_id"@, value: WriteValue::SeriesId, force: false },
        WriteSpec { field: "source_height"@, value: WriteValue::Int(w.source_height), force: true },
        WriteSpec { field: "window_start"@, value: WriteValue::Time(w.window_start), force: true },
        WriteSpec { field: "window_end"@, value: WriteValue::Time(w.window_end), force: true },
    ]);
    let mut i: usize = 0;
    assert(write_specs(out@) =~= head + Seq::<WriteSpec>::empty());
    while i < passthrough.len()
        invariant
            0 <= i <= passthrough@.len(),
            source_has@.len() == passthrough@.len(),
            pv == views(passthrough@),
            passthrough_writes(source_name@, pv, source_has@, i as int) matches Ok(pw) && write_specs(out@) == head + pw,
        decreases passthrough.len() - i,
    {
        assert(pv[i as int] == passthrough@[i as int]@);
        if !source_has[i] {
            proof {
                lemma_passthrough_err(source_name@, pv, source_has@, i + 1, passthrough@.len() as int);
            }
            let msg = cat5("downsample source '", source_name, "' is missing passthrough field '", passthrough[i].as_str(), "'");
            return Err(Error::Other(msg));
        }
        let ghost before = write_specs(out@);
        out.push(FieldWrite { field: passthrough[i].clone(), value: WriteValue::FromSource, force: false });
        assert(write_specs(out@) =~= before.push(WriteSpec { field: pv[i as int], value: WriteValue::FromSource, force: false }));
        i += 1;
    }
    let ghost mid = write_specs(out@);
    let mut j: usize = 0;
    assert(write_specs(out@) =~= mid + Seq::<WriteSpec>::empty());
    while j < aggregates.len()
        invariant
            0 <= j <= aggregates@.len(),
            pv == views(passthrough@),
            mid == head + passthrough_writes(source_name@, pv, source_has@, pv.len() as int)->Ok_0,
            passthrough_writes(source_name@, pv, source_has@, pv.len() as int) is Ok,
            aggregate_writes(*target, *w, aggregates@, j as int) matches Ok(aw) && write_specs(out@) == mid + aw,
        decreases aggregates.len() - j,
    {
        match write_aggregate(target, w, aggregates[j]) {
            Ok(fw) => {
                let ghost before = write_specs(out@);
                let ghost x = WriteSpec { field: fw.field@, value: fw.value, force: fw.force };
                out.push(fw);
                assert(write_specs(out@) =~= before.push(x));
            },
            Err(e) => {
                proof {
                    assert(aggregate_writes(*target, *w, aggregates@, j + 1) is Err);
                    lemma_aggregate_err(*target, *w, aggregates@, j + 1, aggregates@.len() as int);
                    assert(window_writes(*target, source_name@, pv, source_has@, aggregates@, *w)
                        == aggregate_writes(*target, *w, aggregates@, j + 1));
                    assert(aggregate_writes(*target, *w, aggregates@, j + 1)
                        == Err::<Seq<WriteSpec>, Seq<char>>(aggregate_write(*target, *w, aggregates@[j as int])->Err_0));
                    assert(pv == views(passthrough@));
                }
                return Err(e);
            },
        }
        j += 1;
    }
    Ok(out)
}

} // verus!
