use defradb_core::definition_validation::DefinitionState;
use defradb_core::downsample::{
    aggregate_field_name, decode_priority_varint, parse_go_duration, parse_positive_interval_nanos,
    supported_downsample_aggregate_fields, unit_nanos, AggregateField, DurationSyntax,
};
use defradb_core::downsample_apply::{
    series_doc_id, check_late_data, check_window_order, commit_range_to_process, processed_height_of, window_field_writes,
    Numeric, WindowFacts, WriteValue,
};
use defradb_core::downsample_plan::{
    build_downsample_plan, downsample_plans, require_scalar_kind, scalar_kind_name, validate_downsample_cycle,
    DownsamplePlan, SourceKind,
};
use defradb_core::downsample_order::{bootstrap_order, downsample_depth, stable_order_by_key};
use defradb_core::downsample_samples::{
    build_raw_source_samples, build_rollup_source_samples, build_source_samples, group_commit_values_by_height,
    CommitEntry, DeltaValue,
};
use defradb_core::downsample_windows::{
    aggregate_samples_into_windows, bucket_start_nanos, SampleTiming, WindowSource,
};
use defradb_core::error::Error;
use defradb_core::schema::{CType, CollectionVersion, FieldDescription, FieldKind, JsonValue, QuerySource, ScalarKind};
use defradb_core::source_query::parse_downsample_source_query;

fn field(name: &str, kind: ScalarKind) -> FieldDescription {
    FieldDescription {
        id: format!("f-{}", name),
        name: name.to_string(),
        kind: FieldKind::Scalar(kind),
        crdt_type: CType::LwwRegister,
        immutable: false,
    }
}

fn obj(entries: Vec<(&str, JsonValue)>) -> JsonValue {
    JsonValue::Object(entries.into_iter().map(|(k, v)| (k.to_string(), v)).collect())
}

fn select(name: &str, fields: &[&str]) -> QuerySource {
    let fs = fields.iter().map(|f| obj(vec![("Name", JsonValue::Str(f.to_string()))])).collect();
    QuerySource {
        query: obj(vec![("Name", JsonValue::Str(name.to_string())), ("Fields", JsonValue::Array(fs))]),
        transform: None,
    }
}

fn collection(name: &str, fields: Vec<FieldDescription>) -> CollectionVersion {
    CollectionVersion {
        name: name.to_string(),
        version_id: format!("v-{}", name),
        collection_id: format!("c-{}", name),
        is_active: true,
        is_placeholder: false,
        is_branchable: false,
        is_materialized: true,
        fields,
        policy: None,
        indexes: Vec::new(),
        previous_version: None,
        query: None,
        vector_embeddings: Vec::new(),
        downsample_interval: None,
        downsample_time_field: None,
        downsample_source: None,
    }
}

fn readings() -> CollectionVersion {
    collection(
        "Readings",
        vec![field("ts", ScalarKind::DateTime), field("value", ScalarKind::Float64), field("site", ScalarKind::String)],
    )
}

fn hourly(source: &str, fields: &[&str]) -> CollectionVersion {
    let mut c = collection(
        "Hourly",
        vec![
            field("source_doc_id", ScalarKind::String),
            field("source_height", ScalarKind::Int),
            field("window_start", ScalarKind::DateTime),
            field("window_end", ScalarKind::DateTime),
            field("count", ScalarKind::Int),
            field("avg", ScalarKind::Float64),
            field("max", ScalarKind::Float64),
            field("site", ScalarKind::String),
        ],
    );
    c.downsample_interval = Some("1h".to_string());
    c.downsample_time_field = Some("ts".to_string());
    c.downsample_source = Some(select(source, fields));
    c
}

fn sample(height: u64, t: i64, count: i64) -> SampleTiming {
    SampleTiming { height, time_nanos: Ok(t), coverage_end_nanos: None, count }
}

#[test]
fn priority_varint_decodes_little_endian_groups() {
    assert_eq!(decode_priority_varint(&[0x05]), 5);
    assert_eq!(decode_priority_varint(&[0xac, 0x02]), 300);
    assert_eq!(decode_priority_varint(&[]), 0);
    assert_eq!(decode_priority_varint(&[0x80, 0x01, 0x7f]), 128);
}

#[test]
fn priority_varint_reads_back_its_encoding() {
    assert_eq!(decode_priority_varint(&[0x96, 0x01]), 150);
    assert_eq!(decode_priority_varint(&[0x05, 0xff]), 5);
    let max = [0xff, 0xff, 0xff, 0xff, 0xff, 0xff, 0xff, 0xff, 0xff, 0x01, 0x33];
    assert_eq!(decode_priority_varint(&max), u64::MAX);
}

#[test]
fn aggregate_fields_are_named_and_ordered() {
    let all = supported_downsample_aggregate_fields();
    let names: Vec<&str> = all.iter().map(|f| aggregate_field_name(*f)).collect();
    assert_eq!(names, vec!["count", "sum", "avg", "min", "max"]);
}

#[test]
fn bare_numbers_are_whole_seconds() {
    assert_eq!(parse_go_duration("  90 "), Ok(DurationSyntax::Whole(90_000_000_000)));
    assert_eq!(parse_go_duration("-2"), Ok(DurationSyntax::Whole(-2_000_000_000)));
    assert_eq!(parse_go_duration("0"), Ok(DurationSyntax::Whole(0)));
    assert_eq!(parse_go_duration(""), Ok(DurationSyntax::Whole(0)));
}

#[test]
fn oversized_whole_durations_are_refused() {
    assert_eq!(parse_go_duration("-"), Err("invalid number: ".to_string()));
    assert_eq!(parse_go_duration("99999999999999999999"), Err("invalid number: 99999999999999999999".to_string()));
    assert_eq!(parse_go_duration("9223372037"), Err("duration overflow: 9223372037".to_string()));
}

#[test]
fn unit_durations_split_into_segments() {
    match parse_go_duration("-1h30.5m").unwrap() {
        DurationSyntax::Segments { negative, parts, trailing_error, whole } => {
            assert!(negative);
            assert_eq!(whole, "1h30.5m");
            assert_eq!(parts.len(), 2);
            assert_eq!((parts[0].number.as_str(), parts[0].unit.as_str()), ("1", "h"));
            assert_eq!((parts[1].number.as_str(), parts[1].unit.as_str()), ("30.5", "m"));
            assert_eq!(trailing_error, None);
        }
        other => panic!("unexpected {:?}", other),
    }
}

#[test]
fn structural_errors_come_after_the_segments_before_them() {
    match parse_go_duration("5m10").unwrap() {
        DurationSyntax::Segments { parts, trailing_error, .. } => {
            assert_eq!(parts.len(), 1);
            assert_eq!(trailing_error, Some("missing unit in duration: 5m10".to_string()));
        }
        other => panic!("unexpected {:?}", other),
    }
    match parse_go_duration("h").unwrap() {
        DurationSyntax::Segments { parts, trailing_error, .. } => {
            assert!(parts.is_empty());
            assert_eq!(trailing_error, Some("invalid duration: h".to_string()));
        }
        other => panic!("unexpected {:?}", other),
    }
}

#[test]
fn duration_units_scale_to_nanoseconds() {
    assert_eq!(unit_nanos("ns"), Ok(1));
    assert_eq!(unit_nanos("us"), Ok(1_000));
    assert_eq!(unit_nanos("\u{b5}s"), Ok(1_000));
    assert_eq!(unit_nanos("\u{3bc}s"), Ok(1_000));
    assert_eq!(unit_nanos("ms"), Ok(1_000_000));
    assert_eq!(unit_nanos("s"), Ok(1_000_000_000));
    assert_eq!(unit_nanos("m"), Ok(60_000_000_000));
    assert_eq!(unit_nanos("h"), Ok(3_600_000_000_000));
    assert_eq!(unit_nanos("d"), Err("unknown unit in duration: d".to_string()));
}

#[test]
fn intervals_must_be_positive() {
    assert_eq!(parse_positive_interval_nanos("1m", Ok(60)), Ok(60));
    assert_eq!(parse_positive_interval_nanos("0s", Ok(0)), Err("downsample interval '0s' must be positive".to_string()));
    assert_eq!(parse_positive_interval_nanos("x", Err("bad".to_string())), Err("bad".to_string()));
}

#[test]
fn buckets_start_at_the_floor_multiple() {
    assert_eq!(bucket_start_nanos(125, 60), 120);
    assert_eq!(bucket_start_nanos(120, 60), 120);
    assert_eq!(bucket_start_nanos(-1, 60), -60);
    assert_eq!(bucket_start_nanos(-60, 60), -60);
}

#[test]
fn samples_group_into_complete_windows_in_order() {
    let samples = vec![sample(3, 130, 1), sample(1, 10, 1), sample(2, 50, 1), sample(4, 200, 1)];
    let windows = aggregate_samples_into_windows(&samples, 60, "1m", WindowSource::Raw, 180).unwrap();
    assert_eq!(windows.len(), 2);
    assert_eq!((windows[0].start_nanos, windows[0].end_nanos, windows[0].count), (0, 60, 2));
    assert_eq!(windows[0].source_height, 2);
    assert_eq!(windows[0].members, vec![1, 2]);
    assert_eq!((windows[1].start_nanos, windows[1].end_nanos, windows[1].count), (120, 180, 1));
    assert_eq!(windows[1].members, vec![0]);
}

#[test]
fn rollup_windows_complete_when_covered() {
    let mut a = sample(1, 0, 10);
    a.coverage_end_nanos = Some(Ok(60));
    let mut b = sample(2, 60, 5);
    b.coverage_end_nanos = Some(Ok(120));
    let windows = aggregate_samples_into_windows(&vec![a, b], 120, "2m", WindowSource::Rollup, 0).unwrap();
    assert_eq!(windows.len(), 1);
    assert_eq!(windows[0].count, 15);
    assert_eq!(windows[0].source_height, 2);
}

#[test]
fn window_errors_follow_sample_order() {
    let bad = SampleTiming { height: 1, time_nanos: Err("downsample timestamp 'x' can not be represented in nanoseconds".to_string()), coverage_end_nanos: None, count: 1 };
    let r = aggregate_samples_into_windows(&vec![sample(1, 0, 1), bad], 60, "1m", WindowSource::Raw, 0);
    assert_eq!(r.unwrap_err(), Error::Other("downsample timestamp 'x' can not be represented in nanoseconds".to_string()));
    let r = aggregate_samples_into_windows(&vec![sample(1, i64::MAX - 5, 1)], 60, "1m", WindowSource::Raw, 0);
    assert_eq!(r.unwrap_err(), Error::Other("downsample interval '1m' overflowed a bucket boundary".to_string()));
    let r = aggregate_samples_into_windows(&vec![sample(u64::MAX, 0, 1)], 60, "1m", WindowSource::Raw, 60);
    assert_eq!(r.unwrap_err(), Error::Other("downsample source height exceeded i64".to_string()));
}

#[test]
fn source_query_is_a_flat_select() {
    let parsed = parse_downsample_source_query(&select("Readings", &["ts", "value", "ts"])).unwrap();
    assert_eq!(parsed.collection_name, "Readings");
    assert_eq!(parsed.selected_fields, vec!["ts".to_string(), "value".to_string()]);

    let mut q = select("Readings", &["ts"]);
    if let JsonValue::Object(entries) = &mut q.query {
        entries.push(("Limit".to_string(), JsonValue::Number));
    }
    assert_eq!(
        parse_downsample_source_query(&q).unwrap_err(),
        Error::Other("downsample source queries must be flat collection selects without Limit".to_string())
    );

    let no_fields = QuerySource { query: obj(vec![("Name", JsonValue::Str("R".to_string()))]), transform: None };
    assert_eq!(
        parse_downsample_source_query(&no_fields).unwrap_err(),
        Error::Other("downsample source queries must list selected fields".to_string())
    );
    let lensed = QuerySource { query: JsonValue::Null, transform: Some("lens".to_string()) };
    assert_eq!(
        parse_downsample_source_query(&lensed).unwrap_err(),
        Error::Other("downsample source queries do not support lens transforms".to_string())
    );
}

#[test]
fn scalar_kinds_are_checked_with_their_names() {
    let c = readings();
    assert_eq!(require_scalar_kind(&c, "ts", &[ScalarKind::DateTime]), Ok(()));
    assert_eq!(
        require_scalar_kind(&c, "value", &[ScalarKind::Int, ScalarKind::DateTime]),
        Err(Error::Other("downsample field 'Readings.value' must be Int or DateTime, found Float".to_string()))
    );
    assert_eq!(
        require_scalar_kind(&c, "nope", &[ScalarKind::Int]),
        Err(Error::Other("downsample collection 'Readings' must define field 'nope'".to_string()))
    );
    assert_eq!(scalar_kind_name(ScalarKind::Json), "JSON");
}

#[test]
fn raw_plan_picks_the_value_measure_and_passthrough_fields() {
    let catalog = vec![readings(), hourly("Readings", &["ts", "value", "site"])];
    let state = DefinitionState::new(&catalog);
    let plan = build_downsample_plan(&state, &catalog[1], Ok(3_600_000_000_000)).unwrap();
    assert_eq!(plan.source, 0);
    assert_eq!(plan.interval_raw, "1h");
    assert_eq!(plan.time_field, "ts");
    assert_eq!(plan.passthrough_fields, vec!["site".to_string()]);
    assert_eq!(plan.aggregate_fields, vec![AggregateField::Count, AggregateField::Avg, AggregateField::Max]);
    assert_eq!(plan.source_kind, SourceKind::Raw { measure_field: "value".to_string() });
}

#[test]
fn plan_refusals() {
    let catalog = vec![readings(), hourly("Readings", &["value", "site"])];
    let state = DefinitionState::new(&catalog);
    assert_eq!(
        build_downsample_plan(&state, &catalog[1], Ok(1)).unwrap_err(),
        Error::Other("downsample time field 'Readings.ts' must be selected from 'Readings'".to_string())
    );
    let missing = vec![hourly("Nowhere", &["ts"])];
    let state = DefinitionState::new(&missing);
    assert_eq!(
        build_downsample_plan(&state, &missing[0], Ok(1)).unwrap_err(),
        Error::CollectionNotFound("Nowhere".to_string())
    );
    assert_eq!(
        build_downsample_plan(&state, &missing[0], Err("bad interval".to_string())).unwrap_err(),
        Error::Other("bad interval".to_string())
    );
    let plain = readings();
    assert_eq!(
        build_downsample_plan(&state, &plain, Ok(1)).unwrap_err(),
        Error::Other("collection 'Readings' is not configured as a downsample collection".to_string())
    );
}

#[test]
fn a_downsample_collection_cannot_read_itself() {
    let me = hourly("Hourly", &["ts"]);
    let catalog = vec![me];
    let state = DefinitionState::new(&catalog);
    assert_eq!(
        validate_downsample_cycle(&state, "Hourly", "Hourly").unwrap_err(),
        Error::Other("downsample collection 'Hourly' can not depend on itself".to_string())
    );
    assert_eq!(validate_downsample_cycle(&state, "Daily", "Readings"), Ok(()));
}

#[test]
fn plans_keep_only_selected_collections_and_sources() {
    let catalog = vec![readings(), hourly("Readings", &["ts", "value", "site"])];
    let state = DefinitionState::new(&catalog);
    let intervals = vec![Err("unused".to_string()), Ok(3_600_000_000_000)];
    let all = downsample_plans(&state, &intervals, None, None).unwrap();
    assert_eq!(all.len(), 1);
    let other = downsample_plans(&state, &intervals, None, Some("Other")).unwrap();
    assert!(other.is_empty());
    let names = vec!["Daily".to_string()];
    assert!(downsample_plans(&state, &intervals, Some(&names), None).unwrap().is_empty());
}

#[test]
fn window_writes_set_bookkeeping_passthrough_and_aggregates() {
    let target = hourly("Readings", &["ts", "value", "site"]);
    let facts = WindowFacts {
        count: 3,
        source_height: 9,
        window_start: 0,
        window_end: 60,
        sum: None,
        has_avg: true,
        min: None,
        max: Some(Numeric::Float),
    };
    let writes = window_field_writes(
        &target,
        "Readings",
        &vec!["site".to_string()],
        &vec![true],
        &vec![AggregateField::Count, AggregateField::Avg, AggregateField::Max],
        &facts,
    )
    .unwrap();
    let summary: Vec<(&str, WriteValue, bool)> = writes.iter().map(|w| (w.field.as_str(), w.value, w.force)).collect();
    assert_eq!(
        summary,
        vec![
            ("source_doc_id", WriteValue::SeriesId, false),
            ("source_height", WriteValue::Int(9), true),
            ("window_start", WriteValue::Time(0), true),
            ("window_end", WriteValue::Time(60), true),
            ("site", WriteValue::FromSource, false),
            ("count", WriteValue::Int(3), true),
            ("avg", WriteValue::AggregateFloat64(AggregateField::Avg), true),
            ("max", WriteValue::AggregateFloat64(AggregateField::Max), true),
        ]
    );
}

#[test]
fn window_write_refusals() {
    let target = hourly("Readings", &["ts"]);
    let facts = WindowFacts {
        count: 1,
        source_height: 1,
        window_start: 0,
        window_end: 60,
        sum: Some(Numeric::Int(4)),
        has_avg: false,
        min: None,
        max: None,
    };
    let missing_source = window_field_writes(&target, "Readings", &vec!["site".to_string()], &vec![false], &vec![], &facts);
    assert_eq!(
        missing_source.unwrap_err(),
        Error::Other("downsample source 'Readings' is missing passthrough field 'site'".to_string())
    );
    let no_avg = window_field_writes(&target, "Readings", &vec![], &vec![], &vec![AggregateField::Avg], &facts);
    assert_eq!(no_avg.unwrap_err(), Error::Other("downsample window for 'Hourly' is missing an avg value".to_string()));
    let no_sum_field = window_field_writes(&target, "Readings", &vec![], &vec![], &vec![AggregateField::Sum], &facts);
    assert_eq!(no_sum_field.unwrap_err(), Error::Other("downsample collection 'Hourly' must define field 'sum'".to_string()));
    let float_count = {
        let mut t = hourly("Readings", &["ts"]);
        t.fields.push(field("min", ScalarKind::Int));
        let f = WindowFacts { min: Some(Numeric::Float), ..facts };
        window_field_writes(&t, "Readings", &vec![], &vec![], &vec![AggregateField::Min], &f)
    };
    assert_eq!(
        float_count.unwrap_err(),
        Error::Other("downsample field 'Hourly.min' can not store floating-point values".to_string())
    );
}

#[test]
fn commit_ranges_and_window_order() {
    assert_eq!(commit_range_to_process(0, 0), None);
    assert_eq!(commit_range_to_process(5, 5), None);
    assert_eq!(commit_range_to_process(5, 2), Some((3, 6)));
    assert_eq!(processed_height_of(Some(-4)), 0);
    assert_eq!(processed_height_of(Some(7)), 7);
    assert_eq!(processed_height_of(None), 0);
    assert_eq!(check_window_order(None, 10, "R", "s"), Ok(()));
    assert_eq!(check_window_order(Some(5), 10, "R", "s"), Ok(()));
    assert_eq!(
        check_window_order(Some(10), 10, "R", "s").unwrap_err(),
        Error::Other(
            "downsample source 'R' produced out-of-order timestamps for series 's'; late data for already-closed windows is not yet supported"
                .to_string()
        )
    );
    assert_eq!(
        check_late_data(0, 0, "R", "t0", "w0").unwrap_err(),
        Error::Other("late data is not accepted for downsample source 'R': timestamp 't0' falls in closed bucket 'w0'".to_string())
    );
    assert_eq!(check_late_data(60, 0, "R", "t", "w"), Ok(()));
}

fn time_value() -> Option<DeltaValue> {
    Some(DeltaValue { is_time: true, is_numeric: false, int_value: None })
}

fn int_delta(v: i64) -> Option<DeltaValue> {
    Some(DeltaValue { is_time: false, is_numeric: true, int_value: Some(v) })
}

fn float_delta() -> Option<DeltaValue> {
    Some(DeltaValue { is_time: false, is_numeric: true, int_value: None })
}

fn text_delta() -> Option<DeltaValue> {
    Some(DeltaValue { is_time: false, is_numeric: false, int_value: None })
}

fn commit(field: &str, height: i64, value: Option<DeltaValue>) -> CommitEntry {
    CommitEntry { field_name: Some(field.to_string()), height: Some(height), value }
}

fn plan_of(kind: SourceKind, aggregates: Vec<AggregateField>) -> DownsamplePlan {
    DownsamplePlan {
        source: 0,
        interval_raw: "1h".to_string(),
        interval_nanos: 3_600_000_000_000,
        time_field: "ts".to_string(),
        passthrough_fields: Vec::new(),
        aggregate_fields: aggregates,
        source_kind: kind,
    }
}

#[test]
fn commits_group_by_ascending_height_with_the_last_value_winning() {
    let commits = vec![
        commit("value", 3, float_delta()),
        commit("ts", 1, time_value()),
        commit("site", 1, text_delta()),
        commit("value", 1, float_delta()),
        commit("value", 1, int_delta(7)),
        commit("value", -2, float_delta()),
        commit("ts", 5, None),
        CommitEntry { field_name: None, height: Some(4), value: float_delta() },
        CommitEntry { field_name: Some("value".to_string()), height: None, value: float_delta() },
    ];
    let fields = vec!["ts".to_string(), "value".to_string()];
    let groups = group_commit_values_by_height(&commits, &fields);
    assert_eq!(groups.len(), 2);
    assert_eq!(groups[0].height, 1);
    let mut first: Vec<(String, usize)> = groups[0].values.iter().map(|v| (v.field_name.clone(), v.commit)).collect();
    first.sort();
    assert_eq!(first, vec![("ts".to_string(), 1), ("value".to_string(), 4)]);
    assert_eq!(groups[1].height, 3);
    assert_eq!(groups[1].values.len(), 1);
    assert_eq!(groups[1].values[0].commit, 0);
}

#[test]
fn raw_samples_pair_time_and_measure_per_height() {
    let source = readings();
    let plan = plan_of(SourceKind::Raw { measure_field: "value".to_string() }, vec![AggregateField::Count]);
    let commits = vec![
        commit("ts", 2, time_value()),
        commit("value", 2, float_delta()),
        commit("value", 1, int_delta(4)),
        commit("ts", 1, time_value()),
        commit("site", 9, text_delta()),
    ];
    let samples = build_raw_source_samples(&plan, &source, "value", &commits).unwrap();
    assert_eq!(samples.len(), 2);
    assert_eq!((samples[0].height, samples[0].time, samples[0].count), (1, 3, 1));
    assert_eq!((samples[0].sum, samples[0].min, samples[0].max), (Some(2), Some(2), Some(2)));
    assert_eq!(samples[0].coverage_end, None);
    assert_eq!((samples[1].height, samples[1].time, samples[1].sum), (2, 0, Some(1)));
    let via_plan = build_source_samples(&plan, &source, &commits).unwrap();
    assert_eq!(via_plan.len(), 2);
}

#[test]
fn raw_sample_errors_name_the_lowest_failing_height() {
    let source = readings();
    let plan = plan_of(SourceKind::Raw { measure_field: "value".to_string() }, vec![AggregateField::Count]);
    let commits = vec![
        commit("value", 8, float_delta()),
        commit("ts", 5, time_value()),
        commit("value", 5, text_delta()),
        commit("ts", 2, time_value()),
        commit("value", 2, float_delta()),
    ];
    assert_eq!(
        build_raw_source_samples(&plan, &source, "value", &commits).unwrap_err(),
        Error::Other("downsample source 'Readings.value' must be numeric at commit height 5".to_string())
    );
    let missing_time = vec![commit("value", 3, float_delta())];
    assert_eq!(
        build_raw_source_samples(&plan, &source, "value", &missing_time).unwrap_err(),
        Error::Other(
            "downsample source 'Readings.ts' must be updated alongside 'value' at commit height 3".to_string()
        )
    );
}

#[test]
fn rollup_samples_read_the_aggregates_the_plan_needs() {
    let source = hourly("Readings", &["ts", "value", "site"]);
    let plan = plan_of(SourceKind::Downsample, vec![AggregateField::Avg, AggregateField::Max]);
    let commits = vec![
        commit("ts", 1, time_value()),
        commit("window_end", 1, time_value()),
        commit("count", 1, int_delta(12)),
        commit("sum", 1, float_delta()),
        commit("max", 1, float_delta()),
        commit("min", 1, text_delta()),
    ];
    let samples = build_rollup_source_samples(&plan, &source, &commits).unwrap();
    assert_eq!(samples.len(), 1);
    let s = &samples[0];
    assert_eq!((s.height, s.time, s.coverage_end, s.count), (1, 0, Some(1), 12));
    assert_eq!((s.sum, s.min, s.max), (Some(3), None, Some(4)));
}

#[test]
fn rollup_sample_errors() {
    let source = hourly("Readings", &["ts", "value", "site"]);
    let plan = plan_of(SourceKind::Downsample, vec![AggregateField::Count, AggregateField::Min]);
    let no_end = vec![commit("ts", 4, time_value())];
    assert_eq!(
        build_rollup_source_samples(&plan, &source, &no_end).unwrap_err(),
        Error::Other("downsample source 'Hourly.window_end' must be present at commit height 4".to_string())
    );
    let float_count = vec![
        commit("ts", 4, time_value()),
        commit("window_end", 4, time_value()),
        commit("count", 4, float_delta()),
    ];
    assert_eq!(
        build_rollup_source_samples(&plan, &source, &float_count).unwrap_err(),
        Error::Other("downsample source 'Hourly.count' must be present at commit height 4".to_string())
    );
    let no_min = vec![
        commit("ts", 4, time_value()),
        commit("window_end", 4, time_value()),
        commit("count", 4, int_delta(2)),
    ];
    assert_eq!(
        build_rollup_source_samples(&plan, &source, &no_min).unwrap_err(),
        Error::Other("downsample source 'Hourly.min' must be numeric at commit height 4".to_string())
    );
    let no_time = vec![commit("window_end", 6, time_value())];
    assert_eq!(
        build_rollup_source_samples(&plan, &source, &no_time).unwrap_err(),
        Error::Other("downsample source 'Hourly.ts' must be present at commit height 6".to_string())
    );
}

fn rollup(name: &str, source: &str) -> CollectionVersion {
    let mut c = hourly(source, &["ts", "count", "avg", "max", "window_end"]);
    c.name = name.to_string();
    c
}

#[test]
fn depth_counts_the_chain_of_downsample_sources() {
    let catalog = vec![readings(), hourly("Readings", &["ts", "value"]), rollup("Daily", "Hourly")];
    let state = DefinitionState::new(&catalog);
    assert_eq!(downsample_depth(&state, "Readings").unwrap(), 0);
    assert_eq!(downsample_depth(&state, "Hourly").unwrap(), 1);
    assert_eq!(downsample_depth(&state, "Daily").unwrap(), 2);
    assert_eq!(downsample_depth(&state, "Missing").unwrap(), 0);
}

#[test]
fn depth_refuses_a_cycle() {
    let catalog = vec![rollup("A", "B"), rollup("B", "A")];
    let state = DefinitionState::new(&catalog);
    assert_eq!(
        downsample_depth(&state, "A").unwrap_err(),
        Error::Other("detected a downsample dependency cycle involving 'A'".to_string())
    );
}

#[test]
fn bootstrap_runs_shallow_collections_first() {
    let catalog = vec![
        readings(),
        hourly("Readings", &["ts", "value"]),
        rollup("Daily", "Hourly"),
        rollup("A", "B"),
        rollup("B", "A"),
    ];
    let state = DefinitionState::new(&catalog);
    let targets = vec!["Daily".to_string(), "A".to_string(), "Hourly".to_string(), "Readings".to_string()];
    assert_eq!(bootstrap_order(&state, &targets), vec![3, 2, 0, 1]);
}

#[test]
fn stable_order_keeps_ties_in_place() {
    assert_eq!(stable_order_by_key(&vec![2, 0, 2, 1, 0]), vec![1, 4, 3, 0, 2]);
    assert_eq!(stable_order_by_key(&vec![]), Vec::<usize>::new());
}

#[test]
fn series_ids_prefer_the_source_doc_id_field() {
    assert_eq!(series_doc_id(Some("s-1"), Some("bae-1")).unwrap(), "s-1");
    assert_eq!(series_doc_id(None, Some("bae-1")).unwrap(), "bae-1");
    assert_eq!(
        series_doc_id(None, None).unwrap_err(),
        Error::Other("downsample source document is missing an id".to_string())
    );
}

#[test]
fn plans_refuse_an_interval_that_is_not_positive() {
    let catalog = vec![readings(), hourly("Readings", &["ts", "value", "site"])];
    let state = DefinitionState::new(&catalog);
    assert_eq!(
        build_downsample_plan(&state, &catalog[1], Ok(0)).unwrap_err(),
        Error::Other("downsample interval '1h' must be positive".to_string())
    );
    assert_eq!(
        build_downsample_plan(&state, &catalog[1], Ok(-5)).unwrap_err(),
        Error::Other("downsample interval '1h' must be positive".to_string())
    );
    assert_eq!(
        build_downsample_plan(&state, &catalog[1], Err("invalid duration: 1h".to_string())).unwrap_err(),
        Error::Other("invalid duration: 1h".to_string())
    );
}
