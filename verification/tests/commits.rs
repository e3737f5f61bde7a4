use defradb_core::commits::{
    block_to_commit_doc, looks_like_cidv1, parse_commit_cid, plan_commits_query, should_traverse,
    sort_commits_go_order, Block, BlockLink, CommitDoc, CommitsPlan, CommitsQueryOptions, CrdtDelta,
};
use defradb_core::commit_walk::{backfill_walk, head_cids, root_head_cids, DepthWalk, HeadsWalk};
use defradb_core::error::Error;

fn commit(doc_id: &str, field_name: &str) -> CommitDoc {
    CommitDoc {
        cid: format!("{}-{}", doc_id, field_name),
        height: 1,
        field_name: Some(field_name.to_string()),
        doc_id: Some(doc_id.to_string()),
        delta: None,
        collection_version_id: None,
        links: Vec::new(),
        heads: Vec::new(),
    }
}

#[test]
fn commits_fetcher_test_commits_query_options_default() {
    let opts = CommitsQueryOptions::default();
    assert!(opts.doc_id.is_none());
    assert!(opts.cid.is_none());
    assert!(opts.depth.is_none());
    assert!(opts.field_name.is_none());
}

#[test]
fn tests_test_commits_query_options_default() {
    let opts = CommitsQueryOptions::default();
    assert!(opts.doc_id.is_none());
    assert!(opts.cid.is_none());
    assert!(opts.depth.is_none());
    assert!(opts.height_start.is_none());
    assert!(opts.height_end.is_none());
    assert!(opts.field_name.is_none());
}

#[test]
fn test_commits_query_options_default_height_range() {
    let options = CommitsQueryOptions::default();
    assert!(options.height_start.is_none());
    assert!(options.height_end.is_none());
}

#[test]
fn sort_commits_preserves_document_discovery_order() {
    let mut commits = vec![
        commit("z-first", "_C"),
        commit("z-first", "name"),
        commit("a-second", "_C"),
        commit("a-second", "age"),
    ];

    sort_commits_go_order(&mut commits);

    let actual: Vec<_> = commits
        .iter()
        .map(|commit| (commit.doc_id.as_deref(), commit.field_name.as_deref()))
        .collect();
    assert_eq!(
        actual,
        vec![
            (Some("z-first"), Some("name")),
            (Some("z-first"), Some("_C")),
            (Some("a-second"), Some("age")),
            (Some("a-second"), Some("_C")),
        ]
    );
}

#[test]
fn commits_fetcher_test_looks_like_cidv1() {
    assert!(looks_like_cidv1("bafybeid57gpbwi4i6bg7g35hhhhhhhhhhhhhhhhhhhhhhhdoesnotexist"));
    assert!(looks_like_cidv1("bafyreiajq6jmyblg2b6vupjdapzkaodbt7kkwqp4fijekdvydnyxvr4y7q"));
    assert!(!looks_like_cidv1("fhbnjfahfhfhanfhga"));
    assert!(!looks_like_cidv1("short"));
    assert!(!looks_like_cidv1("randomtext"));
}

#[test]
fn tests_test_looks_like_cidv1() {
    assert!(looks_like_cidv1("bafybeid57gpbwi4i6bg7g35hhhhhhhhhhhhhhhhhhhhhhhdoesnotexist"));
    assert!(looks_like_cidv1("bafyreiajq6jmyblg2b6vupjdapzkaodbt7kkwqp4fijekdvydnyxvr4y7q"));
    assert!(!looks_like_cidv1("fhbnjfahfhfhanfhga"));
    assert!(!looks_like_cidv1("short"));
    assert!(!looks_like_cidv1("randomtext"));
}

#[test]
fn test_invalid_cid_parsing() {
    let result = parse_commit_cid("fhbnjfahfhfhanfhga");
    assert!(result.is_err(), "Invalid CID should fail to parse");
}

#[test]
fn test_valid_cid_parsing() {
    let result = parse_commit_cid("bafyreiajq6jmyblg2b6vupjdapzkaodbt7kkwqp4fijekdvydnyxvr4y7q");
    assert!(result.is_ok(), "Valid CID should parse");
}

#[test]
fn test_unknown_cid_parsing() {
    let result = parse_commit_cid("bafybeid57gpbwi4i6bg7g35hhhhhhhhhhhhhhhhhhhhhhhdoesnotexist");
    if let Err(e) = &result {
        assert_eq!(e, &Error::Serialization("cid either does not exist or belong to document".to_string()));
    }
}

#[test]
fn test_truly_invalid_cid_parsing() {
    let result = parse_commit_cid("fhbnjfahfhfhanfhga");
    assert!(result.is_err(), "Truly invalid CID should fail to parse");
}

#[test]
fn unparsable_cids_get_the_message_of_their_shape() {
    assert_eq!(
        parse_commit_cid("fhbnjfahfhfhanfhga"),
        Err(Error::Serialization("invalid cid: selected encoding not supported".to_string()))
    );
    assert_eq!(
        parse_commit_cid("bafybeid57gpbwi4i6bg7g35hhhhhhhhhhhhhhhhhhhhhhhdoesnotexist!"),
        Err(Error::Serialization("cid either does not exist or belong to document".to_string()))
    );
}

#[test]
fn commits_query_plan_prefers_cid_then_height_range() {
    let mut opts = CommitsQueryOptions::default();
    assert_eq!(plan_commits_query(&opts), CommitsPlan::FromHeads);
    opts.doc_id = Some("bae-1".to_string());
    opts.height_start = Some(3);
    assert_eq!(plan_commits_query(&opts), CommitsPlan::ByHeightRange);
    opts.depth = Some(2);
    assert_eq!(plan_commits_query(&opts), CommitsPlan::FromHeads);
    opts.cid = Some("bafy".to_string());
    assert_eq!(plan_commits_query(&opts), CommitsPlan::ByCid);
}

#[test]
fn traversal_depth_counts_the_heads_as_the_first_level() {
    assert!(should_traverse(None, 100));
    assert!(should_traverse(Some(2), 0));
    assert!(!should_traverse(Some(1), 0));
    assert!(!should_traverse(Some(0), 0));
}

#[test]
fn block_becomes_a_commit_record_with_base64_delta() {
    let block = Block {
        delta: CrdtDelta::Lww {
            field_name: "name".to_string(),
            schema_version_id: "v1".to_string(),
            priority: 3,
            data: vec![0x66, 0x6f, 0x6f],
        },
        links: Some(vec![BlockLink { name: "_head".to_string(), cid: "bafyparent".to_string() }]),
        heads: Some(vec!["bafyhead".to_string()]),
    };
    let doc = block_to_commit_doc(&"bafyblock".to_string(), &block, &Some("bae-1".to_string()));
    assert_eq!(doc.cid, "bafyblock");
    assert_eq!(doc.height, 3);
    assert_eq!(doc.field_name.as_deref(), Some("name"));
    assert_eq!(doc.doc_id.as_deref(), Some("bae-1"));
    assert_eq!(doc.delta.as_deref(), Some("Zm9v"));
    assert_eq!(doc.collection_version_id.as_deref(), Some("v1"));
    assert_eq!(doc.links.len(), 1);
    assert_eq!(doc.links[0].cid, "bafyparent");
    assert_eq!(doc.links[0].field_name, "_head");
    assert_eq!(doc.heads, vec!["bafyhead".to_string()]);
}

#[test]
fn composite_block_is_recorded_under_the_composite_field() {
    let block = Block {
        delta: CrdtDelta::Composite { schema_version_id: "v1".to_string(), priority: 1, status: 0 },
        links: None,
        heads: None,
    };
    let doc = block_to_commit_doc(&"bafyc".to_string(), &block, &None);
    assert_eq!(doc.field_name.as_deref(), Some("_C"));
    assert_eq!(doc.delta, None);
    assert!(doc.links.is_empty());
    assert!(doc.heads.is_empty());
}

fn dag_block(field: &str, parents: &[&str]) -> Block {
    Block {
        delta: CrdtDelta::Lww {
            field_name: field.to_string(),
            schema_version_id: "v1".to_string(),
            priority: 1,
            data: vec![1],
        },
        links: None,
        heads: if parents.is_empty() { None } else { Some(parents.iter().map(|p| p.to_string()).collect()) },
    }
}

fn dag() -> Vec<(&'static str, Block)> {
    vec![
        ("h1", dag_block("name", &["p1", "p2"])),
        ("h2", dag_block("name", &["p1"])),
        ("p1", dag_block("name", &["g"])),
        ("p2", dag_block("age", &[])),
        ("g", dag_block("name", &[])),
    ]
}

fn walk_heads(heads: &[&str], depth: Option<u64>, filter: Option<&str>) -> Vec<(String, u64)> {
    let blocks = dag();
    let filter = filter.map(|f| f.to_string());
    let mut walk = HeadsWalk::new(heads.iter().map(|h| h.to_string()).collect(), depth);
    let mut kept = Vec::new();
    while let Some((cid, d)) = walk.next_block() {
        if let Some((_, block)) = blocks.iter().find(|(c, _)| *c == cid) {
            if walk.block_loaded(&filter, block) {
                kept.push((cid, d));
            }
        }
    }
    kept
}

fn names(v: Vec<(String, u64)>) -> Vec<String> {
    v.into_iter().map(|(c, _)| c).collect()
}

#[test]
fn head_walk_visits_each_commit_once_depth_first() {
    let kept = walk_heads(&["h1", "h2"], None, None);
    assert_eq!(
        kept,
        vec![
            ("h1".to_string(), 0),
            ("p2".to_string(), 1),
            ("p1".to_string(), 1),
            ("g".to_string(), 2),
            ("h2".to_string(), 0)
        ]
    );
}

#[test]
fn head_walk_stops_at_the_depth_limit() {
    assert_eq!(names(walk_heads(&["h1", "h2"], Some(2), None)), vec!["h1", "p2", "p1", "h2"]);
    assert_eq!(names(walk_heads(&["h1", "h2"], Some(1), None)), vec!["h1", "h2"]);
    assert_eq!(names(walk_heads(&["h1", "h2"], Some(0), None)), vec!["h1", "h2"]);
}

#[test]
fn head_walk_skips_filtered_commits_and_their_parents() {
    assert_eq!(names(walk_heads(&["h1", "h2"], None, Some("name"))), vec!["h1", "p1", "g", "h2"]);
    assert_eq!(names(walk_heads(&["p2", "h1"], None, Some("name"))), vec!["h1", "p1", "g"]);
}

#[test]
fn head_walk_skips_blocks_that_do_not_load() {
    assert_eq!(names(walk_heads(&["missing", "h2"], None, None)), vec!["h2", "p1", "g"]);
}

fn walk_below(root: &Block, depth: Option<u64>) -> Vec<(String, u64)> {
    let blocks = vec![
        ("a", dag_block("name", &["c"])),
        ("b", dag_block("name", &["c"])),
        ("c", dag_block("name", &[])),
    ];
    let mut walk = DepthWalk::new(root, depth);
    let mut kept = Vec::new();
    while let Some((cid, r)) = walk.next_block() {
        if let Some((_, block)) = blocks.iter().find(|(c, _)| *c == cid) {
            if walk.block_loaded(&None, block) {
                kept.push((cid, r));
            }
        }
    }
    kept
}

#[test]
fn walk_below_a_named_commit_follows_parents_in_order() {
    let root = dag_block("name", &["a", "b"]);
    assert_eq!(
        walk_below(&root, Some(3)),
        vec![("a".to_string(), 1), ("c".to_string(), 0), ("b".to_string(), 1), ("c".to_string(), 0)]
    );
    assert_eq!(names(walk_below(&root, Some(2))), vec!["a", "b"]);
    assert!(walk_below(&root, Some(1)).is_empty());
    assert!(walk_below(&root, None).is_empty());
}

const CID_A: &str = "bafyreiajq6jmyblg2b6vupjdapzkaodbt7kkwqp4fijekdvydnyxvr4y7q";

#[test]
fn heads_are_read_from_collection_and_document_keys() {
    let collection_keys: Vec<Vec<u8>> = vec![
        format!("/c/col-1/{}", CID_A).into_bytes(),
        b"/c/col-1".to_vec(),
        format!("/c/col-1/{}/extra", CID_A).into_bytes(),
        b"/c/col-1/not-a-cid".to_vec(),
    ];
    let mut doc_key = vec![47u8, 100, 47, 0x81, 47];
    doc_key.extend_from_slice(format!("name/{}", CID_A).as_bytes());
    let doc_keys: Vec<Vec<u8>> = vec![doc_key, b"/d/x/name/garbage".to_vec()];
    assert_eq!(head_cids(&collection_keys, &doc_keys), vec![CID_A.to_string(); 3]);
    assert_eq!(head_cids(&Vec::new(), &doc_keys), vec![CID_A.to_string()]);
}

#[test]
fn backfill_roots_are_distinct() {
    let keys: Vec<Vec<u8>> = vec![
        format!("/d/a/name/{}", CID_A).into_bytes(),
        format!("/d/a/age/{}", CID_A).into_bytes(),
        b"/d/a/age/nope".to_vec(),
    ];
    assert_eq!(root_head_cids(&keys), vec![CID_A.to_string()]);
}

#[test]
fn backfill_walk_takes_the_last_root_first() {
    let blocks = dag();
    let mut walk = backfill_walk(&vec!["h1".to_string(), "h2".to_string()]);
    let mut order = Vec::new();
    while let Some((cid, _)) = walk.next_block() {
        if let Some((_, block)) = blocks.iter().find(|(c, _)| *c == cid) {
            if walk.block_loaded(&None, block) {
                order.push(cid);
            }
        }
    }
    assert_eq!(order, vec!["h2", "p1", "g", "h1", "p2"]);
}

#[test]
fn delta_text_is_padded_standard_base64() {
    for (data, text) in [(vec![0x66u8], "Zg=="), (vec![0x66, 0x6f], "Zm8="), (vec![0xfb, 0xff], "+/8=")] {
        let block = Block {
            delta: CrdtDelta::Lww {
                field_name: "name".to_string(),
                schema_version_id: "v1".to_string(),
                priority: 1,
                data,
            },
            links: None,
            heads: None,
        };
        let doc = block_to_commit_doc(&"bafyblock".to_string(), &block, &None);
        assert_eq!(doc.delta.as_deref(), Some(text));
    }
}
