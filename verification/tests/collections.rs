use defradb_core::collection_provider::{classify_name_entry, merge_collection_names, NameEntry};
use defradb_core::collection_snapshot::CollectionSnapshot;
use defradb_core::index_format::{decode_index_format, encode_index_format, index_format_is_current, stale_index_collections, CURRENT_INDEX_FORMAT};
use defradb_core::collection_keys::{doc_ids_from_data_keys, head_key_cids};
use defradb_core::collection_locks::collection_lock_order;
use defradb_core::version_activation::set_active_collection_version;
use defradb_core::collection_keys::{collection_key_prefix, deleted_key, deleted_key_prefix, doc_key, version_key};
use defradb_core::collection_keys::{load_persisted_collection_short_id, require_persisted_collection_short_id};
use defradb_core::collection_keys::resolve_collection_ids;
use defradb_core::definition_validation::DefinitionState;
use defradb_core::collection_keys::{create_orphan_placeholder, create_placeholder_with_source};
use defradb_core::collection_keys::validate_immutable_fields_unchanged;
use defradb_core::collection_acp::{check_policy_transition, doc_collection_info, PolicyTransitionCheck};
use defradb_core::collection_name::CollectionName;
use defradb_core::collection_setup::{
    assign_index_ids, collection_key_name, decode_sequence_counter, extract_last_path_segment_str,
    field_block_order, next_collection_short_id, parse_short_id,
};
use defradb_core::definition_validation::{
    is_crdt_type_supported, is_known_embedding_provider, validate_collection_changes, validate_new_collections,
};
use defradb_core::doc_access::{
    counter_fields_to_record, dedup_preserving_order, in_scan_strategy, needs_committed_read, InScanStrategy,
    PageCollector,
};
use defradb_core::error::Error;
use defradb_core::schema::{
    CType, CollectionVersion, FieldDescription, FieldKind, PolicyDescription, ScalarKind,
};
use defradb_core::selector::CollectionSelector;
use defradb_core::value_compat::{
    is_empty_array, is_value_compatible_with_array, is_value_compatible_with_kind, NormalValue,
};
use defradb_core::schema::ScalarArrayKind;

fn field(name: &str, kind: ScalarKind, crdt: CType) -> FieldDescription {
    FieldDescription {
        id: if name.is_empty() { String::new() } else { format!("f-{}", name) },
        name: name.to_string(),
        kind: FieldKind::Scalar(kind),
        crdt_type: crdt,
        immutable: false,
    }
}

fn collection(name: &str, fields: Vec<FieldDescription>) -> CollectionVersion {
    CollectionVersion {
        name: name.to_string(),
        version_id: format!("v-{}", name),
        collection_id: format!("c-{}", name),
        is_active: true,
        is_placeholder: false,
        is_branchable: false,
        is_materialized: true,
        fields,
        policy: None,
        indexes: Vec::new(),
        previous_version: None,
        query: None,
        vector_embeddings: Vec::new(),
        downsample_interval: None,
        downsample_time_field: None,
        downsample_source: None,
    }
}

fn policy(id: &str, resource: &str) -> PolicyDescription {
    PolicyDescription { id: id.to_string(), resource_name: resource.to_string() }
}

#[test]
fn collection_names_are_validated_in_order() {
    assert_eq!(CollectionName::new("Users").unwrap().as_str(), "Users");
    assert_eq!(CollectionName::new("Users").unwrap().into_string(), "Users".to_string());
    assert_eq!(
        CollectionName::new("").err(),
        Some(Error::InvalidCollectionName("collection name cannot be empty".to_string()))
    );
    assert_eq!(
        CollectionName::new("a/b\0").err(),
        Some(Error::InvalidCollectionName("collection name 'a/b\0' cannot contain '/'".to_string()))
    );
    assert_eq!(
        CollectionName::new("a\0").err(),
        Some(Error::InvalidCollectionName("collection name 'a\0' cannot contain null bytes".to_string()))
    );
}

#[test]
fn selectors_filter_by_name_version_and_activity() {
    let users = collection("Users", vec![]);
    let mut old_users = collection("Users", vec![]);
    old_users.is_active = false;
    old_users.version_id = "v-old".to_string();

    let all = CollectionSelector::all();
    assert!(all.is_unfiltered());
    assert!(all.selects(&users));
    assert!(!all.selects(&old_users));

    let named = CollectionSelector::with_names(vec!["Posts".to_string()]);
    assert!(!named.is_unfiltered());
    assert!(!named.selects(&users));

    let by_version = CollectionSelector {
        names: None,
        version_id: Some("v-old".to_string()),
        collection_id: None,
        get_inactive: false,
    };
    assert!(by_version.resolves_by_version_lookup());
    assert!(by_version.selects(&old_users));
    assert!(!by_version.selects(&users));
}

#[test]
fn policy_transitions_warn_about_exposure() {
    let a = policy("p1", "users");
    let b = policy("p2", "users");
    let c = policy("p1", "members");
    assert!(check_policy_transition(None, Some(&a)).is_safe());
    assert!(check_policy_transition(Some(&a), Some(&a)).is_safe());
    let removed = check_policy_transition(Some(&a), None);
    assert!(removed.has_warning());
    assert_eq!(
        removed.warning_message(),
        Some("Removing policy 'users' will make all documents in this collection public. Previously protected documents will become accessible to anyone.")
    );
    assert_eq!(
        check_policy_transition(Some(&a), Some(&c)).warning_message(),
        Some("Changing resource name from 'users' to 'members' will orphan existing ACP registrations. Previously protected documents will become public under the new policy.")
    );
    assert_eq!(
        check_policy_transition(Some(&a), Some(&b)),
        PolicyTransitionCheck::Warning {
            message: "Changing policy ID from 'p1' to 'p2' with same resource name. This may affect how permissions are evaluated.".to_string(),
            affected_doc_count: None,
        }
    );
}

#[test]
fn doc_collection_info_needs_a_policy() {
    let mut c = collection("Users", vec![]);
    assert!(doc_collection_info(&c).is_none());
    c.policy = Some(policy("p1", "users"));
    let info = doc_collection_info(&c).unwrap();
    assert_eq!(info.collection_id, "c-Users");
    assert_eq!(info.policy_id, "p1");
    assert_eq!(info.resource_name, "users");
}

#[test]
fn crdt_types_and_providers() {
    assert!(is_crdt_type_supported(CType::LwwRegister));
    assert!(is_crdt_type_supported(CType::PCounter));
    assert!(!is_crdt_type_supported(CType::Composite));
    assert!(is_known_embedding_provider("ollama"));
    assert!(!is_known_embedding_provider("other"));
}

#[test]
fn patches_cannot_add_or_rename_collections() {
    let old = vec![collection("Users", vec![])];
    let mut renamed = collection("People", vec![]);
    renamed.version_id = "v-Users".to_string();
    renamed.collection_id = "c-Users".to_string();
    assert_eq!(
        validate_collection_changes(&old, &[renamed]),
        Err("collection name cannot be mutated. NewName: People, OldName: Users".to_string())
    );
    assert_eq!(
        validate_collection_changes(&old, &[collection("Posts", vec![])]),
        Err("adding collections via patch is not supported. Name: Posts".to_string())
    );
    assert_eq!(validate_collection_changes(&old, &old), Ok(()));
}

#[test]
fn new_collections_cannot_index_counters() {
    assert_eq!(validate_new_collections(&[collection("Users", vec![field("n", ScalarKind::Int, CType::PnCounter)])]), Ok(()));
}

#[test]
fn value_kinds_and_arrays() {
    assert!(is_value_compatible_with_kind(&NormalValue::Int(3), &FieldKind::Scalar(ScalarKind::Int)));
    assert!(!is_value_compatible_with_kind(&NormalValue::String("x".to_string()), &FieldKind::Scalar(ScalarKind::Int)));
    assert!(is_value_compatible_with_kind(&NormalValue::Nil, &FieldKind::Scalar(ScalarKind::Int)));
    assert!(is_empty_array(&NormalValue::IntArray(0)));
    assert!(!is_empty_array(&NormalValue::IntArray(2)));
    assert!(is_value_compatible_with_array(&NormalValue::IntArray(2), ScalarArrayKind::IntArray));
    assert!(!is_value_compatible_with_array(&NormalValue::StringArray(2), ScalarArrayKind::IntArray));
}

#[test]
fn store_keys_and_counters() {
    assert_eq!(extract_last_path_segment_str(b"/collection/name/Users"), Some("Users".to_string()));
    assert_eq!(extract_last_path_segment_str(b"plain"), Some("plain".to_string()));
    assert_eq!(extract_last_path_segment_str(b"trailing/"), Some(String::new()));
    assert_eq!(extract_last_path_segment_str(&[0xff, 0x2f]), None);
    assert_eq!(collection_key_name("/collection/name/Users", "/collection/name/"), Ok("Users".to_string()));
    assert_eq!(
        collection_key_name("/other/Users", "/collection/name/"),
        Err(Error::Other("collection key '/other/Users' does not match expected prefix '/collection/name/'".to_string()))
    );
    assert_eq!(decode_sequence_counter(&Some(vec![0, 0, 1, 2])), 258);
    assert_eq!(decode_sequence_counter(&Some(vec![1, 2])), 0);
    assert_eq!(decode_sequence_counter(&None), 0);
    assert_eq!(next_collection_short_id(0), 1);
    assert_eq!(assign_index_ids(3, 4), (vec![5, 6, 7], 7));
    assert_eq!(parse_short_id("42"), Some(42));
    assert_eq!(parse_short_id("+7"), Some(7));
    assert_eq!(parse_short_id("4294967295"), Some(u32::MAX));
    assert_eq!(parse_short_id("4294967296"), None);
    assert_eq!(parse_short_id("-1"), None);
    assert_eq!(parse_short_id("+"), None);
    assert_eq!(parse_short_id(""), None);
}

#[test]
fn field_blocks_put_doc_id_first_then_names() {
    let fields = vec![
        field("name", ScalarKind::String, CType::LwwRegister),
        field("", ScalarKind::String, CType::LwwRegister),
        field("_docID", ScalarKind::DocID, CType::LwwRegister),
        field("age", ScalarKind::Int, CType::LwwRegister),
    ];
    assert_eq!(field_block_order(&fields), vec![2, 3, 0]);
}

#[test]
fn index_scans_page_and_dedup() {
    let mut page = PageCollector::new(Some(2), 1);
    assert!(page.offer("a".to_string()));
    assert!(page.offer("b".to_string()));
    assert!(!page.offer("c".to_string()));
    assert_eq!(page.entries, vec!["b".to_string(), "c".to_string()]);

    assert_eq!(in_scan_strategy(2, 1), InScanStrategy::FullKey);
    assert_eq!(in_scan_strategy(3, 1), InScanStrategy::Prefix);
    assert_eq!(in_scan_strategy(1, 0), InScanStrategy::Exact);

    let ids = vec!["x".to_string(), "y".to_string(), "x".to_string(), "z".to_string(), "y".to_string()];
    assert_eq!(dedup_preserving_order(ids), vec!["x".to_string(), "y".to_string(), "z".to_string()]);
}

#[test]
fn writes_record_present_counter_fields() {
    let fields = vec![
        field("a", ScalarKind::Int, CType::PnCounter),
        field("b", ScalarKind::Int, CType::LwwRegister),
        field("c", ScalarKind::Int, CType::PCounter),
    ];
    assert_eq!(counter_fields_to_record(&fields, &vec![true, true, true]), vec![0, 2]);
    assert_eq!(counter_fields_to_record(&fields, &vec![false, true, true]), vec![2]);
    assert!(needs_committed_read(&fields, &vec![false, false, true]));
    assert!(!needs_committed_read(&fields, &vec![false, true, false]));
}

#[test]
fn document_keys_follow_the_store_layout() {
    assert_eq!(collection_key_prefix("col1"), b"/d/col1/".to_vec());
    assert_eq!(doc_key("col1", "bae-1"), b"/d/col1/bae-1".to_vec());
    assert_eq!(deleted_key("col1", "bae-1"), b"/del/col1/bae-1".to_vec());
    assert_eq!(deleted_key_prefix("col1"), b"/del/col1/".to_vec());
    assert_eq!(version_key("col1", "bae-1"), b"/d/col1/bae-1/v".to_vec());
}

#[test]
fn persisted_short_ids_are_decimal_text() {
    assert_eq!(load_persisted_collection_short_id(&Some(b"12".to_vec())), Some(12));
    assert_eq!(load_persisted_collection_short_id(&Some(b"x".to_vec())), None);
    assert_eq!(load_persisted_collection_short_id(&Some(vec![0xff])), None);
    assert_eq!(load_persisted_collection_short_id(&None), None);
    assert_eq!(require_persisted_collection_short_id(Some(3), "c1"), Ok(3));
    assert_eq!(
        require_persisted_collection_short_id(None, "c1"),
        Err(Error::Other("missing persisted collection root_id for collection_id 'c1'".to_string()))
    );
}

#[test]
fn collection_names_resolve_to_ids() {
    let catalog = vec![collection("Users", vec![]), collection("Posts", vec![])];
    let state = DefinitionState::new(&catalog);
    assert_eq!(
        resolve_collection_ids(&state, &vec!["Posts".to_string(), "Users".to_string()]),
        Ok(vec![("Posts".to_string(), "c-Posts".to_string()), ("Users".to_string(), "c-Users".to_string())])
    );
    assert_eq!(
        resolve_collection_ids(&state, &vec!["Users".to_string(), "Nope".to_string()]),
        Err(Error::CollectionNotFound("Nope".to_string()))
    );
}

#[test]
fn placeholders_are_inactive_materialized_versions() {
    let orphan = create_orphan_placeholder("v9", "Ghost", "");
    assert_eq!(orphan.version_id, "v9");
    assert_eq!(orphan.name, "Ghost");
    assert_eq!(orphan.collection_id, "orphan");
    assert!(orphan.is_placeholder && orphan.is_materialized && !orphan.is_active);
    let sourced = create_placeholder_with_source("v2", "Users", "c-Users");
    assert_eq!(sourced.collection_id, "c-Users");
    assert!(sourced.fields.is_empty());
}

#[test]
fn immutable_field_validation_rejects_key_changes() {
    let mut agent = field("agent_did", ScalarKind::String, CType::LwwRegister);
    agent.immutable = true;
    let body = field("body", ScalarKind::String, CType::LwwRegister);
    let fields = vec![agent, body];
    let err = validate_immutable_fields_unchanged(&fields, &vec![false, true]).unwrap_err();
    assert!(err.message().contains("agent_did"));
}

#[test]
fn immutable_field_validation_allows_other_field_changes() {
    let mut agent = field("agent_did", ScalarKind::String, CType::LwwRegister);
    agent.immutable = true;
    let body = field("body", ScalarKind::String, CType::LwwRegister);
    let fields = vec![agent, body];
    assert_eq!(validate_immutable_fields_unchanged(&fields, &vec![true, false]), Ok(()));
}

#[test]
fn activating_a_version_deactivates_its_siblings() {
    let mut v1 = collection("Users", vec![]);
    v1.version_id = "v1".to_string();
    let mut v2 = collection("Users", vec![]);
    v2.version_id = "v2".to_string();
    v2.is_active = false;
    let other = collection("Posts", vec![]);
    let mut catalog = vec![v1, v2, other];
    let mut names = vec![
        ("Users".to_string(), "v1".to_string()),
        ("Posts".to_string(), "v-Posts".to_string()),
    ];
    assert_eq!(set_active_collection_version(&mut catalog, &mut names, &"v2".to_string()), Ok(()));
    assert!(!catalog[0].is_active);
    assert!(catalog[1].is_active);
    assert!(catalog[2].is_active);
    let users: Vec<&(String, String)> = names.iter().filter(|(n, _)| n == "Users").collect();
    assert_eq!(users, vec![&("Users".to_string(), "v2".to_string())]);
    assert!(names.contains(&("Posts".to_string(), "v-Posts".to_string())));
    let before = names.clone();
    assert_eq!(
        set_active_collection_version(&mut catalog, &mut names, &"v9".to_string()),
        Err(Error::CollectionVersionNotFound("v9".to_string()))
    );
    assert_eq!(
        set_active_collection_version(&mut catalog, &mut names, &String::new()),
        Err(Error::CollectionVersionIdEmpty)
    );
    assert_eq!(names, before);
    assert_eq!(catalog.len(), 3);
}

#[test]
fn write_locks_are_taken_once_in_ascending_order() {
    let ids = vec!["c-b".to_string(), "c-a".to_string(), "c-c".to_string(), "c-a".to_string()];
    let held = vec!["c-c".to_string()];
    assert_eq!(collection_lock_order(&ids, &held), vec!["c-a".to_string(), "c-b".to_string()]);
    assert_eq!(
        collection_lock_order(&ids, &Vec::new()),
        vec!["c-a".to_string(), "c-b".to_string(), "c-c".to_string()]
    );
    assert!(collection_lock_order(&Vec::new(), &held).is_empty());
}

#[test]
fn clearing_reads_document_ids_from_data_keys() {
    let keys: Vec<Vec<u8>> = vec![
        b"/d/col-1/bae-1".to_vec(),
        b"/d/col-1/bae-1/v".to_vec(),
        b"/d/col-1/".to_vec(),
        b"no-slash".to_vec(),
        b"/d/col-1/bae-2".to_vec(),
        vec![47u8, 0xff],
    ];
    assert_eq!(
        doc_ids_from_data_keys(&keys),
        vec!["bae-1".to_string(), "bae-2".to_string(), "\u{FFFD}".to_string()]
    );
}

#[test]
fn clearing_reads_block_cids_from_head_keys() {
    let cid = "bafyreiajq6jmyblg2b6vupjdapzkaodbt7kkwqp4fijekdvydnyxvr4y7q";
    let keys: Vec<Vec<u8>> = vec![
        format!("/d/bae-1/name/{}", cid).into_bytes(),
        b"/d/bae-1/name/not-a-cid".to_vec(),
        vec![47u8, 0xff, 47u8],
        cid.as_bytes().to_vec(),
    ];
    assert_eq!(head_key_cids(&keys), vec![cid.to_string(), cid.to_string()]);
}

#[test]
fn index_format_stamp_reads_back() {
    let stamp = encode_index_format(CURRENT_INDEX_FORMAT);
    assert_eq!(stamp, vec![0, 0, 0, 2]);
    assert_eq!(decode_index_format(&Some(stamp)), Some(2));
    assert_eq!(decode_index_format(&Some(vec![1, 2, 3, 4])), Some(0x0102_0304));
    assert_eq!(decode_index_format(&Some(vec![0, 2])), None);
    assert_eq!(decode_index_format(&None), None);
    assert!(index_format_is_current(Some(2)));
    assert!(!index_format_is_current(Some(1)));
    assert!(!index_format_is_current(None));
}

#[test]
fn only_indexed_collections_are_rebuilt() {
    let mut users = collection("Users", Vec::new());
    users.indexes.push(defradb_core::schema::IndexDescription {
        name: "by_name".to_string(),
        fields: Vec::new(),
        unique: false,
    });
    let posts = collection("Posts", Vec::new());
    assert_eq!(stale_index_collections(&vec![posts, users]), vec!["Users".to_string()]);
}

fn test_collection() -> CollectionVersion {
    collection("Users", vec![field("_docID", ScalarKind::DocID, CType::LwwRegister)])
}

#[test]
fn test_snapshot_get() {
    let snapshot = CollectionSnapshot::new(vec![("Users".to_string(), test_collection())]);
    assert!(snapshot.get("Users").is_some());
    assert!(snapshot.get("Posts").is_none());
}

#[test]
fn test_snapshot_contains() {
    let snapshot = CollectionSnapshot::new(vec![("Users".to_string(), test_collection())]);
    assert!(snapshot.contains("Users"));
    assert!(!snapshot.contains("Posts"));
}

#[test]
fn test_snapshot_len() {
    let snapshot = CollectionSnapshot::new(vec![("Users".to_string(), test_collection())]);
    assert_eq!(snapshot.len(), 1);
    assert!(!snapshot.is_empty());
}

#[test]
fn test_empty_snapshot() {
    let snapshot = CollectionSnapshot::new(Vec::new());
    assert!(snapshot.is_empty());
    assert_eq!(snapshot.len(), 0);
}

#[test]
fn test_snapshot_clone_is_cheap() {
    let snapshot1 = CollectionSnapshot::new(vec![("Users".to_string(), test_collection())]);
    let snapshot2 = snapshot1.clone();
    assert!(snapshot1.ptr_eq(&snapshot2));
    let snapshot3 = CollectionSnapshot::new(vec![("Users".to_string(), test_collection())]);
    assert!(!snapshot1.ptr_eq(&snapshot3));
}

#[test]
fn test_snapshot_names() {
    let snapshot = CollectionSnapshot::new(vec![
        ("Users".to_string(), test_collection()),
        ("Posts".to_string(), collection("Posts", Vec::new())),
    ]);
    let mut names = snapshot.names();
    names.sort();
    assert_eq!(names, vec!["Posts", "Users"]);
    assert_eq!(snapshot.get("Posts").unwrap().name, "Posts");
    assert_eq!(snapshot.iter().len(), 2);
}

#[test]
fn name_entries_hold_a_version_id_or_an_inline_definition() {
    assert_eq!(classify_name_entry(&b"bafy-v1".to_vec()), NameEntry::VersionId("bafy-v1".to_string()));
    assert_eq!(classify_name_entry(&b"{\"name\":\"Users\"}".to_vec()), NameEntry::InlineDefinition);
    assert_eq!(classify_name_entry(&vec![0xff, 0xfe]), NameEntry::InlineDefinition);
    assert_eq!(classify_name_entry(&Vec::new()), NameEntry::VersionId(String::new()));
}

#[test]
fn transactions_list_cached_and_own_collections_once() {
    let cached = vec!["Users".to_string(), "Posts".to_string()];
    let keys: Vec<Vec<u8>> = vec![
        b"/collection/name/Books".to_vec(),
        b"/collection/name/Users".to_vec(),
        b"/other/Authors".to_vec(),
        vec![0xff],
    ];
    let mut names = merge_collection_names(&cached, &keys, "/collection/name/");
    names.sort();
    assert_eq!(names, vec!["Books".to_string(), "Posts".to_string(), "Users".to_string()]);
}

#[test]
fn collection_names_round_trip() {
    let n = CollectionName::new("Users").unwrap();
    assert_eq!(n.as_str(), "Users");
    assert_eq!(CollectionName::new(n.as_str()), Ok(n.clone()));
    assert_eq!(n.clone().into_string(), "Users".to_string());
    assert_ne!(n, CollectionName::new("Posts").unwrap());
}

#[test]
fn selectors_compare_by_their_options() {
    let named = CollectionSelector::with_names(vec!["Posts".to_string()]);
    assert_eq!(named.clone(), named);
    assert_eq!(CollectionSelector::default(), CollectionSelector::all());
    assert_ne!(named, CollectionSelector::all());
    assert_ne!(named, CollectionSelector::with_names(vec!["Users".to_string()]));
    let mut inactive = CollectionSelector::all();
    inactive.get_inactive = true;
    assert_ne!(inactive, CollectionSelector::all());
}
