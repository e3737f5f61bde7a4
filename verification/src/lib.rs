//! Verified core logic of the DefraDB database layer: collection naming,
//! selection, snapshots and lock order, schema-patch validation, commit
//! history and the walks over its DAG, document short-ID allocation and ID
//! mappings, downsampling (plans, samples, windows and the order collections
//! are filled in) and P2P broadcast retries.

pub mod error;
pub mod text;
mod outside;
pub mod collection_name;
pub mod schema;
pub mod selector;
pub mod definition_validation;
pub mod doc_ids;
pub mod broadcast;
pub mod collection_acp;
pub mod commits;
pub mod commit_walk;
pub mod value_compat;
pub mod embedding;
pub mod downsample;
pub mod source_query;
pub mod downsample_plan;
pub mod downsample_windows;
pub mod downsample_samples;
pub mod downsample_order;
pub mod doc_id_index;
pub mod collection_setup;
pub mod doc_access;
pub mod downsample_apply;
pub mod collection_keys;
pub mod version_activation;
pub mod collection_locks;
pub mod index_format;
pub mod collection_snapshot;
pub mod collection_provider;
