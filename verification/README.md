# defradb_core

The decision logic of a document database layer, written in Verus and proved
against its contracts: what the storage, network and task code around it asks,
and what it is answered, stated as `requires`/`ensures` over mathematical
models (sequences, maps, sets and views of the library's types).

## Layout

- `src/` — the verified library.
  - Collections: `collection_name`, `selector`, `schema`, `definition_validation`
    (schema patches and their validators), `collection_setup` and
    `collection_keys` (store keys, short IDs, placeholders, clearing a
    collection), `collection_snapshot`, `collection_provider`, `collection_locks`,
    `collection_acp`,
    `version_activation`, `index_format`.
  - Documents: `doc_ids` (short-ID allocation), `doc_id_index` (ID mappings,
    aliases, block ownership), `doc_access`, `value_compat`, `embedding`.
  - Commit history: `commits` (commit records and their order), `commit_walk`
    (the walks over the commit DAG, driven by the caller who loads blocks).
  - Downsampling: `downsample` (aggregates, durations), `source_query`,
    `downsample_plan`, `downsample_order`, `downsample_samples`,
    `downsample_windows`, `downsample_apply`.
  - Broadcasting: `broadcast` (retry decisions).
  - `text` holds string helpers; `outside` holds the few calls into other
    crates (`cid`, `base64`, `chrono`, parts of `std`), each with the contract
    the rest of the library relies on.
- `tests/` — tests of the library on concrete values.
- `app/` — what cannot be verified: the asynchronous retry loop around
  broadcasting, floating-point folds of window values, and JSON decoding.

The public proof functions named `law_*` state properties that span several
operations, such as that a stamped index format reads back, that a downsample
collection is filled after its source, or that deleting a block's mappings
removes them.
