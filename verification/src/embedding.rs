//! Embedding generation decisions: which configured embeddings are generated
//! for a document write, and with which endpoint and model. The HTTP call and
//! the text rendering of field values are the caller's.

use vstd::prelude::*;
use vstd::string::StringExecFns;
use vstd::string::StrSliceExecFns;
use crate::schema::VectorEmbeddingDescription;
use crate::text::{cat2, chars_of, contains_name, listed};

verus! {

/// Node-level fallback settings for embedding generation.
#[derive(Debug)]
pub struct EmbeddingClientConfig {
    pub url: String,
    pub model: String,
    pub api_key: String,
}

impl EmbeddingClientConfig {
    /// Settings with every value empty.
    pub fn new() -> (res: Self)
        ensures
            res.url@.len() == 0,
            res.model@.len() == 0,
            res.api_key@.len() == 0,
    {
        EmbeddingClientConfig { url: String::new(), model: String::new(), api_key: String::new() }
    }

    /// The same settings with the given base URL.
    pub fn with_url(self, url: String) -> (res: Self)
        ensures
            res.url == url,
            res.model == self.model,
            res.api_key == self.api_key,
    {
        EmbeddingClientConfig { url, ..self }
    }

    /// The same settings with the given model.
    pub fn with_model(self, model: String) -> (res: Self)
        ensures
            res.url == self.url,
            res.model == model,
            res.api_key == self.api_key,
    {
        EmbeddingClientConfig { model, ..self }
    }

    /// The same settings with the given API key.
    pub fn with_api_key(self, api_key: String) -> (res: Self)
        ensures
            res.url == self.url,
            res.model == self.model,
            res.api_key == api_key,
    {
        EmbeddingClientConfig { api_key, ..self }
    }
}

/// Which setting an embedding lacks.
#[derive(PartialEq, Eq, Structural, Clone, Copy, Debug)]
pub enum MissingEmbeddingConfig {
    Url,
    Model,
}

/// The endpoint and model an embedding is generated with.
#[derive(Debug, PartialEq, Eq)]
pub struct ResolvedEmbeddingConfig<'a> {
    pub url: &'a str,
    pub model: &'a str,
}

/// The value used for a setting: the schema's when given, else the node's.
pub open spec fn effective(schema_value: Seq<char>, node_value: Seq<char>) -> Seq<char> {
    if schema_value.len() == 0 { node_value } else { schema_value }
}

/// Resolves the endpoint and model of an embedding: the schema's values win,
/// the node's settings fill in; a missing URL is reported before a missing model.
pub fn resolve_embedding_config<'a>(embedding: &'a VectorEmbeddingDescription, embedding_config: &'a EmbeddingClientConfig)
    -> (res: Result<ResolvedEmbeddingConfig<'a>, MissingEmbeddingConfig>)
    ensures
        ({
            let url = effective(embedding.url@, embedding_config.url@);
            let model = effective(embedding.model@, embedding_config.model@);
            if url.len() == 0 {
                res matches Err(MissingEmbeddingConfig::Url)
            } else if model.len() == 0 {
                res matches Err(MissingEmbeddingConfig::Model)
            } else {
                res matches Ok(r) && r.url@ == url && r.model@ == model
            }
        }),
{
    let url = if embedding.url.as_str().is_empty() { embedding_config.url.as_str() } else { embedding.url.as_str() };
    if url.is_empty() {
        return Err(MissingEmbeddingConfig::Url);
    }
    let model = if embedding.model.as_str().is_empty() { embedding_config.model.as_str() } else { embedding.model.as_str() };
    if model.is_empty() {
        return Err(MissingEmbeddingConfig::Model);
    }
    Ok(ResolvedEmbeddingConfig { url, model })
}

/// What to do about one configured embedding on a document write.
#[derive(Debug, PartialEq, Eq)]
pub enum EmbeddingAction<'a> {
    /// The user wrote the vector, or no source field changed: leave it.
    Keep,
    /// No URL is configured: skip generation (not an error).
    SkipMissingUrl,
    /// No model is configured: skip generation (not an error).
    SkipMissingModel,
    /// Generate the vector with this endpoint and model.
    Generate(ResolvedEmbeddingConfig<'a>),
}


/// Whether an embedding is left as it is on this write.
pub open spec fn keeps(e: VectorEmbeddingDescription, is_create: bool, vector_set_by_user: bool,
    modified_fields: Option<Seq<String>>) -> bool {
    if is_create {
        vector_set_by_user
    } else {
        match modified_fields {
            None => false,
            Some(m) => listed(m, e.field_name@)
                || !(exists|i: int| 0 <= i < e.fields@.len() && listed(m, #[trigger] e.fields@[i]@)),
        }
    }
}

/// Decides what happens to one configured embedding on a write. On create
/// the vector is generated unless the user set it; on update it is generated
/// only when a source field was modified and the vector itself was not; a
/// missing endpoint or model skips generation.
pub fn embedding_action<'a>(embedding: &'a VectorEmbeddingDescription, is_create: bool, vector_set_by_user: bool,
    modified_fields: Option<&Vec<String>>, embedding_config: &'a EmbeddingClientConfig) -> (res: EmbeddingAction<'a>)
    ensures
        ({
            let m = match modified_fields { Some(v) => Some(v@), None => None::<Seq<String>> };
            let url = effective(embedding.url@, embedding_config.url@);
            let model = effective(embedding.model@, embedding_config.model@);
            if keeps(*embedding, is_create, vector_set_by_user, m) {
                res is Keep
            } else if url.len() == 0 {
                res is SkipMissingUrl
            } else if model.len() == 0 {
                res is SkipMissingModel
            } else {
                res matches EmbeddingAction::Generate(r) && r.url@ == url && r.model@ == model
            }
        }),
{
    if is_create {
        if vector_set_by_user {
            return EmbeddingAction::Keep;
        }
    } else if let Some(fields) = modified_fields {
        if contains_name(fields, embedding.field_name.as_str()) {
            return EmbeddingAction::Keep;
        }
        let mut any_source_modified = false;
        let mut i: usize = 0;
        while i < embedding.fields.len()
            invariant
                0 <= i <= embedding.fields.len(),
                any_source_modified == exists|k: int| 0 <= k < i && listed(fields@, #[trigger] embedding.fields@[k]@),
            decreases embedding.fields.len() - i,
        {
            if contains_name(fields, embedding.fields[i].as_str()) {
                any_source_modified = true;
            }
            i += 1;
        }
        if !any_source_modified {
            return EmbeddingAction::Keep;
        }
    }
    match resolve_embedding_config(embedding, embedding_config) {
        Ok(r) => EmbeddingAction::Generate(r),
        Err(MissingEmbeddingConfig::Url) => EmbeddingAction::SkipMissingUrl,
        Err(MissingEmbeddingConfig::Model) => EmbeddingAction::SkipMissingModel,
    }
}

/// The endpoint the embeddings API is called at: the base URL without
/// trailing slashes, followed by `/embeddings`.
pub open spec fn embeddings_endpoint(url: Seq<char>) -> Seq<char> {
    trim_trailing_slashes(url) + "/embeddings"@
}

/// `s` without its trailing `/` characters.
pub open spec fn trim_trailing_slashes(s: Seq<char>) -> Seq<char>
    decreases s.len(),
{
    if s.len() > 0 && s.last() == '/' { trim_trailing_slashes(s.drop_last()) } else { s }
}

/// The embeddings endpoint for a base URL (see `embeddings_endpoint`).
pub fn embedding_endpoint(url: &str) -> (res: String)
    ensures
        res@ == embeddings_endpoint(url@),
{
    let cs = chars_of(url);
    let mut n: usize = cs.len();
    assert(url@.take(n as int) =~= url@);
    while n > 0 && cs[n - 1] == '/'
        invariant
            cs@ == url@,
            n <= cs.len(),
            trim_trailing_slashes(url@) == trim_trailing_slashes(url@.take(n as int)),
        decreases n,
    {
        assert(url@.take(n as int).drop_last() =~= url@.take(n - 1));
        n -= 1;
    }
    let base = url.substring_char(0, n);
    assert(base@ =~= url@.take(n as int));
    cat2(base, "/embeddings")
}

} // verus!
