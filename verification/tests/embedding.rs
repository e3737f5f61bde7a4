use defradb_core::embedding::{
    embedding_action, embedding_endpoint, resolve_embedding_config, EmbeddingAction, EmbeddingClientConfig,
    MissingEmbeddingConfig, ResolvedEmbeddingConfig,
};
use defradb_core::schema::VectorEmbeddingDescription;

fn embedding_with(url: &str, model: &str) -> VectorEmbeddingDescription {
    VectorEmbeddingDescription {
        field_name: "content_v".to_string(),
        fields: vec!["content".to_string()],
        model: model.to_string(),
        provider: "openai".to_string(),
        template: String::new(),
        url: url.to_string(),
    }
}

#[test]
fn resolve_embedding_config_prefers_schema_values() {
    let embedding = embedding_with("https://schema.example/v1", "schema-model");
    let config = EmbeddingClientConfig::new()
        .with_url("https://node.example/v1".to_string())
        .with_model("node-model".to_string())
        .with_api_key("secret".to_string());

    let resolved = resolve_embedding_config(&embedding, &config).unwrap();

    assert_eq!(
        resolved,
        ResolvedEmbeddingConfig {
            url: "https://schema.example/v1",
            model: "schema-model",
        }
    );
}

#[test]
fn resolve_embedding_config_falls_back_to_node_values() {
    let embedding = embedding_with("", "");
    let config = EmbeddingClientConfig::new()
        .with_url("https://node.example/v1".to_string())
        .with_model("node-model".to_string());

    let resolved = resolve_embedding_config(&embedding, &config).unwrap();

    assert_eq!(
        resolved,
        ResolvedEmbeddingConfig {
            url: "https://node.example/v1",
            model: "node-model",
        }
    );
}

#[test]
fn resolve_embedding_config_requires_url() {
    let embedding = embedding_with("", "schema-model");
    let config = EmbeddingClientConfig::new();

    assert_eq!(resolve_embedding_config(&embedding, &config), Err(MissingEmbeddingConfig::Url));
}

#[test]
fn resolve_embedding_config_requires_model() {
    let embedding = embedding_with("https://schema.example/v1", "");
    let config = EmbeddingClientConfig::new();

    assert_eq!(resolve_embedding_config(&embedding, &config), Err(MissingEmbeddingConfig::Model));
}

#[test]
fn set_embedding_skips_when_effective_config_is_missing() {
    let embedding = embedding_with("", "");
    let config = EmbeddingClientConfig::new();
    let action = embedding_action(&embedding, true, false, None, &config);
    assert_eq!(action, EmbeddingAction::SkipMissingUrl);
}

#[test]
fn user_supplied_vector_is_kept_on_create() {
    let embedding = embedding_with("https://e.example", "m");
    let config = EmbeddingClientConfig::new();
    assert_eq!(embedding_action(&embedding, true, true, None, &config), EmbeddingAction::Keep);
}

#[test]
fn update_regenerates_only_when_a_source_field_changed() {
    let embedding = embedding_with("https://e.example", "m");
    let config = EmbeddingClientConfig::new();
    let unrelated = vec!["title".to_string()];
    assert_eq!(embedding_action(&embedding, false, false, Some(&unrelated), &config), EmbeddingAction::Keep);
    let vector_written = vec!["content".to_string(), "content_v".to_string()];
    assert_eq!(embedding_action(&embedding, false, false, Some(&vector_written), &config), EmbeddingAction::Keep);
    let source_changed = vec!["content".to_string()];
    assert_eq!(
        embedding_action(&embedding, false, false, Some(&source_changed), &config),
        EmbeddingAction::Generate(ResolvedEmbeddingConfig { url: "https://e.example", model: "m" })
    );
}

#[test]
fn missing_model_is_reported_after_the_url() {
    let embedding = embedding_with("https://e.example", "");
    let config = EmbeddingClientConfig::new();
    assert_eq!(embedding_action(&embedding, true, false, None, &config), EmbeddingAction::SkipMissingModel);
}

#[test]
fn embeddings_endpoint_drops_trailing_slashes() {
    assert_eq!(embedding_endpoint("https://api.example/v1//"), "https://api.example/v1/embeddings");
    assert_eq!(embedding_endpoint("https://api.example/v1"), "https://api.example/v1/embeddings");
}
