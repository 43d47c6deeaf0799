use grimoire::config::EmbeddingConfig;
use grimoire::semantic::{document_input, model_files, query_input, validate_embedding_config};

#[test]
fn embedding_profile_rejects_unsafe_model_paths() {
    let config = EmbeddingConfig {
        model_file: "../model.onnx".to_string(),
        ..EmbeddingConfig::default()
    };
    assert!(validate_embedding_config(&config).is_err());
}

#[test]
fn embedding_profile_controls_prompts_and_index_identity() {
    let default = EmbeddingConfig::default();
    assert_eq!(
        query_input(&default, "synthetic query"),
        "task: search result | query: synthetic query"
    );
    assert_eq!(
        document_input(&default, "Synthetic Paper", "synthetic passage"),
        "title: Synthetic Paper | text: synthetic passage"
    );
    assert!(validate_embedding_config(&default).is_ok());
}

#[test]
fn absolute_paths_and_empty_profiles_are_refused() {
    let absolute = EmbeddingConfig {
        tokenizer_file: "/etc/passwd".to_string(),
        ..EmbeddingConfig::default()
    };
    assert!(validate_embedding_config(&absolute).is_err());
    let no_batch = EmbeddingConfig {
        batch_size: 0,
        ..EmbeddingConfig::default()
    };
    assert!(validate_embedding_config(&no_batch).is_err());
}

#[test]
fn model_files_are_sorted_and_listed_once() {
    let mut config = EmbeddingConfig::standard();
    assert_eq!(
        model_files(&config),
        vec![
            "config.json",
            "onnx/model_q4.onnx",
            "onnx/model_q4.onnx_data",
            "special_tokens_map.json",
            "tokenizer.json",
            "tokenizer_config.json",
        ]
    );
    config.external_files.push("tokenizer.json".to_string());
    config.config_file = "tokenizer.json".to_string();
    assert_eq!(
        model_files(&config),
        vec![
            "onnx/model_q4.onnx",
            "onnx/model_q4.onnx_data",
            "special_tokens_map.json",
            "tokenizer.json",
            "tokenizer_config.json",
        ]
    );
}
