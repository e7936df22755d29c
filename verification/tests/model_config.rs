use llm_local_infra_lab::model_config::{
    ConfigError, LayerKind, ModelConfig, RawModelConfig, RawTextConfig,
};

fn text(layers: i64, types: &[&str]) -> RawTextConfig {
    RawTextConfig {
        hidden_size: 5120,
        num_hidden_layers: layers,
        layer_types: types.iter().map(|s| s.to_string()).collect(),
        num_attention_heads: 24,
        num_key_value_heads: None,
        head_dim: 256,
        intermediate_size: 17408,
        vocab_size: 248320,
        max_position_embeddings: Some(262144),
        mtp_num_hidden_layers: 1,
        tie_word_embeddings: None,
        dtype: None,
    }
}

#[test]
fn counts_layer_kinds_and_fills_defaults() {
    let cfg = ModelConfig::from_raw(RawModelConfig {
        architectures: None,
        model_type: None,
        text_config: text(
            5,
            &["linear_attention", "linear_attention", "full_attention", "mamba", "full_attention"],
        ),
        has_vision_config: true,
    })
    .unwrap();
    assert_eq!(cfg.architecture, "unknown");
    assert_eq!(cfg.model_type, "unknown");
    assert_eq!(cfg.declared_dtype, "unknown");
    assert_eq!(cfg.num_key_value_heads, 24);
    assert_eq!(cfg.full_attention_layers, 2);
    assert_eq!(cfg.linear_attention_layers, 2);
    assert_eq!(cfg.layer_types[3], LayerKind::Other);
    assert_eq!(cfg.max_position_embeddings, 262144);
    assert_eq!(cfg.mtp_layers, 1);
    assert!(!cfg.tie_word_embeddings);
    assert!(cfg.has_vision);
}

#[test]
fn first_architecture_is_taken() {
    let cfg = ModelConfig::from_raw(RawModelConfig {
        architectures: Some(vec!["A".to_string(), "B".to_string()]),
        model_type: Some("m".to_string()),
        text_config: text(0, &[]),
        has_vision_config: false,
    })
    .unwrap();
    assert_eq!(cfg.architecture, "A");
    assert_eq!(cfg.model_type, "m");
    let empty = ModelConfig::from_raw(RawModelConfig {
        architectures: Some(Vec::new()),
        model_type: None,
        text_config: text(0, &[]),
        has_vision_config: false,
    })
    .unwrap();
    assert_eq!(empty.architecture, "unknown");
}

#[test]
fn layer_count_mismatch_is_rejected() {
    let err = ModelConfig::from_raw(RawModelConfig {
        architectures: None,
        model_type: None,
        text_config: text(4, &["full_attention"]),
        has_vision_config: false,
    });
    assert!(matches!(
        err,
        Err(ConfigError::LayerCountMismatch { entries: 1, declared: 4 })
    ));
    let negative = ModelConfig::from_raw(RawModelConfig {
        architectures: None,
        model_type: None,
        text_config: text(-1, &[]),
        has_vision_config: false,
    });
    assert!(matches!(
        negative,
        Err(ConfigError::LayerCountMismatch { entries: 0, declared: -1 })
    ));
}

#[test]
fn layer_kinds_partition_the_layers() {
    let cfg = ModelConfig::from_raw(RawModelConfig {
        architectures: None,
        model_type: None,
        text_config: text(
            6,
            &["full_attention", "x", "linear_attention", "", "full_attention", "linear_attention"],
        ),
        has_vision_config: false,
    })
    .unwrap();
    let other = cfg.layer_types.iter().filter(|k| **k == LayerKind::Other).count() as i64;
    assert_eq!(cfg.full_attention_layers + cfg.linear_attention_layers + other, cfg.num_layers);
    assert_eq!(other, 2);
}
