use llm_local_infra_lab::memory_planner::{
    build_plan, bytes_per_param_text, bits_per_param, MemoryPlan,
};
use llm_local_infra_lab::model_config::{ModelConfig, RawModelConfig, RawTextConfig};
use llm_local_infra_lab::precision::Precision;
use llm_local_infra_lab::safetensors_index::SafetensorsIndex;

fn config() -> ModelConfig {
    ModelConfig::from_raw(RawModelConfig {
        architectures: Some(vec!["Qwen3_5ForConditionalGeneration".to_string()]),
        model_type: Some("qwen3_5".to_string()),
        text_config: RawTextConfig {
            hidden_size: 5120,
            num_hidden_layers: 4,
            layer_types: vec![
                "linear_attention".to_string(),
                "linear_attention".to_string(),
                "linear_attention".to_string(),
                "full_attention".to_string(),
            ],
            num_attention_heads: 24,
            num_key_value_heads: Some(4),
            head_dim: 256,
            intermediate_size: 17408,
            vocab_size: 248320,
            max_position_embeddings: None,
            mtp_num_hidden_layers: 0,
            tie_word_embeddings: None,
            dtype: Some("bfloat16".to_string()),
        },
        has_vision_config: false,
    })
    .unwrap()
}

fn plan_for(total_size: i64, precisions: &[Precision]) -> MemoryPlan {
    let idx = SafetensorsIndex::from_entries(Vec::new(), total_size).unwrap();
    build_plan(&idx, &precisions.to_vec())
}

#[test]
fn kv_estimate_full_attention_only() {
    let cfg = config();
    let plan = plan_for(100, &[Precision::Bf16]);
    let kv = plan.kv_estimate(&cfg, 4096).unwrap();
    // 2 * 4 * 256 * 2 = 4096 bytes/token/layer, 1 full layer, 4096 tokens
    assert_eq!(kv.bytes_per_token_per_layer, 4096);
    assert_eq!(kv.total_bytes, 4096 * 4096);
}

#[test]
fn precision_scaling() {
    let plan = plan_for(2_000_000, &[Precision::Bf16, Precision::Int4]);
    assert_eq!(plan.declared_bytes as f64 / 2.0, 1_000_000.0);
    assert_eq!(plan.estimates[0].total_bits as f64 / 8.0, 2_000_000.0);
    assert_eq!(plan.estimates[1].total_bits as f64 / 8.0, 500_000.0);
}

#[test]
fn every_precision_scales_the_declared_size() {
    let plan = plan_for(
        1_000,
        &[Precision::Bf16, Precision::Fp16, Precision::Int8, Precision::Int4],
    );
    let bytes: Vec<u128> = plan.estimates.iter().map(|e| e.total_bits / 8).collect();
    assert_eq!(bytes, vec![1_000, 1_000, 500, 250]);
    assert_eq!(plan.estimates[2].precision, Precision::Int8);
    assert_eq!(plan.estimates[3].total_bits, 2_000);
}

#[test]
fn odd_declared_size_keeps_half_bytes_exact() {
    let plan = plan_for(3, &[Precision::Int4]);
    // 1.5 parameters of 4 bits each
    assert_eq!(plan.estimates[0].total_bits, 6);
}

#[test]
fn bytes_per_param_figures() {
    assert_eq!(bits_per_param(Precision::Bf16), 16);
    assert_eq!(bits_per_param(Precision::Fp16), 16);
    assert_eq!(bits_per_param(Precision::Int8), 8);
    assert_eq!(bits_per_param(Precision::Int4), 4);
    assert_eq!(bytes_per_param_text(Precision::Bf16), "2.0");
    assert_eq!(bytes_per_param_text(Precision::Int8), "1.0");
    assert_eq!(bytes_per_param_text(Precision::Int4), "0.5");
}

#[test]
fn kv_estimate_scales_with_context_and_layers() {
    let cfg = config();
    let plan = plan_for(100, &[]);
    let a = plan.kv_estimate(&cfg, 1000).unwrap();
    let b = plan.kv_estimate(&cfg, 3000).unwrap();
    let c = plan.kv_estimate(&cfg, 4000).unwrap();
    assert_eq!(a.total_bytes + b.total_bytes, c.total_bytes);
    assert_eq!(plan.kv_estimate(&cfg, 0).unwrap().total_bytes, 0);
    assert_eq!(plan.kv_estimate(&cfg, -2).unwrap().total_bytes, -2 * 4096);
    // 262,144 tokens over 16 full layers at 4,096 bytes: 16 GiB
    let mut big = config();
    big.full_attention_layers = 16;
    let kv = plan.kv_estimate(&big, 262_144).unwrap();
    assert_eq!(kv.total_bytes, 16 * 1024 * 1024 * 1024);
}

#[test]
fn kv_estimate_out_of_range_is_none() {
    let mut cfg = config();
    cfg.num_key_value_heads = i64::MAX;
    cfg.head_dim = i64::MAX;
    let plan = plan_for(100, &[]);
    assert!(plan.kv_estimate(&cfg, 1).is_none());
    cfg.head_dim = 1;
    cfg.full_attention_layers = i64::MAX;
    assert!(plan.kv_estimate(&cfg, i64::MAX).is_none());
    assert_eq!(plan.kv_estimate(&cfg, 0).unwrap().total_bytes, 0);
}

#[test]
fn module_counts_are_part_of_the_plan() {
    let idx = SafetensorsIndex::from_entries(
        vec![
            ("lm_head.weight".to_string(), "s".to_string()),
            ("x".to_string(), "s".to_string()),
        ],
        4,
    )
    .unwrap();
    let plan = build_plan(&idx, &vec![Precision::Int8]);
    assert_eq!(plan.module_counts.len(), 2);
    assert_eq!(plan.declared_bytes, 4);
}

#[test]
fn readme_kv_figures() {
    // 4 kv heads of dimension 256 over 16 full-attention layers.
    let mut cfg = config();
    cfg.full_attention_layers = 16;
    let plan = plan_for(55_562_855_904, &[Precision::Bf16]);
    let at_4k = plan.kv_estimate(&cfg, 4096).unwrap();
    assert_eq!(at_4k.total_bytes, 268_435_456); // 0.25 GiB
    assert_eq!(plan.estimates[0].total_bits / 8, 55_562_855_904);
}

#[test]
fn kv_estimate_ignores_linear_layers() {
    let mut cfg = config();
    let plan = plan_for(100, &[]);
    let before = plan.kv_estimate(&cfg, 777).unwrap().total_bytes;
    cfg.linear_attention_layers = 1000;
    assert_eq!(plan.kv_estimate(&cfg, 777).unwrap().total_bytes, before);
    cfg.full_attention_layers = 3;
    assert_eq!(plan.kv_estimate(&cfg, 777).unwrap().total_bytes, 3 * before);
}
