use llm_local_infra_lab::memory_planner::build_plan;
use llm_local_infra_lab::model_config::{ModelConfig, RawModelConfig, RawTextConfig};
use llm_local_infra_lab::precision::Precision;
use llm_local_infra_lab::report::{
    precision_debug_name, render_config, render_index, render_plan_markdown, report_contexts,
    thousands, PlanFigures,
};
use llm_local_infra_lab::safetensors_index::SafetensorsIndex;

#[test]
fn thousands_groups_digits() {
    assert_eq!(thousands(0), "0");
    assert_eq!(thousands(999), "999");
    assert_eq!(thousands(1000), "1,000");
    assert_eq!(thousands(55_562_855_904), "55,562,855,904");
    assert_eq!(thousands(-1234567), "-1,234,567");
    assert_eq!(thousands(i64::MAX), "9,223,372,036,854,775,807");
    assert_eq!(thousands(-100), "-100");
    assert_eq!(thousands(100000), "100,000");
}

#[test]
fn thousands_without_commas_is_plain_decimal() {
    for n in [0i64, 7, 12, 123, 1234, 12345, 123456, -98765432, i64::MIN + 1] {
        assert_eq!(thousands(n).replace(',', ""), n.to_string());
    }
}

#[test]
fn config_summary() {
    let cfg = ModelConfig::from_raw(RawModelConfig {
        architectures: Some(vec!["Qwen3_5ForConditionalGeneration".to_string()]),
        model_type: Some("qwen3_5".to_string()),
        text_config: RawTextConfig {
            hidden_size: 5120,
            num_hidden_layers: 2,
            layer_types: vec!["linear_attention".to_string(), "full_attention".to_string()],
            num_attention_heads: 24,
            num_key_value_heads: Some(4),
            head_dim: 256,
            intermediate_size: 17408,
            vocab_size: 248320,
            max_position_embeddings: Some(-5),
            mtp_num_hidden_layers: 1,
            tie_word_embeddings: Some(true),
            dtype: Some("bfloat16".to_string()),
        },
        has_vision_config: true,
    })
    .unwrap();
    let expected = "\
Architecture:          Qwen3_5ForConditionalGeneration
Model type:            qwen3_5
Hidden size:           5120
Layers:                2
  Full attention:      1
  Linear attention:    1
Attention heads:       24 (kv: 4)
Head dim:              256
Intermediate size:     17408
Vocab size:            248320
Max position:          -5
MTP layers:            1
Tie word embeddings:   true
Declared dtype:        bfloat16
Vision tower:          yes
";
    assert_eq!(render_config(&cfg), expected);
}

#[test]
fn index_summary() {
    let index = SafetensorsIndex::from_entries(
        vec![
            ("t1".to_string(), "model-00002-of-00002.safetensors".to_string()),
            ("t2".to_string(), "model-00001-of-00002.safetensors".to_string()),
            ("t3".to_string(), "model-00002-of-00002.safetensors".to_string()),
            ("t4".to_string(), "a-very-long-shard-file-name-that-exceeds-the-column.safetensors".to_string()),
        ],
        55_562_855_904,
    )
    .unwrap();
    let expected = format!(
        "Tensors:               4\n\
Shards:                3\n\
Declared total bytes:  55,562,855,904\n\
Declared total size:   51.75 GiB\n\
\nPer-shard tensor counts:\n{}",
        format!("  {:<45} 1\n  {:<45} 1\n  {:<45} 2\n",
        "a-very-long-shard-file-name-that-exceeds-the-column.safetensors",
        "model-00001-of-00002.safetensors",
        "model-00002-of-00002.safetensors")
    );
    assert_eq!(render_index(&index, "51.75 GiB"), expected);
}

#[test]
fn debug_names_match_derived_debug() {
    for p in [Precision::Bf16, Precision::Fp16, Precision::Int8, Precision::Int4] {
        assert_eq!(precision_debug_name(p), format!("{:?}", p));
    }
}

#[test]
fn plan_markdown_layout() {
    let cfg = ModelConfig::from_raw(RawModelConfig {
        architectures: Some(vec!["Arch".to_string()]),
        model_type: Some("mt".to_string()),
        text_config: RawTextConfig {
            hidden_size: 8,
            num_hidden_layers: 2,
            layer_types: vec!["linear_attention".to_string(), "full_attention".to_string()],
            num_attention_heads: 4,
            num_key_value_heads: Some(2),
            head_dim: 4,
            intermediate_size: 16,
            vocab_size: 10,
            max_position_embeddings: Some(1234567),
            mtp_num_hidden_layers: 0,
            tie_word_embeddings: None,
            dtype: None,
        },
        has_vision_config: false,
    })
    .unwrap();
    assert_eq!(report_contexts(&cfg), vec![4096, 32768, 131072, 1234567]);
    let index = SafetensorsIndex::from_entries(
        vec![
            ("lm_head.weight".to_string(), "s1".to_string()),
            ("model.language_model.layers.0.mlp.up.weight".to_string(), "s2".to_string()),
            ("model.language_model.layers.1.mlp.up.weight".to_string(), "s2".to_string()),
        ],
        2000,
    )
    .unwrap();
    let plan = build_plan(&index, &vec![Precision::Bf16, Precision::Int4]);
    let figures = PlanFigures {
        implied_billions: "0.00".to_string(),
        estimate_sizes: vec!["0.00 GiB".to_string(), "0.00 GiB".to_string()],
        kv_sizes: vec!["A".to_string(), "B".to_string(), "C".to_string(), "D".to_string()],
        per_token_figure: 16,
    };
    let expected = "\
# Memory Plan

- Model: Arch (mt)
- Layers: 2 (1 full attention, 1 linear attention)
- Shards: 2
- Tensors: 3
- Declared weight bytes: 2,000
- Implied parameter count (from BF16 total): ~0.00B

## Precision estimates

| Precision | Bytes/param | Estimated size |
|---|---|---|
| Bf16 | 2.0 | 0.00 GiB |
| Int4 | 0.5 | 0.00 GiB |

## Tensor classification (by name)

| Module | Tensor count |
|---|---|
| lm_head | 1 |
| mlp | 2 |

## KV cache estimate (full-attention layers, BF16)

- ctx   4,096: A (16 bytes/token/layer × 1 layers)
- ctx  32,768: B (16 bytes/token/layer × 1 layers)
- ctx 131,072: C (16 bytes/token/layer × 1 layers)
- ctx 1,234,567: D (16 bytes/token/layer × 1 layers)

## Evidence boundary

- Precision sizes are estimates scaled from the checkpoint's declared
  BF16 total_size; the safetensors index carries no per-tensor dtype.
- KV estimates cover full-attention layers only; linear-attention
  layers hold fixed-size recurrent state, not per-token KV.
- Vision, MTP, and embedding bytes are counted inside the total but
  not yet broken out per-module (v1 counts tensors by name only).
";
    assert_eq!(render_plan_markdown(&cfg, &index, &plan, &figures), expected);
}
