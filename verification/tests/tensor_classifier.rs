use llm_local_infra_lab::safetensors_index::SafetensorsIndex;
use llm_local_infra_lab::tensor_classifier::{classify, module_counts, TensorModule};

#[test]
fn classifies_qwen35_names() {
    assert_eq!(
        classify("model.language_model.layers.0.self_attn.q_proj.weight"),
        TensorModule::FullAttention
    );
    assert_eq!(
        classify("model.language_model.layers.3.linear_attn.A_log"),
        TensorModule::LinearAttention
    );
    assert_eq!(
        classify("model.language_model.layers.3.mlp.gate_proj.weight"),
        TensorModule::Mlp
    );
    assert_eq!(
        classify("model.language_model.layers.3.input_layernorm.weight"),
        TensorModule::LayerNorm
    );
    assert_eq!(
        classify("model.visual.blocks.0.attn.qkv.weight"),
        TensorModule::Vision
    );
    assert_eq!(classify("mtp.fc.weight"), TensorModule::Mtp);
    assert_eq!(classify("lm_head.weight"), TensorModule::LmHead);
    assert_eq!(
        classify("model.language_model.embed_tokens.weight"),
        TensorModule::Embedding
    );
    assert_eq!(classify("totally.bogus.name"), TensorModule::Unknown);
}

#[test]
fn classifies_layer_variants() {
    assert_eq!(
        classify("model.language_model.layers.7.full_attn.o_proj.weight"),
        TensorModule::FullAttention
    );
    assert_eq!(
        classify("model.language_model.layers.1.linear_attention.in_proj"),
        TensorModule::LinearAttention
    );
    assert_eq!(
        classify("model.language_model.layers.2.mamba.conv1d.weight"),
        TensorModule::LinearAttention
    );
    assert_eq!(
        classify("model.language_model.layers.12.post_attention_layernorm.weight"),
        TensorModule::LayerNorm
    );
    assert_eq!(
        classify("model.language_model.layers.3.q_norm.weight"),
        TensorModule::LayerNorm
    );
    assert_eq!(
        classify("model.language_model.norm.weight"),
        TensorModule::LayerNorm
    );
    assert_eq!(
        classify("model.language_model.layers.3.experts.weight"),
        TensorModule::Unknown
    );
}

#[test]
fn layer_number_must_read_as_u32() {
    // A leading `+` is accepted by `u32::from_str`.
    assert_eq!(
        classify("model.language_model.layers.+3.mlp.up_proj.weight"),
        TensorModule::Mlp
    );
    // Past `u32::MAX` the piece is not a layer number and stays in the tail.
    assert_eq!(
        classify("model.language_model.layers.4294967296.mlp.up_proj.weight"),
        TensorModule::Unknown
    );
    assert_eq!(
        classify("model.language_model.layers.4294967295.mlp.up_proj.weight"),
        TensorModule::Mlp
    );
    // Without a number the tail starts right after `layers`.
    assert_eq!(
        classify("model.language_model.layers.mlp.up_proj.weight"),
        TensorModule::Mlp
    );
    assert_eq!(
        classify("model.language_model.layers.-1.mlp.up_proj.weight"),
        TensorModule::Unknown
    );
    assert_eq!(classify("model.language_model.layers"), TensorModule::Unknown);
}

#[test]
fn short_and_empty_names_are_unknown() {
    assert_eq!(classify(""), TensorModule::Unknown);
    assert_eq!(classify("lm_head"), TensorModule::Unknown);
    assert_eq!(classify("mtp.fc"), TensorModule::Unknown);
    assert_eq!(classify("model.visual"), TensorModule::Unknown);
    assert_eq!(classify("lm_head.weight.extra"), TensorModule::Unknown);
}

#[test]
fn labels_are_lowercase_names() {
    assert_eq!(TensorModule::Embedding.label(), "embedding");
    assert_eq!(TensorModule::LmHead.label(), "lm_head");
    assert_eq!(TensorModule::FullAttention.label(), "full_attention");
    assert_eq!(TensorModule::LinearAttention.label(), "linear_attention");
    assert_eq!(TensorModule::Mlp.label(), "mlp");
    assert_eq!(TensorModule::LayerNorm.label(), "layernorm");
    assert_eq!(TensorModule::Vision.label(), "vision");
    assert_eq!(TensorModule::Mtp.label(), "mtp");
    assert_eq!(TensorModule::Unknown.label(), "unknown");
}

fn pair(name: &str, shard: &str) -> (String, String) {
    (name.to_string(), shard.to_string())
}

#[test]
fn module_counts_list_present_modules_in_order() {
    let index = SafetensorsIndex::from_entries(
        vec![
            pair("mtp.fc.weight", "b"),
            pair("lm_head.weight", "a"),
            pair("model.language_model.layers.0.mlp.up_proj.weight", "a"),
            pair("model.language_model.layers.0.mlp.down_proj.weight", "b"),
            pair("model.language_model.embed_tokens.weight", "a"),
            pair("odd", "a"),
        ],
        10,
    )
    .unwrap();
    let counts = module_counts(&index);
    assert_eq!(
        counts,
        vec![
            (TensorModule::Embedding, 1),
            (TensorModule::LmHead, 1),
            (TensorModule::Mlp, 2),
            (TensorModule::Mtp, 1),
            (TensorModule::Unknown, 1),
        ]
    );
    let total: usize = counts.iter().map(|(_, c)| *c).sum();
    assert_eq!(total, index.tensor_count());
}

#[test]
fn module_counts_of_empty_index_is_empty() {
    let index = SafetensorsIndex::from_entries(Vec::new(), 1).unwrap();
    assert!(module_counts(&index).is_empty());
}

/// The classification rule written directly with `str` methods.
fn classify_by_str_methods(name: &str) -> TensorModule {
    let parts: Vec<&str> = name.split('.').collect();
    if name == "lm_head.weight" {
        return TensorModule::LmHead;
    }
    if parts.len() < 3 {
        return TensorModule::Unknown;
    }
    match (parts[0], parts[1], parts[2]) {
        ("model", "visual", _) => TensorModule::Vision,
        ("mtp", _, _) => TensorModule::Mtp,
        ("model", "language_model", "embed_tokens") => TensorModule::Embedding,
        ("model", "language_model", "norm") => TensorModule::LayerNorm,
        ("model", "language_model", "layers") => {
            let rest: Vec<&str> = parts[3..].to_vec();
            let within = match rest.first().copied() {
                Some(n) if n.parse::<u32>().is_ok() => &rest[1..],
                _ => rest.as_slice(),
            };
            let joined = within.join(".");
            if joined.starts_with("self_attn") || joined.starts_with("full_attn") {
                TensorModule::FullAttention
            } else if joined.starts_with("linear_attn")
                || joined.starts_with("linear_attention")
                || joined.starts_with("mamba")
            {
                TensorModule::LinearAttention
            } else if joined.starts_with("mlp") {
                TensorModule::Mlp
            } else if joined.contains("norm") {
                TensorModule::LayerNorm
            } else {
                TensorModule::Unknown
            }
        }
        _ => TensorModule::Unknown,
    }
}

#[test]
fn agrees_with_str_methods_on_many_names() {
    let heads = [
        "", "model", "mtp", "lm_head", "model.visual", "model.language_model",
        "model.language_model.layers", "model.language_model.norm", "model.language_model.embed_tokens",
        "Model.visual",
    ];
    let numbers = ["", "0", "17", "+3", "-1", "4294967295", "4294967296", "007", "x1", "+"];
    let tails = [
        "", "weight", "self_attn.q_proj.weight", "full_attn", "linear_attn.A_log", "linear_attention",
        "mamba.x", "mlp.gate_proj.weight", "input_layernorm.weight", "q_norm", "nor.m", "norm",
        "experts.0.w", "self_att", ".mlp", "mlp.", "..",
    ];
    let mut checked = 0;
    for h in heads {
        for n in numbers {
            for t in tails {
                for name in [
                    format!("{h}.{n}.{t}"),
                    format!("{h}.{n}{t}"),
                    format!("{h}{n}.{t}"),
                    format!("{h}.{t}"),
                ] {
                    assert_eq!(classify(&name), classify_by_str_methods(&name), "{name}");
                    checked += 1;
                }
            }
        }
    }
    assert_eq!(checked, heads.len() * numbers.len() * tails.len() * 4);
}

#[test]
fn every_layer_number_classifies_alike() {
    for tail in ["self_attn.k_proj.weight", "linear_attn.dt_bias", "mlp.down_proj.weight", "post_attention_layernorm.weight", "router.weight"] {
        let base = classify(&format!("model.language_model.layers.0.{tail}"));
        for n in ["1", "63", "+5", "0000", "4294967295"] {
            assert_eq!(classify(&format!("model.language_model.layers.{n}.{tail}")), base);
        }
    }
}
