//! The model configuration (`config.json`) normalised into the values that
//! planning and reporting read.
//!
//! Decoding the JSON text into [`RawModelConfig`] happens outside this
//! library; what follows the decoding (the consistency check on the layer
//! list, the defaults, the layer-kind tallies) happens here.

use vstd::prelude::*;

use crate::text::{chars_eq_str, chars_of};

verus! {

/// The attention kind of one decoder layer.
#[derive(Debug, Clone, Copy, PartialEq, Eq, Structural, Hash)]
pub enum LayerKind {
    FullAttention,
    LinearAttention,
    Other,
}

/// The kind that a `layer_types` entry names.
pub open spec fn layer_kind_named(s: Seq<char>) -> LayerKind {
    if s == "full_attention"@ {
        LayerKind::FullAttention
    } else if s == "linear_attention"@ {
        LayerKind::LinearAttention
    } else {
        LayerKind::Other
    }
}

/// How many entries of `ks` are of kind `k`.
pub open spec fn kind_count(ks: Seq<LayerKind>, k: LayerKind) -> nat
    decreases ks.len(),
{
    if ks.len() == 0 {
        0
    } else {
        kind_count(ks.drop_last(), k) + if ks.last() == k {
            1nat
        } else {
            0nat
        }
    }
}

/// The `text_config` object as decoded, absent fields as `None` (or the
/// decoder's default: an empty `layer_types`, zero MTP layers).
pub struct RawTextConfig {
    pub hidden_size: i64,
    pub num_hidden_layers: i64,
    pub layer_types: Vec<String>,
    pub num_attention_heads: i64,
    pub num_key_value_heads: Option<i64>,
    pub head_dim: i64,
    pub intermediate_size: i64,
    pub vocab_size: i64,
    pub max_position_embeddings: Option<i64>,
    pub mtp_num_hidden_layers: i64,
    pub tie_word_embeddings: Option<bool>,
    pub dtype: Option<String>,
}

/// The top-level configuration object as decoded.
pub struct RawModelConfig {
    pub architectures: Option<Vec<String>>,
    pub model_type: Option<String>,
    pub text_config: RawTextConfig,
    /// Whether a non-null `vision_config` is present.
    pub has_vision_config: bool,
}

/// The normalised configuration.
#[derive(Debug, Clone)]
pub struct ModelConfig {
    pub architecture: String,
    pub model_type: String,
    pub hidden_size: i64,
    pub num_layers: i64,
    pub layer_types: Vec<LayerKind>,
    pub num_attention_heads: i64,
    pub num_key_value_heads: i64,
    pub head_dim: i64,
    pub intermediate_size: i64,
    pub vocab_size: i64,
    pub max_position_embeddings: i64,
    pub full_attention_layers: i64,
    pub linear_attention_layers: i64,
    pub mtp_layers: i64,
    pub tie_word_embeddings: bool,
    pub declared_dtype: String,
    pub has_vision: bool,
}

/// Why a configuration is rejected.
#[derive(Debug, Clone, Copy, PartialEq, Eq, Structural)]
pub enum ConfigError {
    /// `layer_types` does not have one entry per hidden layer.
    LayerCountMismatch { entries: usize, declared: i64 },
}

/// The text of an optional string, or `unknown` when it is absent.
pub open spec fn text_or_unknown(s: Option<String>) -> Seq<char> {
    match s {
        Some(t) => t@,
        None => "unknown"@,
    }
}

/// The first listed architecture, or `unknown` when none is listed.
pub open spec fn first_architecture(a: Option<Vec<String>>) -> Seq<char> {
    match a {
        Some(v) => if v@.len() > 0 {
            v@[0]@
        } else {
            "unknown"@
        },
        None => "unknown"@,
    }
}

/// The layer kinds that the `layer_types` entries name, in order.
pub open spec fn kinds_named(names: Seq<String>) -> Seq<LayerKind> {
    names.map_values(|s: String| layer_kind_named(s@))
}

/// `c` is the normalisation of `raw`.
pub open spec fn normalised_from(c: ModelConfig, raw: RawModelConfig) -> bool {
    let t = raw.text_config;
    &&& c.architecture@ == first_architecture(raw.architectures)
    &&& c.model_type@ == text_or_unknown(raw.model_type)
    &&& c.hidden_size == t.hidden_size
    &&& c.num_layers == t.num_hidden_layers
    &&& c.layer_types@ == kinds_named(t.layer_types@)
    &&& c.num_attention_heads == t.num_attention_heads
    &&& c.num_key_value_heads == match t.num_key_value_heads {
        Some(n) => n,
        None => t.num_attention_heads,
    }
    &&& c.head_dim == t.head_dim
    &&& c.intermediate_size == t.intermediate_size
    &&& c.vocab_size == t.vocab_size
    &&& c.max_position_embeddings == match t.max_position_embeddings {
        Some(n) => n,
        None => 0,
    }
    &&& c.full_attention_layers == kind_count(c.layer_types@, LayerKind::FullAttention)
    &&& c.linear_attention_layers == kind_count(c.layer_types@, LayerKind::LinearAttention)
    &&& c.mtp_layers == t.mtp_num_hidden_layers
    &&& c.tie_word_embeddings == match t.tie_word_embeddings {
        Some(b) => b,
        None => false,
    }
    &&& c.declared_dtype@ == text_or_unknown(t.dtype)
    &&& c.has_vision == raw.has_vision_config
}

fn layer_kind_of(s: &String) -> (k: LayerKind)
    ensures
        k == layer_kind_named(s@),
{
    let cs = chars_of(s.as_str());
    if chars_eq_str(cs.as_slice(), "full_attention") {
        LayerKind::FullAttention
    } else if chars_eq_str(cs.as_slice(), "linear_attention") {
        LayerKind::LinearAttention
    } else {
        LayerKind::Other
    }
}

fn count_kind(ks: &Vec<LayerKind>, k: LayerKind) -> (n: usize)
    ensures
        n == kind_count(ks@, k),
        n <= ks@.len(),
{
    let mut n: usize = 0;
    let mut i: usize = 0;
    assert(ks@.take(0) =~= Seq::<LayerKind>::empty());
    while i < ks.len()
        invariant
            i <= ks@.len(),
            n == kind_count(ks@.take(i as int), k),
            n <= i,
        decreases ks@.len() - i,
    {
        assert(ks@.take(i + 1).drop_last() =~= ks@.take(i as int));
        if ks[i] == k {
            n = n + 1;
        }
        i = i + 1;
    }
    assert(ks@.take(ks@.len() as int) =~= ks@);
    n
}

fn text_or_unknown_exec(s: Option<String>) -> (r: String)
    ensures
        r@ == text_or_unknown(s),
{
    match s {
        Some(t) => t,
        None => "unknown".to_owned(),
    }
}

impl ModelConfig {
    /// Normalises a decoded configuration: checks that `layer_types` has
    /// one entry per hidden layer, reads each entry as a layer kind, counts
    /// the full- and linear-attention layers and fills in the defaults for
    /// absent fields.
    pub fn from_raw(raw: RawModelConfig) -> (r: Result<ModelConfig, ConfigError>)
        ensures
            r is Err <==> raw.text_config.layer_types@.len() != raw.text_config.num_hidden_layers,
            r matches Err(e) ==> e == (ConfigError::LayerCountMismatch {
                entries: raw.text_config.layer_types@.len() as usize,
                declared: raw.text_config.num_hidden_layers,
            }),
            r matches Ok(c) ==> normalised_from(c, raw),
    {
        let ghost raw0 = raw;
        let RawModelConfig { architectures, model_type, text_config: t, has_vision_config } = raw;
        let entries = t.layer_types.len();
        if t.num_hidden_layers < 0 || entries as u64 != t.num_hidden_layers as u64 {
            return Err(ConfigError::LayerCountMismatch { entries, declared: t.num_hidden_layers });
        }
        let mut kinds: Vec<LayerKind> = Vec::new();
        let mut i: usize = 0;
        while i < entries
            invariant
                entries == t.layer_types@.len(),
                i <= entries,
                kinds@ == kinds_named(t.layer_types@).take(i as int),
            decreases entries - i,
        {
            let k = layer_kind_of(&t.layer_types[i]);
            kinds.push(k);
            i = i + 1;
            assert(kinds@ =~= kinds_named(t.layer_types@).take(i as int));
        }
        assert(kinds@ =~= kinds_named(t.layer_types@));
        assert(entries as int == t.num_hidden_layers);
        let full = count_kind(&kinds, LayerKind::FullAttention);
        let linear = count_kind(&kinds, LayerKind::LinearAttention);
        let architecture = match architectures {
            Some(mut a) => if a.len() > 0 {
                a.remove(0)
            } else {
                "unknown".to_owned()
            },
            None => "unknown".to_owned(),
        };
        let num_key_value_heads = match t.num_key_value_heads {
            Some(n) => n,
            None => t.num_attention_heads,
        };
        let max_position_embeddings = match t.max_position_embeddings {
            Some(n) => n,
            None => 0,
        };
        let tie_word_embeddings = match t.tie_word_embeddings {
            Some(b) => b,
            None => false,
        };
        Ok(ModelConfig {
            architecture,
            model_type: text_or_unknown_exec(model_type),
            hidden_size: t.hidden_size,
            num_layers: t.num_hidden_layers,
            layer_types: kinds,
            num_attention_heads: t.num_attention_heads,
            num_key_value_heads,
            head_dim: t.head_dim,
            intermediate_size: t.intermediate_size,
            vocab_size: t.vocab_size,
            max_position_embeddings,
            full_attention_layers: full as i64,
            linear_attention_layers: linear as i64,
            mtp_layers: t.mtp_num_hidden_layers,
            tie_word_embeddings,
            declared_dtype: text_or_unknown_exec(t.dtype),
            has_vision: has_vision_config,
        })
    }
}


/// Every layer is of exactly one kind.
pub proof fn lemma_kind_counts_partition(ks: Seq<LayerKind>)
    ensures
        kind_count(ks, LayerKind::FullAttention) + kind_count(ks, LayerKind::LinearAttention)
            + kind_count(ks, LayerKind::Other) == ks.len(),
    decreases ks.len(),
{
    if ks.len() > 0 {
        lemma_kind_counts_partition(ks.drop_last());
    }
}

/// In a normalised configuration the full- and linear-attention layers
/// together never outnumber the layers, and the remaining layers are
/// exactly those of another kind.
pub proof fn law_layer_kinds_partition_layers(c: ModelConfig, raw: RawModelConfig)
    requires
        normalised_from(c, raw),
        raw.text_config.layer_types@.len() == raw.text_config.num_hidden_layers,
    ensures
        c.full_attention_layers + c.linear_attention_layers + kind_count(c.layer_types@, LayerKind::Other)
            == c.num_layers,
        c.full_attention_layers + c.linear_attention_layers <= c.num_layers,
        c.layer_types@.len() == c.num_layers,
{
    lemma_kind_counts_partition(c.layer_types@);
}


/// How many of the `layer_types` entries read exactly `s`.
pub open spec fn entries_reading(names: Seq<String>, s: Seq<char>) -> nat
    decreases names.len(),
{
    if names.len() == 0 {
        0
    } else {
        entries_reading(names.drop_last(), s) + if names.last()@ == s {
            1nat
        } else {
            0nat
        }
    }
}

proof fn lemma_kind_count_reads(names: Seq<String>)
    ensures
        kind_count(kinds_named(names), LayerKind::FullAttention) == entries_reading(names, "full_attention"@),
        kind_count(kinds_named(names), LayerKind::LinearAttention) == entries_reading(
            names,
            "linear_attention"@,
        ),
    decreases names.len(),
{
    reveal_strlit("full_attention");
    reveal_strlit("linear_attention");
    if names.len() > 0 {
        lemma_kind_count_reads(names.drop_last());
        assert(kinds_named(names).drop_last() =~= kinds_named(names.drop_last()));
        assert(kinds_named(names).last() == layer_kind_named(names.last()@));
        assert("full_attention"@ != "linear_attention"@) by {
            assert("full_attention"@[0] != "linear_attention"@[0]);
        }
    }
}

/// Normalisation keeps every value the decoded configuration gives and
/// fills in only what is absent: a present `num_key_value_heads`,
/// `max_position_embeddings` or `tie_word_embeddings` is taken as it is
/// (absent, they become the attention-head count, 0 and `false`); the
/// full- and linear-attention counts are the numbers of `layer_types`
/// entries that read `full_attention` and `linear_attention`.
pub proof fn law_normalisation_keeps_given_values(c: ModelConfig, raw: RawModelConfig)
    requires
        normalised_from(c, raw),
    ensures
        raw.text_config.tie_word_embeddings matches Some(b) ==> c.tie_word_embeddings == b,
        raw.text_config.tie_word_embeddings is None ==> !c.tie_word_embeddings,
        raw.text_config.num_key_value_heads matches Some(k) ==> c.num_key_value_heads == k,
        raw.text_config.num_key_value_heads is None ==> c.num_key_value_heads
            == raw.text_config.num_attention_heads,
        raw.text_config.max_position_embeddings matches Some(m) ==> c.max_position_embeddings == m,
        raw.text_config.max_position_embeddings is None ==> c.max_position_embeddings == 0,
        raw.model_type matches Some(m) ==> c.model_type@ == m@,
        raw.text_config.dtype matches Some(d) ==> c.declared_dtype@ == d@,
        raw.architectures matches Some(a) ==> (a@.len() > 0 ==> c.architecture@ == a@[0]@),
        c.hidden_size == raw.text_config.hidden_size,
        c.num_layers == raw.text_config.num_hidden_layers,
        c.num_attention_heads == raw.text_config.num_attention_heads,
        c.head_dim == raw.text_config.head_dim,
        c.intermediate_size == raw.text_config.intermediate_size,
        c.vocab_size == raw.text_config.vocab_size,
        c.mtp_layers == raw.text_config.mtp_num_hidden_layers,
        c.has_vision == raw.has_vision_config,
        c.layer_types@.len() == raw.text_config.layer_types@.len(),
        c.full_attention_layers == entries_reading(raw.text_config.layer_types@, "full_attention"@),
        c.linear_attention_layers == entries_reading(raw.text_config.layer_types@, "linear_attention"@),
{
    lemma_kind_count_reads(raw.text_config.layer_types@);
}

} // verus!
