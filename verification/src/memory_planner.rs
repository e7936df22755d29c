//! Exact memory arithmetic for a checkpoint: weight sizes at each target
//! precision and the key/value cache of the full-attention layers.
//!
//! The checkpoint is stored in BF16 (two bytes per parameter), so its
//! declared `total_size` is the anchor: a precision of `b` bits per
//! parameter needs `total_size / 2 * b` bits. Sizes are kept exact, in
//! bits for weights and in bytes for the cache.

use vstd::prelude::*;

use crate::model_config::ModelConfig;
use crate::precision::Precision;
use crate::safetensors_index::SafetensorsIndex;
use crate::tensor_classifier::{all_modules, module_counts, present_tallies, TensorModule};

verus! {

/// Bits that one parameter occupies at precision `p`.
pub open spec fn param_bits(p: Precision) -> int {
    match p {
        Precision::Bf16 | Precision::Fp16 => 16,
        Precision::Int8 => 8,
        Precision::Int4 => 4,
    }
}

/// The estimated weight size in bits at precision `p` for a checkpoint
/// that declares `total_size` bytes of BF16 weights: `total_size / 2`
/// parameters of `param_bits(p)` bits each.
pub open spec fn weight_bits(total_size: int, p: Precision) -> int {
    total_size * (param_bits(p) / 2)
}

/// Key and value cache bytes that one token occupies in one
/// full-attention layer: a key and a value vector of `kv_heads * head_dim`
/// BF16 numbers.
pub open spec fn kv_bytes_per_token_per_layer(kv_heads: int, head_dim: int) -> int {
    2 * kv_heads * head_dim * 2
}

/// Key and value cache bytes for `context_tokens` tokens over the
/// full-attention layers; linear-attention layers keep a fixed-size state
/// instead and do not count.
pub open spec fn kv_cache_bytes(kv_heads: int, head_dim: int, full_layers: int, context_tokens: int) -> int {
    kv_bytes_per_token_per_layer(kv_heads, head_dim) * full_layers * context_tokens
}

/// Whether `v` fits in an `i128`.
pub open spec fn fits_i128(v: int) -> bool {
    i128::MIN <= v && v <= i128::MAX
}

/// Bits per parameter at precision `p`.
pub fn bits_per_param(p: Precision) -> (r: u64)
    ensures
        r == param_bits(p),
{
    match p {
        Precision::Bf16 | Precision::Fp16 => 16,
        Precision::Int8 => 8,
        Precision::Int4 => 4,
    }
}

/// The weight size at one precision.
pub struct PrecisionEstimate {
    pub precision: Precision,
    /// Estimated weight bits at this precision.
    pub total_bits: u128,
}

/// The memory plan of a checkpoint.
pub struct MemoryPlan {
    /// The declared BF16 weight bytes; the implied parameter count is half
    /// of it.
    pub declared_bytes: i64,
    pub estimates: Vec<PrecisionEstimate>,
    /// Tensor tallies per module, as [`module_counts`] lists them.
    pub module_counts: Vec<(TensorModule, usize)>,
}

/// The key/value cache of the full-attention layers at one context length.
pub struct KvEstimate {
    pub context_tokens: i64,
    pub bytes_per_token_per_layer: i128,
    pub total_bytes: i128,
}

/// Builds the plan: one weight estimate per requested precision, in the
/// order requested, and the per-module tensor tallies.
pub fn build_plan(index: &SafetensorsIndex, precisions: &Vec<Precision>) -> (plan: MemoryPlan)
    ensures
        plan.declared_bytes == index.declared_size(),
        plan.estimates@.len() == precisions@.len(),
        forall|i: int|
            0 <= i < precisions@.len() ==> #[trigger] plan.estimates@[i].precision == precisions@[i]
                && plan.estimates@[i].total_bits == weight_bits(
                index.declared_size(),
                precisions@[i],
            ),
        plan.module_counts@ == present_tallies(index@, all_modules()),
{
    index.check_wf();
    let total = index.total_size();
    let mut estimates: Vec<PrecisionEstimate> = Vec::new();
    let mut i: usize = 0;
    while i < precisions.len()
        invariant
            i <= precisions@.len(),
            total == index.declared_size(),
            total > 0,
            estimates@.len() == i,
            forall|j: int|
                0 <= j < i ==> #[trigger] estimates@[j].precision == precisions@[j]
                    && estimates@[j].total_bits == weight_bits(total as int, precisions@[j]),
        decreases precisions@.len() - i,
    {
        let p = precisions[i];
        let half_bits = (bits_per_param(p) / 2) as u128;
        assert(half_bits <= 8);
        assert((total as u128) * half_bits <= 8 * (total as u128)) by (nonlinear_arith)
            requires
                half_bits <= 8,
        ;
        estimates.push(PrecisionEstimate { precision: p, total_bits: (total as u128) * half_bits });
        i = i + 1;
    }
    MemoryPlan { declared_bytes: total, estimates, module_counts: module_counts(index) }
}

impl MemoryPlan {
    /// The key/value cache of the full-attention layers for a context of
    /// `context_tokens` tokens, exactly; `None` when the exact byte counts
    /// do not fit in an `i128`.
    pub fn kv_estimate(&self, config: &ModelConfig, context_tokens: i64) -> (r: Option<KvEstimate>)
        ensures
            r is None <==> !fits_i128(
                kv_bytes_per_token_per_layer(
                    config.num_key_value_heads as int,
                    config.head_dim as int,
                ),
            ) || !fits_i128(
                kv_cache_bytes(
                    config.num_key_value_heads as int,
                    config.head_dim as int,
                    config.full_attention_layers as int,
                    context_tokens as int,
                ),
            ),
            r matches Some(k) ==> {
                &&& k.context_tokens == context_tokens
                &&& k.bytes_per_token_per_layer == kv_bytes_per_token_per_layer(
                    config.num_key_value_heads as int,
                    config.head_dim as int,
                )
                &&& k.total_bytes == kv_cache_bytes(
                    config.num_key_value_heads as int,
                    config.head_dim as int,
                    config.full_attention_layers as int,
                    context_tokens as int,
                )
            },
    {
        let kvh = config.num_key_value_heads as i128;
        let hd = config.head_dim as i128;
        let ghost a = kvh as int;
        let ghost b = hd as int;
        proof {
            lemma_i64_product_fits(a, b);
        }
        let per_pair = kvh * hd;
        let bpt = match per_pair.checked_mul(4) {
            Some(v) => v,
            None => {
                assert(kv_bytes_per_token_per_layer(a, b) == (a * b) * 4) by (nonlinear_arith);
                return None;
            },
        };
        assert(kv_bytes_per_token_per_layer(a, b) == bpt as int) by (nonlinear_arith)
            requires
                bpt as int == (a * b) * 4,
        ;
        let layers = config.full_attention_layers as i128;
        let ctx = context_tokens as i128;
        let ghost l = layers as int;
        let ghost c = ctx as int;
        assert(kv_cache_bytes(a, b, l, c) == (bpt as int) * l * c);
        match product_of_three(bpt, layers, ctx) {
            Some(total) => Some(KvEstimate { context_tokens, bytes_per_token_per_layer: bpt, total_bytes: total }),
            None => None,
        }
    }
}

/// The magnitude of an integer.
pub open spec fn magnitude(v: int) -> int {
    if v < 0 {
        -v
    } else {
        v
    }
}

proof fn lemma_i64_product_fits(a: int, b: int)
    requires
        -0x8000_0000_0000_0000 <= a <= 0x7fff_ffff_ffff_ffff,
        -0x8000_0000_0000_0000 <= b <= 0x7fff_ffff_ffff_ffff,
    ensures
        fits_i128(a * b),
{
    assert(magnitude(a) <= 0x8000_0000_0000_0000);
    assert(magnitude(b) <= 0x8000_0000_0000_0000);
    assert(magnitude(a) * magnitude(b) <= 0x8000_0000_0000_0000 * 0x8000_0000_0000_0000) by (nonlinear_arith)
        requires
            0 <= magnitude(a) <= 0x8000_0000_0000_0000,
            0 <= magnitude(b) <= 0x8000_0000_0000_0000,
    ;
    lemma_magnitude_of_product(a, b);
}

proof fn lemma_magnitude_of_product(x: int, y: int)
    ensures
        magnitude(x * y) == magnitude(x) * magnitude(y),
        x * y < 0 <==> (x < 0 && y > 0) || (x > 0 && y < 0),
{
    if x >= 0 && y >= 0 {
        assert(x * y >= 0) by (nonlinear_arith)
            requires
                x >= 0,
                y >= 0,
        ;
    } else if x < 0 && y < 0 {
        assert(x * y == (-x) * (-y)) by (nonlinear_arith);
        assert((-x) * (-y) > 0) by (nonlinear_arith)
            requires
                -x > 0,
                -y > 0,
        ;
    } else if x < 0 {
        assert(x * y == -((-x) * y)) by (nonlinear_arith);
        assert((-x) * y >= 0) by (nonlinear_arith)
            requires
                -x > 0,
                y >= 0,
        ;
        assert(y > 0 ==> (-x) * y > 0) by (nonlinear_arith)
            requires
                -x > 0,
        ;
    } else {
        assert(x * y == -(x * (-y))) by (nonlinear_arith);
        assert(x * (-y) >= 0) by (nonlinear_arith)
            requires
                x >= 0,
                -y > 0,
        ;
        assert(x > 0 ==> x * (-y) > 0) by (nonlinear_arith)
            requires
                -y > 0,
        ;
    }
}

fn magnitude_of(x: i128) -> (r: u128)
    ensures
        r as int == magnitude(x as int),
{
    if x == i128::MIN {
        0x8000_0000_0000_0000_0000_0000_0000_0000u128
    } else if x < 0 {
        (-x) as u128
    } else {
        x as u128
    }
}

/// The exact product `x * y * z`, when it fits in an `i128`.
fn product_of_three(x: i128, y: i128, z: i128) -> (r: Option<i128>)
    ensures
        r is None <==> !fits_i128(x * y * z),
        r matches Some(v) ==> v == x * y * z,
{
    let ghost p = (x as int) * (y as int) * (z as int);
    proof {
        lemma_magnitude_of_product(x as int, y as int);
        lemma_magnitude_of_product((x as int) * (y as int), z as int);
    }
    if x == 0 || y == 0 || z == 0 {
        assert(p == 0) by (nonlinear_arith)
            requires
                p == (x as int) * (y as int) * (z as int),
                x == 0 || y == 0 || z == 0,
        ;
        return Some(0);
    }
    let mx = magnitude_of(x);
    let my = magnitude_of(y);
    let mz = magnitude_of(z);
    let negative = (x < 0) != ((y < 0) != (z < 0));
    let ghost xy = (x as int) * (y as int);
    assert(magnitude(x as int) * magnitude(y as int) >= 1) by (nonlinear_arith)
        requires
            magnitude(x as int) >= 1,
            magnitude(y as int) >= 1,
    ;
    assert(xy != 0);
    assert(negative <==> p < 0);
    let ghost mp = magnitude(p);
    assert(mp == (mx as int) * (my as int) * (mz as int));
    assert(mz >= 1 && mx >= 1 && my >= 1);
    let m1 = match mx.checked_mul(my) {
        Some(v) => v,
        None => {
            assert(mp >= (mx as int) * (my as int)) by (nonlinear_arith)
                requires
                    mp == (mx as int) * (my as int) * (mz as int),
                    mz >= 1,
                    mx >= 1,
                    my >= 1,
            ;
            return None;
        },
    };
    let m = match m1.checked_mul(mz) {
        Some(v) => v,
        None => {
            return None;
        },
    };
    assert(m as int == mp);
    if negative {
        if m > 0x8000_0000_0000_0000_0000_0000_0000_0000u128 {
            None
        } else if m == 0x8000_0000_0000_0000_0000_0000_0000_0000u128 {
            Some(i128::MIN)
        } else {
            Some(-(m as i128))
        }
    } else {
        if m > 0x7fff_ffff_ffff_ffff_ffff_ffff_ffff_ffffu128 {
            None
        } else {
            Some(m as i128)
        }
    }
}


/// The size estimates are the declared BF16 size rescaled: BF16 and FP16
/// keep it (eight bits per declared byte), INT8 halves it and INT4
/// quarters it.
pub proof fn law_precision_scaling(total_size: int)
    ensures
        weight_bits(total_size, Precision::Bf16) == 8 * total_size,
        weight_bits(total_size, Precision::Fp16) == weight_bits(total_size, Precision::Bf16),
        2 * weight_bits(total_size, Precision::Int8) == weight_bits(total_size, Precision::Bf16),
        4 * weight_bits(total_size, Precision::Int4) == weight_bits(total_size, Precision::Bf16),
{
    assert(weight_bits(total_size, Precision::Bf16) == total_size * 8);
    assert(weight_bits(total_size, Precision::Int8) == total_size * 4);
    assert(weight_bits(total_size, Precision::Int4) == total_size * 2);
}

/// The cache grows linearly with the context: the bytes for two contexts
/// add up to the bytes for their combined length, and an empty context
/// needs none.
pub proof fn law_kv_cache_linear_in_context(kv_heads: int, head_dim: int, full_layers: int, c1: int, c2: int)
    ensures
        kv_cache_bytes(kv_heads, head_dim, full_layers, c1 + c2) == kv_cache_bytes(
            kv_heads,
            head_dim,
            full_layers,
            c1,
        ) + kv_cache_bytes(kv_heads, head_dim, full_layers, c2),
        kv_cache_bytes(kv_heads, head_dim, full_layers, 0) == 0,
{
    let b = kv_bytes_per_token_per_layer(kv_heads, head_dim) * full_layers;
    assert(b * (c1 + c2) == b * c1 + b * c2) by (nonlinear_arith);
}

/// Only full-attention layers hold a per-token cache: the estimate is the
/// per-layer cost times the number of full-attention layers, whatever the
/// number of linear-attention layers.
pub proof fn law_kv_cache_counts_full_layers_only(kv_heads: int, head_dim: int, full_layers: int, context_tokens: int)
    ensures
        kv_cache_bytes(kv_heads, head_dim, full_layers, context_tokens) == full_layers * (
        kv_bytes_per_token_per_layer(kv_heads, head_dim) * context_tokens),
{
    let b = kv_bytes_per_token_per_layer(kv_heads, head_dim);
    assert(b * full_layers * context_tokens == full_layers * (b * context_tokens)) by (nonlinear_arith);
}

/// How a bytes-per-parameter figure is printed: `2.0`, `1.0` or `0.5`.
pub open spec fn bytes_per_param_label(p: Precision) -> Seq<char> {
    match p {
        Precision::Bf16 | Precision::Fp16 => "2.0"@,
        Precision::Int8 => "1.0"@,
        Precision::Int4 => "0.5"@,
    }
}

/// The printed bytes-per-parameter figure of a precision: whole numbers
/// with one decimal, fractions as they are.
pub fn bytes_per_param_text(p: Precision) -> (r: &'static str)
    ensures
        r@ == bytes_per_param_label(p),
{
    match p {
        Precision::Bf16 | Precision::Fp16 => "2.0",
        Precision::Int8 => "1.0",
        Precision::Int4 => "0.5",
    }
}


/// The cache of one token in one full-attention layer is a key and a value
/// vector of `kv_heads * head_dim` two-byte numbers, `4 * kv_heads *
/// head_dim` bytes; the whole cache is that times the full-attention layers
/// and the context length, so it grows linearly in each of the four.
pub proof fn law_kv_cache_formula(kv_heads: int, head_dim: int, full_layers: int, context_tokens: int)
    ensures
        kv_bytes_per_token_per_layer(kv_heads, head_dim) == 4 * kv_heads * head_dim,
        kv_cache_bytes(kv_heads, head_dim, full_layers, context_tokens) == 4 * kv_heads * head_dim
            * full_layers * context_tokens,
        kv_cache_bytes(2 * kv_heads, head_dim, full_layers, context_tokens) == 2 * kv_cache_bytes(
            kv_heads,
            head_dim,
            full_layers,
            context_tokens,
        ),
{
    assert(2 * kv_heads * head_dim * 2 == 4 * kv_heads * head_dim) by (nonlinear_arith);
    let b = 4 * kv_heads * head_dim;
    assert(2 * (2 * kv_heads) * head_dim * 2 == 2 * b) by (nonlinear_arith)
        requires
            b == 4 * kv_heads * head_dim,
    ;
    assert((2 * b) * full_layers * context_tokens == 2 * (b * full_layers * context_tokens)) by (nonlinear_arith);
}

} // verus!
