//! Classification of checkpoint tensors into model modules by name.
//!
//! The naming scheme is the Qwen3.5 layout:
//! `model.language_model.layers.N.<...>`, `model.visual.<...>`, `mtp.<...>`,
//! `model.language_model.embed_tokens.weight` and `lm_head.weight`.

use vstd::prelude::*;

use crate::safetensors_index::{pairs_text, SafetensorsIndex};
use crate::text::{
    chars_contains_str, chars_eq_str, chars_of, chars_parse_as_u32, chars_starts_with_str,
    contains_run, is_digit, join_from, join_with, lemma_join_split, lemma_split_concat,
    lemma_split_single, parses_as_u32, pieces, split_chars, split_on, unsigned_digits,
};

verus! {

/// The module a tensor belongs to.
#[derive(Debug, Clone, Copy, PartialEq, Eq, Structural, Hash, PartialOrd, Ord)]
pub enum TensorModule {
    Embedding,
    LmHead,
    FullAttention,
    LinearAttention,
    Mlp,
    LayerNorm,
    Vision,
    Mtp,
    Unknown,
}

/// The printed label of a module.
pub open spec fn module_label(m: TensorModule) -> Seq<char> {
    match m {
        TensorModule::Embedding => "embedding"@,
        TensorModule::LmHead => "lm_head"@,
        TensorModule::FullAttention => "full_attention"@,
        TensorModule::LinearAttention => "linear_attention"@,
        TensorModule::Mlp => "mlp"@,
        TensorModule::LayerNorm => "layernorm"@,
        TensorModule::Vision => "vision"@,
        TensorModule::Mtp => "mtp"@,
        TensorModule::Unknown => "unknown"@,
    }
}

/// The position of a module in declaration order, which is also the order
/// in which module tallies are listed.
pub open spec fn module_rank(m: TensorModule) -> int {
    match m {
        TensorModule::Embedding => 0,
        TensorModule::LmHead => 1,
        TensorModule::FullAttention => 2,
        TensorModule::LinearAttention => 3,
        TensorModule::Mlp => 4,
        TensorModule::LayerNorm => 5,
        TensorModule::Vision => 6,
        TensorModule::Mtp => 7,
        TensorModule::Unknown => 8,
    }
}

impl TensorModule {
    /// The printed label of this module.
    pub fn label(&self) -> (r: &'static str)
        ensures
            r@ == module_label(*self),
    {
        match self {
            TensorModule::Embedding => "embedding",
            TensorModule::LmHead => "lm_head",
            TensorModule::FullAttention => "full_attention",
            TensorModule::LinearAttention => "linear_attention",
            TensorModule::Mlp => "mlp",
            TensorModule::LayerNorm => "layernorm",
            TensorModule::Vision => "vision",
            TensorModule::Mtp => "mtp",
            TensorModule::Unknown => "unknown",
        }
    }
}

/// The part of a decoder-layer tensor name that follows
/// `model.language_model.layers`: the remaining dot-separated pieces, with
/// the layer number dropped when the first of them reads as a `u32`,
/// joined back with dots.
pub open spec fn layer_tail(parts: Seq<Seq<char>>) -> Seq<char> {
    let rest = parts.skip(3);
    let within = if rest.len() > 0 && parses_as_u32(rest[0]) {
        rest.skip(1)
    } else {
        rest
    };
    join_with(within, '.')
}

/// The module of a decoder-layer tensor, from the part of its name after
/// the layer number.
pub open spec fn layer_module(tail: Seq<char>) -> TensorModule {
    if "self_attn"@.is_prefix_of(tail) || "full_attn"@.is_prefix_of(tail) {
        TensorModule::FullAttention
    } else if "linear_attn"@.is_prefix_of(tail) || "linear_attention"@.is_prefix_of(tail)
        || "mamba"@.is_prefix_of(tail) {
        TensorModule::LinearAttention
    } else if "mlp"@.is_prefix_of(tail) {
        TensorModule::Mlp
    } else if contains_run(tail, "norm"@) {
        TensorModule::LayerNorm
    } else {
        TensorModule::Unknown
    }
}

/// The module of the tensor called `name`.
pub open spec fn classify_name(name: Seq<char>) -> TensorModule {
    let parts = split_on(name, '.');
    if name == "lm_head.weight"@ {
        TensorModule::LmHead
    } else if parts.len() < 3 {
        TensorModule::Unknown
    } else if parts[0] == "model"@ && parts[1] == "visual"@ {
        TensorModule::Vision
    } else if parts[0] == "mtp"@ {
        TensorModule::Mtp
    } else if parts[0] == "model"@ && parts[1] == "language_model"@ && parts[2]
        == "embed_tokens"@ {
        TensorModule::Embedding
    } else if parts[0] == "model"@ && parts[1] == "language_model"@ && parts[2] == "norm"@ {
        TensorModule::LayerNorm
    } else if parts[0] == "model"@ && parts[1] == "language_model"@ && parts[2] == "layers"@ {
        layer_module(layer_tail(parts))
    } else {
        TensorModule::Unknown
    }
}

fn classify_layer_tail(tail: &[char]) -> (m: TensorModule)
    ensures
        m == layer_module(tail@),
{
    if chars_starts_with_str(tail, "self_attn") || chars_starts_with_str(tail, "full_attn") {
        TensorModule::FullAttention
    } else if chars_starts_with_str(tail, "linear_attn") || chars_starts_with_str(
        tail,
        "linear_attention",
    ) || chars_starts_with_str(tail, "mamba") {
        TensorModule::LinearAttention
    } else if chars_starts_with_str(tail, "mlp") {
        TensorModule::Mlp
    } else if chars_contains_str(tail, "norm") {
        TensorModule::LayerNorm
    } else {
        TensorModule::Unknown
    }
}

/// Classifies a single tensor by its name.
pub fn classify(name: &str) -> (m: TensorModule)
    ensures
        m == classify_name(name@),
{
    let cs = chars_of(name);
    if chars_eq_str(cs.as_slice(), "lm_head.weight") {
        return TensorModule::LmHead;
    }
    let parts = split_chars(cs.as_slice(), '.');
    let ghost ps = pieces(parts@);
    assert(ps.len() == parts@.len());
    if parts.len() < 3 {
        return TensorModule::Unknown;
    }
    assert(ps[0] == parts@[0]@ && ps[1] == parts@[1]@ && ps[2] == parts@[2]@);
    let p0_model = chars_eq_str(parts[0].as_slice(), "model");
    if p0_model && chars_eq_str(parts[1].as_slice(), "visual") {
        return TensorModule::Vision;
    }
    if chars_eq_str(parts[0].as_slice(), "mtp") {
        return TensorModule::Mtp;
    }
    let lm = p0_model && chars_eq_str(parts[1].as_slice(), "language_model");
    if lm && chars_eq_str(parts[2].as_slice(), "embed_tokens") {
        return TensorModule::Embedding;
    }
    if lm && chars_eq_str(parts[2].as_slice(), "norm") {
        return TensorModule::LayerNorm;
    }
    if lm && chars_eq_str(parts[2].as_slice(), "layers") {
        let skip_number = parts.len() > 3 && chars_parse_as_u32(parts[3].as_slice());
        let from: usize = if skip_number { 4 } else { 3 };
        proof {
            let rest = ps.skip(3);
            if rest.len() > 0 {
                assert(rest[0] == parts@[3]@);
            }
            if skip_number {
                assert(rest.skip(1) =~= ps.skip(4));
            }
        }
        let tail = join_from(&parts, from, '.');
        return classify_layer_tail(tail.as_slice());
    }
    TensorModule::Unknown
}


/// Every module, in declaration order.
pub open spec fn all_modules() -> Seq<TensorModule> {
    seq![
        TensorModule::Embedding,
        TensorModule::LmHead,
        TensorModule::FullAttention,
        TensorModule::LinearAttention,
        TensorModule::Mlp,
        TensorModule::LayerNorm,
        TensorModule::Vision,
        TensorModule::Mtp,
        TensorModule::Unknown,
    ]
}

/// How many of the (tensor name, shard) pairs name a tensor of module `m`.
pub open spec fn module_tally(es: Seq<(Seq<char>, Seq<char>)>, m: TensorModule) -> nat
    decreases es.len(),
{
    if es.len() == 0 {
        0
    } else {
        module_tally(es.drop_last(), m) + if classify_name(es.last().0) == m {
            1nat
        } else {
            0nat
        }
    }
}

/// The (module, tally) pairs of the modules in `ms` that hold at least one
/// tensor, in the order of `ms`.
pub open spec fn present_tallies(es: Seq<(Seq<char>, Seq<char>)>, ms: Seq<TensorModule>) -> Seq<
    (TensorModule, usize),
>
    decreases ms.len(),
{
    if ms.len() == 0 {
        Seq::empty()
    } else {
        let rest = present_tallies(es, ms.drop_first());
        if module_tally(es, ms[0]) > 0 {
            seq![(ms[0], module_tally(es, ms[0]) as usize)] + rest
        } else {
            rest
        }
    }
}

/// A tally never exceeds the number of pairs.
pub proof fn lemma_module_tally_bounded(es: Seq<(Seq<char>, Seq<char>)>, m: TensorModule)
    ensures
        module_tally(es, m) <= es.len(),
    decreases es.len(),
{
    if es.len() > 0 {
        lemma_module_tally_bounded(es.drop_last(), m);
    }
}

fn module_of_rank(r: usize) -> (m: TensorModule)
    requires
        r < 9,
    ensures
        m == all_modules()[r as int],
        module_rank(m) == r,
{
    match r {
        0 => TensorModule::Embedding,
        1 => TensorModule::LmHead,
        2 => TensorModule::FullAttention,
        3 => TensorModule::LinearAttention,
        4 => TensorModule::Mlp,
        5 => TensorModule::LayerNorm,
        6 => TensorModule::Vision,
        7 => TensorModule::Mtp,
        _ => TensorModule::Unknown,
    }
}

fn rank_of_module(m: TensorModule) -> (r: usize)
    ensures
        r == module_rank(m),
        r < 9,
        all_modules()[r as int] == m,
{
    match m {
        TensorModule::Embedding => 0,
        TensorModule::LmHead => 1,
        TensorModule::FullAttention => 2,
        TensorModule::LinearAttention => 3,
        TensorModule::Mlp => 4,
        TensorModule::LayerNorm => 5,
        TensorModule::Vision => 6,
        TensorModule::Mtp => 7,
        TensorModule::Unknown => 8,
    }
}

/// The number of tensors of each module, in module declaration order,
/// listing only the modules that hold at least one tensor.
pub fn module_counts(index: &SafetensorsIndex) -> (r: Vec<(TensorModule, usize)>)
    ensures
        r@ == present_tallies(index@, all_modules()),
{
    let entries = index.weight_map();
    let ghost es = index@;
    let n = entries.len();
    let mut counts: Vec<usize> = Vec::new();
    let mut r: usize = 0;
    while r < 9
        invariant
            r <= 9,
            counts@.len() == r,
            forall|j: int| 0 <= j < r ==> counts@[j] == 0,
        decreases 9 - r,
    {
        counts.push(0);
        r = r + 1;
    }
    let mut i: usize = 0;
    assert(es.take(0) =~= Seq::<(Seq<char>, Seq<char>)>::empty());
    while i < n
        invariant
            n == es.len(),
            es == pairs_text(entries@),
            i <= n,
            counts@.len() == 9,
            forall|j: int| 0 <= j < 9 ==> #[trigger] counts@[j] == module_tally(es.take(i as int), all_modules()[j]),
        decreases n - i,
    {
        let m = classify(entries[i].0.as_str());
        let k = rank_of_module(m);
        let ghost before = es.take(i as int);
        let ghost after = es.take(i + 1);
        assert(after.drop_last() =~= before);
        assert(after.last() == es[i as int]);
        assert(es[i as int].0 == entries@[i as int].0@);
        proof {
            lemma_module_tally_bounded(before, m);
        }
        let c = counts[k];
        counts.set(k, c + 1);
        assert forall|j: int| 0 <= j < 9 implies #[trigger] counts@[j] == module_tally(after, all_modules()[j]) by {
            if j != k {
                assert(all_modules()[j] != m);
            }
        }
        i = i + 1;
    }
    assert(es.take(n as int) =~= es);
    let mut out: Vec<(TensorModule, usize)> = Vec::new();
    let mut r: usize = 9;
    assert(all_modules().skip(9) =~= Seq::<TensorModule>::empty());
    while r > 0
        invariant
            r <= 9,
            counts@.len() == 9,
            forall|j: int| 0 <= j < 9 ==> #[trigger] counts@[j] == module_tally(es, all_modules()[j]),
            out@ == present_tallies(es, all_modules().skip(r as int)),
        decreases r,
    {
        r = r - 1;
        let m = module_of_rank(r);
        let c = counts[r];
        let ghost ms = all_modules().skip(r as int);
        assert(ms.drop_first() =~= all_modules().skip(r + 1));
        assert(ms[0] == m);
        if c > 0 {
            out.insert(0, (m, c));
            assert(out@ =~= seq![(m, c)] + present_tallies(es, ms.drop_first()));
        }
    }
    assert(all_modules().skip(0) =~= all_modules());
    out
}


/// The sum of the tallies in a list of (module, tally) pairs.
pub open spec fn tally_sum(ts: Seq<(TensorModule, usize)>) -> int
    decreases ts.len(),
{
    if ts.len() == 0 {
        0
    } else {
        tally_sum(ts.drop_first()) + ts[0].1
    }
}

/// The tallies of the modules in `ms`, added up.
pub open spec fn tally_total(es: Seq<(Seq<char>, Seq<char>)>, ms: Seq<TensorModule>) -> int
    decreases ms.len(),
{
    if ms.len() == 0 {
        0
    } else {
        tally_total(es, ms.drop_first()) + module_tally(es, ms[0])
    }
}

/// How often `m` occurs in `ms`.
pub open spec fn occurrences(ms: Seq<TensorModule>, m: TensorModule) -> int
    decreases ms.len(),
{
    if ms.len() == 0 {
        0
    } else {
        occurrences(ms.drop_first(), m) + if ms[0] == m {
            1int
        } else {
            0int
        }
    }
}

proof fn lemma_tally_total_step(es: Seq<(Seq<char>, Seq<char>)>, ms: Seq<TensorModule>)
    requires
        es.len() > 0,
    ensures
        tally_total(es, ms) == tally_total(es.drop_last(), ms) + occurrences(ms, classify_name(es.last().0)),
    decreases ms.len(),
{
    if ms.len() > 0 {
        lemma_tally_total_step(es, ms.drop_first());
    }
}

proof fn lemma_tally_total_none(es: Seq<(Seq<char>, Seq<char>)>, ms: Seq<TensorModule>)
    requires
        es.len() == 0,
    ensures
        tally_total(es, ms) == 0,
    decreases ms.len(),
{
    if ms.len() > 0 {
        lemma_tally_total_none(es, ms.drop_first());
    }
}

proof fn lemma_tally_total_all(es: Seq<(Seq<char>, Seq<char>)>)
    ensures
        tally_total(es, all_modules()) == es.len(),
    decreases es.len(),
{
    if es.len() == 0 {
        lemma_tally_total_none(es, all_modules());
    } else {
        lemma_tally_total_all(es.drop_last());
        lemma_tally_total_step(es, all_modules());
        let m = classify_name(es.last().0);
        assert(occurrences(all_modules(), m) == 1) by {
            reveal_with_fuel(occurrences, 10);
            assert(all_modules().drop_first() =~= seq![
                TensorModule::LmHead,
                TensorModule::FullAttention,
                TensorModule::LinearAttention,
                TensorModule::Mlp,
                TensorModule::LayerNorm,
                TensorModule::Vision,
                TensorModule::Mtp,
                TensorModule::Unknown,
            ]);
            let a = all_modules();
            assert(a.drop_first().drop_first() =~= a.skip(2));
            assert(a.skip(2).drop_first() =~= a.skip(3));
            assert(a.skip(3).drop_first() =~= a.skip(4));
            assert(a.skip(4).drop_first() =~= a.skip(5));
            assert(a.skip(5).drop_first() =~= a.skip(6));
            assert(a.skip(6).drop_first() =~= a.skip(7));
            assert(a.skip(7).drop_first() =~= a.skip(8));
            assert(a.skip(8).drop_first() =~= a.skip(9));
            assert(a.skip(9).len() == 0);
        }
    }
}

proof fn lemma_present_tallies_sum(es: Seq<(Seq<char>, Seq<char>)>, ms: Seq<TensorModule>)
    requires
        es.len() <= usize::MAX,
    ensures
        tally_sum(present_tallies(es, ms)) == tally_total(es, ms),
    decreases ms.len(),
{
    if ms.len() > 0 {
        lemma_present_tallies_sum(es, ms.drop_first());
        lemma_module_tally_bounded(es, ms[0]);
        let rest = present_tallies(es, ms.drop_first());
        if module_tally(es, ms[0]) > 0 {
            let t = seq![(ms[0], module_tally(es, ms[0]) as usize)] + rest;
            assert(t.drop_first() =~= rest);
        }
    }
}

/// Every tensor of the index falls into exactly one module, so the module
/// tallies that `module_counts` lists add up to the number of tensors.
pub proof fn law_module_counts_cover_every_tensor(index: &SafetensorsIndex)
    ensures
        tally_sum(present_tallies(index@, all_modules())) == index@.len(),
{
    index.lemma_len_fits();
    lemma_present_tallies_sum(index@, all_modules());
    lemma_tally_total_all(index@);
}


/// A decoder-layer tensor `model.language_model.layers.<N>.<rest>`, where
/// `<N>` reads as a layer number, is classified by `<rest>` alone: the
/// tensors of every layer are classified alike.
pub proof fn law_layer_tensors_classified_by_suffix(n: Seq<char>, rest: Seq<char>)
    requires
        parses_as_u32(n),
    ensures
        classify_name("model.language_model.layers."@ + n + "."@ + rest) == layer_module(rest),
{
    reveal_strlit("model.language_model.layers.");
    reveal_strlit(".");
    reveal_strlit("model");
    reveal_strlit("language_model");
    reveal_strlit("layers");
    reveal_strlit("lm_head.weight");
    reveal_strlit("visual");
    reveal_strlit("mtp");
    reveal_strlit("embed_tokens");
    reveal_strlit("norm");
    let m = "model"@;
    let lm = "language_model"@;
    let ly = "layers"@;
    let name = "model.language_model.layers."@ + n + "."@ + rest;
    assert forall|i: int| 0 <= i < n.len() implies n[i] != '.' by {
        let d = unsigned_digits(n);
        if n[0] == '+' {
            if i > 0 {
                assert(d[i - 1] == n[i]);
                assert(is_digit(d[i - 1]));
            }
        } else {
            assert(d[i] == n[i]);
            assert(is_digit(d[i]));
        }
    }
    lemma_split_single(n, '.');
    lemma_split_single(m, '.');
    lemma_split_single(lm, '.');
    lemma_split_single(ly, '.');
    let tail = n.push('.') + rest;
    lemma_split_concat(n, rest, '.');
    let t2 = ly.push('.') + tail;
    lemma_split_concat(ly, tail, '.');
    let t1 = lm.push('.') + t2;
    lemma_split_concat(lm, t2, '.');
    let t0 = m.push('.') + t1;
    lemma_split_concat(m, t1, '.');
    assert(name =~= t0);
    let parts = split_on(name, '.');
    assert(parts =~= seq![m, lm, ly, n] + split_on(rest, '.'));
    assert(parts[0] == m && parts[1] == lm && parts[2] == ly && parts[3] == n);
    assert(name[0] != "lm_head.weight"@[0]);
    assert(name != "lm_head.weight"@);
    assert(lm != "visual"@);
    assert(m != "mtp"@);
    assert(ly != "embed_tokens"@);
    assert(ly != "norm"@);
    let r = parts.skip(3);
    assert(r[0] == n);
    assert(r.skip(1) =~= split_on(rest, '.'));
    lemma_join_split(rest, '.');
}


proof fn lemma_starts_with(p: Seq<char>, rest: Seq<char>)
    ensures
        p.is_prefix_of(p + rest),
{
    assert((p + rest).subrange(0, p.len() as int) =~= p);
}

/// In a decoder-layer tensor name `model.language_model.layers.<N>.<tail>`
/// the start of the tail decides the module, whatever follows it: a tail
/// starting with `self_attn` or `full_attn` is full attention, one starting
/// with `linear_attn`, `linear_attention` or `mamba` is linear attention and
/// one starting with `mlp` is the MLP, even where the rest names a norm
/// (such as `self_attn.q_norm.weight` or `linear_attn.norm.weight`).
pub proof fn law_layer_tail_prefix_decides_module(n: Seq<char>, rest: Seq<char>)
    requires
        parses_as_u32(n),
    ensures
        classify_name("model.language_model.layers."@ + n + "."@ + ("self_attn"@ + rest))
            == TensorModule::FullAttention,
        classify_name("model.language_model.layers."@ + n + "."@ + ("full_attn"@ + rest))
            == TensorModule::FullAttention,
        classify_name("model.language_model.layers."@ + n + "."@ + ("linear_attn"@ + rest))
            == TensorModule::LinearAttention,
        classify_name("model.language_model.layers."@ + n + "."@ + ("linear_attention"@ + rest))
            == TensorModule::LinearAttention,
        classify_name("model.language_model.layers."@ + n + "."@ + ("mamba"@ + rest))
            == TensorModule::LinearAttention,
        classify_name("model.language_model.layers."@ + n + "."@ + ("mlp"@ + rest))
            == TensorModule::Mlp,
{
    reveal_strlit("self_attn");
    reveal_strlit("full_attn");
    reveal_strlit("linear_attn");
    reveal_strlit("linear_attention");
    reveal_strlit("mamba");
    reveal_strlit("mlp");
    let sa = "self_attn"@;
    let fa = "full_attn"@;
    let la = "linear_attn"@;
    let lt = "linear_attention"@;
    let ma = "mamba"@;
    let ml = "mlp"@;
    law_layer_tensors_classified_by_suffix(n, sa + rest);
    law_layer_tensors_classified_by_suffix(n, fa + rest);
    law_layer_tensors_classified_by_suffix(n, la + rest);
    law_layer_tensors_classified_by_suffix(n, lt + rest);
    law_layer_tensors_classified_by_suffix(n, ma + rest);
    law_layer_tensors_classified_by_suffix(n, ml + rest);
    lemma_starts_with(sa, rest);
    lemma_starts_with(fa, rest);
    lemma_starts_with(la, rest);
    lemma_starts_with(lt, rest);
    lemma_starts_with(ma, rest);
    lemma_starts_with(ml, rest);
    // The first characters tell the prefixes apart.
    assert((la + rest)[0] == 'l' && (lt + rest)[0] == 'l' && (ma + rest)[0] == 'm' && (ml + rest)[0] == 'm');
    assert((ma + rest)[1] == 'a' && (ml + rest)[1] == 'l');
    assert(!sa.is_prefix_of(la + rest) && !fa.is_prefix_of(la + rest)) by {
        assert(sa[0] != (la + rest)[0] && fa[0] != (la + rest)[0]);
    }
    assert(!sa.is_prefix_of(lt + rest) && !fa.is_prefix_of(lt + rest)) by {
        assert(sa[0] != (lt + rest)[0] && fa[0] != (lt + rest)[0]);
    }
    assert(!sa.is_prefix_of(ma + rest) && !fa.is_prefix_of(ma + rest)) by {
        assert(sa[0] != (ma + rest)[0] && fa[0] != (ma + rest)[0]);
    }
    assert(!sa.is_prefix_of(ml + rest) && !fa.is_prefix_of(ml + rest)) by {
        assert(sa[0] != (ml + rest)[0] && fa[0] != (ml + rest)[0]);
    }
    assert(!la.is_prefix_of(ml + rest) && !lt.is_prefix_of(ml + rest) && !ma.is_prefix_of(ml + rest)) by {
        assert(la[0] != (ml + rest)[0] && lt[0] != (ml + rest)[0] && ma[1] != (ml + rest)[1]);
    }
}

/// A decoder-layer tail that starts with none of the attention or MLP
/// prefixes but mentions `norm` anywhere is a layer norm; one that mentions
/// none of them is unknown.
pub proof fn law_layer_tail_norm(n: Seq<char>, tail: Seq<char>)
    requires
        parses_as_u32(n),
        !"self_attn"@.is_prefix_of(tail),
        !"full_attn"@.is_prefix_of(tail),
        !"linear_attn"@.is_prefix_of(tail),
        !"linear_attention"@.is_prefix_of(tail),
        !"mamba"@.is_prefix_of(tail),
        !"mlp"@.is_prefix_of(tail),
    ensures
        contains_run(tail, "norm"@) ==> classify_name("model.language_model.layers."@ + n + "."@ + tail)
            == TensorModule::LayerNorm,
        !contains_run(tail, "norm"@) ==> classify_name("model.language_model.layers."@ + n + "."@ + tail)
            == TensorModule::Unknown,
{
    law_layer_tensors_classified_by_suffix(n, tail);
}

} // verus!
