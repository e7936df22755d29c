//! Text for the reports: decimal numbers, thousands separators, and the
//! configuration and index summaries.

use vstd::prelude::*;

use crate::memory_planner::{bytes_per_param_label, bytes_per_param_text, MemoryPlan, PrecisionEstimate};
use crate::model_config::ModelConfig;
use crate::precision::Precision;
use crate::tensor_classifier::{module_label, TensorModule};
use crate::safetensors_index::{is_shard_table, rows_text, shards_of, SafetensorsIndex};
use crate::text::{chars_of, contains_run, string_from_chars};

verus! {

/// The ASCII digit for a value below ten.
pub open spec fn digit_char(d: int) -> char {
    (('0' as int) + d) as char
}

/// The decimal digits of `n`, most significant first, without leading
/// zeros (zero is written `0`).
pub open spec fn decimal_digits(n: nat) -> Seq<char>
    decreases n,
{
    if n < 10 {
        seq![digit_char(n as int)]
    } else {
        decimal_digits(n / 10).push(digit_char((n % 10) as int))
    }
}

/// An integer as `Display` writes it: a `-` for negative values, then the
/// decimal digits of its magnitude.
pub open spec fn int_text(n: int) -> Seq<char> {
    if n < 0 {
        seq!['-'] + decimal_digits((-n) as nat)
    } else {
        decimal_digits(n as nat)
    }
}

/// A run of digits with a comma between each group of three, counted from
/// the right.
pub open spec fn group_thousands(d: Seq<char>) -> Seq<char>
    decreases d.len(),
{
    if d.len() <= 3 {
        d
    } else {
        group_thousands(d.take(d.len() - 3)).push(',') + d.skip(d.len() - 3)
    }
}

/// An integer with thousands separators, such as `-1,234,567`.
pub open spec fn thousands_text(n: int) -> Seq<char> {
    if n < 0 {
        seq!['-'] + group_thousands(decimal_digits((-n) as nat))
    } else {
        group_thousands(decimal_digits(n as nat))
    }
}

/// Decimal digits always form a non-empty run.
pub proof fn lemma_decimal_digits_nonempty(n: nat)
    ensures
        decimal_digits(n).len() >= 1,
    decreases n,
{
    if n >= 10 {
        lemma_decimal_digits_nonempty(n / 10);
    }
}

fn digit(d: u64) -> (c: char)
    requires
        d < 10,
    ensures
        c == digit_char(d as int),
{
    ((d as u8) + 48u8) as char
}

/// The decimal digits of `n`.
pub fn decimal_chars(n: u64) -> (r: Vec<char>)
    ensures
        r@ == decimal_digits(n as nat),
{
    let mut out: Vec<char> = Vec::new();
    out.push(digit(n % 10));
    let mut m: u64 = n / 10;
    assert(n < 10 ==> decimal_digits(n as nat) == out@);
    assert(n >= 10 ==> decimal_digits(n as nat) == decimal_digits(m as nat) + out@);
    while m > 0
        invariant
            m > 0 ==> decimal_digits(n as nat) == decimal_digits(m as nat) + out@,
            m == 0 ==> decimal_digits(n as nat) == out@,
        decreases m,
    {
        let ghost prev = out@;
        out.insert(0, digit(m % 10));
        assert(out@ =~= seq![digit_char((m % 10) as int)] + prev);
        if m >= 10 {
            assert(decimal_digits(m as nat) + prev =~= decimal_digits((m / 10) as nat) + out@);
        } else {
            assert(decimal_digits(m as nat) + prev =~= out@);
        }
        m = m / 10;
    }
    out
}

fn push_chars(out: &mut Vec<char>, s: &Vec<char>)
    ensures
        final(out)@ == old(out)@ + s@,
{
    let mut i: usize = 0;
    while i < s.len()
        invariant
            i <= s@.len(),
            out@ == old(out)@ + s@.take(i as int),
        decreases s@.len() - i,
    {
        out.push(s[i]);
        i = i + 1;
        assert(out@ =~= old(out)@ + s@.take(i as int));
    }
    assert(s@.take(s@.len() as int) =~= s@);
}

fn push_str(out: &mut Vec<char>, s: &str)
    ensures
        final(out)@ == old(out)@ + s@,
{
    for c in it: s.chars()
        invariant
            out@ == old(out)@ + it.seq().take(it.index() as int),
            it.seq() == s@,
    {
        out.push(c);
    }
    assert(s@.take(s@.len() as int) =~= s@);
}

/// The magnitude of an `i64` other than `i64::MIN`.
fn magnitude_u64(n: i64) -> (m: u64)
    ensures
        m as int == if n < 0 {
            -(n as int)
        } else {
            n as int
        },
{
    if n < 0 {
        if n == i64::MIN {
            9223372036854775808u64
        } else {
            (-n) as u64
        }
    } else {
        n as u64
    }
}

fn push_int(out: &mut Vec<char>, n: i64)
    ensures
        final(out)@ == old(out)@ + int_text(n as int),
{
    let digits = decimal_chars(magnitude_u64(n));
    if n < 0 {
        out.push('-');
    }
    let ghost mid = out@;
    push_chars(out, &digits);
    if n < 0 {
        assert(out@ =~= old(out)@ + (seq!['-'] + digits@));
    } else {
        assert(out@ =~= old(out)@ + digits@);
    }
}

/// An integer with a comma between each group of three digits, such as
/// `55,562,855,904`.
pub fn thousands(n: i64) -> (r: String)
    requires
        n != i64::MIN,
    ensures
        r@ == thousands_text(n as int),
{
    let d = decimal_chars(magnitude_u64(n));
    let len = d.len();
    proof {
        lemma_decimal_digits_nonempty(if n < 0 {
            (-n) as nat
        } else {
            n as nat
        });
    }
    let first: usize = if len % 3 == 0 { 3 } else { len % 3 };
    let mut out: Vec<char> = Vec::new();
    if n < 0 {
        out.push('-');
    }
    let ghost lead = out@;
    let mut i: usize = 0;
    while i < first
        invariant
            i <= first <= len,
            len == d@.len(),
            out@ == lead + d@.take(i as int),
        decreases first - i,
    {
        out.push(d[i]);
        i = i + 1;
        assert(out@ =~= lead + d@.take(i as int));
    }
    assert(group_thousands(d@.take(first as int)) == d@.take(first as int));
    let mut p: usize = first;
    while p < len
        invariant
            1 <= p <= len,
            len == d@.len(),
            (len - p) % 3 == 0,
            out@ == lead + group_thousands(d@.take(p as int)),
        decreases len - p,
    {
        let ghost before = out@;
        out.push(',');
        out.push(d[p]);
        out.push(d[p + 1]);
        out.push(d[p + 2]);
        let ghost t = d@.take(p + 3);
        assert(t.take(t.len() - 3) =~= d@.take(p as int));
        assert(t.skip(t.len() - 3) =~= seq![d@[p as int], d@[p + 1], d@[p + 2]]);
        assert(out@ =~= lead + group_thousands(t));
        p = p + 3;
    }
    assert(d@.take(len as int) =~= d@);
    if n < 0 {
        assert(out@ =~= seq!['-'] + group_thousands(d@));
    } else {
        assert(out@ =~= group_thousands(d@));
    }
    string_from_chars(&out)
}


/// One report line: a label, a value and a line break.
pub open spec fn report_line(label: Seq<char>, value: Seq<char>) -> Seq<char> {
    label + value + seq!['\n']
}

/// How `Display` writes a `bool`.
pub open spec fn bool_text(b: bool) -> Seq<char> {
    if b {
        "true"@
    } else {
        "false"@
    }
}

/// The configuration summary, one labelled line per field.
pub open spec fn config_report(c: &ModelConfig) -> Seq<char> {
    report_line("Architecture:          "@, c.architecture@)
        + report_line("Model type:            "@, c.model_type@)
        + report_line("Hidden size:           "@, int_text(c.hidden_size as int))
        + report_line("Layers:                "@, int_text(c.num_layers as int))
        + report_line("  Full attention:      "@, int_text(c.full_attention_layers as int))
        + report_line("  Linear attention:    "@, int_text(c.linear_attention_layers as int))
        + report_line(
        "Attention heads:       "@,
        int_text(c.num_attention_heads as int) + " (kv: "@ + int_text(c.num_key_value_heads as int)
            + ")"@,
    ) + report_line("Head dim:              "@, int_text(c.head_dim as int))
        + report_line("Intermediate size:     "@, int_text(c.intermediate_size as int))
        + report_line("Vocab size:            "@, int_text(c.vocab_size as int))
        + report_line("Max position:          "@, int_text(c.max_position_embeddings as int))
        + report_line("MTP layers:            "@, int_text(c.mtp_layers as int))
        + report_line("Tie word embeddings:   "@, bool_text(c.tie_word_embeddings))
        + report_line("Declared dtype:        "@, c.declared_dtype@)
        + report_line(
        "Vision tower:          "@,
        if c.has_vision {
            "yes"@
        } else {
            "no"@
        },
    )
}

fn push_line(out: &mut Vec<char>, label: &str, value: &Vec<char>)
    ensures
        final(out)@ == old(out)@ + report_line(label@, value@),
{
    push_str(out, label);
    push_chars(out, value);
    out.push('\n');
    assert(out@ =~= old(out)@ + report_line(label@, value@));
}

fn int_chars(n: i64) -> (r: Vec<char>)
    ensures
        r@ == int_text(n as int),
{
    let mut v: Vec<char> = Vec::new();
    push_int(&mut v, n);
    assert(v@ =~= int_text(n as int));
    v
}

fn bool_chars(b: bool) -> (r: Vec<char>)
    ensures
        r@ == bool_text(b),
{
    if b {
        chars_of("true")
    } else {
        chars_of("false")
    }
}

/// The configuration summary printed by `inspect-config`.
pub fn render_config(config: &ModelConfig) -> (r: String)
    ensures
        r@ == config_report(config),
{
    let mut out: Vec<char> = Vec::new();
    push_line(&mut out, "Architecture:          ", &chars_of(config.architecture.as_str()));
    push_line(&mut out, "Model type:            ", &chars_of(config.model_type.as_str()));
    push_line(&mut out, "Hidden size:           ", &int_chars(config.hidden_size));
    push_line(&mut out, "Layers:                ", &int_chars(config.num_layers));
    push_line(&mut out, "  Full attention:      ", &int_chars(config.full_attention_layers));
    push_line(&mut out, "  Linear attention:    ", &int_chars(config.linear_attention_layers));
    let mut heads = int_chars(config.num_attention_heads);
    push_str(&mut heads, " (kv: ");
    let kv = int_chars(config.num_key_value_heads);
    push_chars(&mut heads, &kv);
    push_str(&mut heads, ")");
    push_line(&mut out, "Attention heads:       ", &heads);
    push_line(&mut out, "Head dim:              ", &int_chars(config.head_dim));
    push_line(&mut out, "Intermediate size:     ", &int_chars(config.intermediate_size));
    push_line(&mut out, "Vocab size:            ", &int_chars(config.vocab_size));
    push_line(&mut out, "Max position:          ", &int_chars(config.max_position_embeddings));
    push_line(&mut out, "MTP layers:            ", &int_chars(config.mtp_layers));
    push_line(&mut out, "Tie word embeddings:   ", &bool_chars(config.tie_word_embeddings));
    push_line(&mut out, "Declared dtype:        ", &chars_of(config.declared_dtype.as_str()));
    let vision = if config.has_vision {
        chars_of("yes")
    } else {
        chars_of("no")
    };
    push_line(&mut out, "Vision tower:          ", &vision);
    string_from_chars(&out)
}


/// `s` padded with spaces on the right to at least `width` characters, as
/// the `{:<width}` format does.
pub open spec fn pad_right(s: Seq<char>, width: int) -> Seq<char> {
    if s.len() >= width {
        s
    } else {
        s + Seq::new((width - s.len()) as nat, |i: int| ' ')
    }
}

/// The per-shard lines: the shard name padded to 45 characters, then its
/// tensor count.
pub open spec fn shard_table_text(rows: Seq<(Seq<char>, int)>) -> Seq<char>
    decreases rows.len(),
{
    if rows.len() == 0 {
        Seq::empty()
    } else {
        shard_table_text(rows.drop_last()) + "  "@ + pad_right(rows.last().0, 45) + " "@ + int_text(
            rows.last().1,
        ) + seq!['\n']
    }
}

/// The index summary: tensor and shard counts, the declared size in bytes
/// and as `size_text`, then the per-shard table.
pub open spec fn index_report(
    es: Seq<(Seq<char>, Seq<char>)>,
    total_size: int,
    size_text: Seq<char>,
    rows: Seq<(Seq<char>, int)>,
) -> Seq<char> {
    report_line("Tensors:               "@, int_text(es.len() as int))
        + report_line("Shards:                "@, int_text(rows.len() as int))
        + report_line("Declared total bytes:  "@, thousands_text(total_size))
        + report_line("Declared total size:   "@, size_text) + "\nPer-shard tensor counts:\n"@
        + shard_table_text(rows)
}

fn usize_chars(n: usize) -> (r: Vec<char>)
    ensures
        r@ == int_text(n as int),
{
    decimal_chars(n as u64)
}

/// The index summary printed by `inspect-index`; `size_text` is the
/// declared size as it should read (in GiB).
pub fn render_index(index: &SafetensorsIndex, size_text: &str) -> (r: String)
    ensures
        exists|rows: Seq<(Seq<char>, int)>|
            is_shard_table(index@, rows) && r@ == index_report(
                index@,
                index.declared_size(),
                size_text@,
                rows,
            ),
{
    index.check_wf();
    let table = index.shard_tensor_counts();
    let ghost rows = rows_text(table@);
    let mut out: Vec<char> = Vec::new();
    push_line(&mut out, "Tensors:               ", &usize_chars(index.tensor_count()));
    push_line(&mut out, "Shards:                ", &usize_chars(table.len()));
    let total = index.total_size();
    let bytes = thousands(total);
    push_line(&mut out, "Declared total bytes:  ", &chars_of(bytes.as_str()));
    push_line(&mut out, "Declared total size:   ", &chars_of(size_text));
    push_str(&mut out, "\nPer-shard tensor counts:\n");
    let ghost head = out@;
    let mut k: usize = 0;
    assert(rows.take(0) =~= Seq::<(Seq<char>, int)>::empty());
    while k < table.len()
        invariant
            k <= table@.len(),
            rows == rows_text(table@),
            out@ == head + shard_table_text(rows.take(k as int)),
        decreases table@.len() - k,
    {
        let ghost before = out@;
        push_str(&mut out, "  ");
        let name = chars_of(table[k].0.as_str());
        let ghost name_start = out@.len();
        push_chars(&mut out, &name);
        let mut w: usize = name.len();
        while w < 45
            invariant
                w == name@.len() || w <= 45,
                w >= name@.len(),
                out@ == before + "  "@ + name@ + Seq::new((w - name@.len()) as nat, |i: int| ' '),
            decreases 45 - w,
        {
            out.push(' ');
            w = w + 1;
            assert(out@ =~= before + "  "@ + name@ + Seq::new((w - name@.len()) as nat, |i: int| ' '));
        }
        if name.len() >= 45 {
            assert(w == name@.len());
            assert(name@ + Seq::new((w - name@.len()) as nat, |i: int| ' ') =~= pad_right(name@, 45));
        } else {
            assert(w == 45);
            assert(name@ + Seq::new((w - name@.len()) as nat, |i: int| ' ') =~= pad_right(name@, 45));
        }
        assert(before + "  "@ + name@ + Seq::new((w - name@.len()) as nat, |i: int| ' ') =~= before + "  "@ + pad_right(name@, 45));
        push_str(&mut out, " ");
        push_chars(&mut out, &usize_chars(table[k].1));
        out.push('\n');
        let ghost upto = rows.take(k + 1);
        assert(upto.drop_last() =~= rows.take(k as int));
        assert(upto.last() == (table@[k as int].0@, table@[k as int].1 as int));
        assert(out@ =~= head + shard_table_text(upto));
        k = k + 1;
    }
    assert(rows.take(table@.len() as int) =~= rows);
    assert(out@ =~= index_report(index@, index.declared_size(), size_text@, rows));
    string_from_chars(&out)
}


/// `s` with every comma removed.
pub open spec fn without_commas(s: Seq<char>) -> Seq<char>
    decreases s.len(),
{
    if s.len() == 0 {
        s
    } else if s.last() == ',' {
        without_commas(s.drop_last())
    } else {
        without_commas(s.drop_last()).push(s.last())
    }
}

proof fn lemma_without_commas_concat(a: Seq<char>, b: Seq<char>)
    ensures
        without_commas(a + b) == without_commas(a) + without_commas(b),
    decreases b.len(),
{
    if b.len() == 0 {
        assert(a + b =~= a);
        assert(without_commas(a) + without_commas(b) =~= without_commas(a));
    } else {
        lemma_without_commas_concat(a, b.drop_last());
        assert((a + b).drop_last() =~= a + b.drop_last());
        assert((a + b).last() == b.last());
        if b.last() == ',' {
        } else {
            assert(without_commas(a) + without_commas(b.drop_last()).push(b.last()) =~= (without_commas(a)
                + without_commas(b.drop_last())).push(b.last()));
        }
    }
}

proof fn lemma_without_commas_digits(d: Seq<char>)
    requires
        forall|i: int| 0 <= i < d.len() ==> d[i] != ',',
    ensures
        without_commas(d) == d,
    decreases d.len(),
{
    if d.len() > 0 {
        lemma_without_commas_digits(d.drop_last());
        assert(without_commas(d.drop_last()).push(d.last()) =~= d);
    }
}

proof fn lemma_without_commas_grouped(d: Seq<char>)
    requires
        forall|i: int| 0 <= i < d.len() ==> d[i] != ',',
    ensures
        without_commas(group_thousands(d)) == d,
    decreases d.len(),
{
    if d.len() <= 3 {
        lemma_without_commas_digits(d);
    } else {
        let head = d.take(d.len() - 3);
        let tail = d.skip(d.len() - 3);
        lemma_without_commas_grouped(head);
        lemma_without_commas_concat(group_thousands(head).push(','), tail);
        assert(group_thousands(head).push(',').drop_last() =~= group_thousands(head));
        assert(without_commas(group_thousands(head).push(',')) == without_commas(group_thousands(head)));
        lemma_without_commas_digits(tail);
        assert(head + tail =~= d);
    }
}

proof fn lemma_decimal_digits_are_digits(n: nat)
    ensures
        forall|i: int| 0 <= i < decimal_digits(n).len() ==> #[trigger] decimal_digits(n)[i] != ',',
    decreases n,
{
    let k = (n % 10) as int;
    assert(digit_char(k) as int == 48 + k);
    if n >= 10 {
        lemma_decimal_digits_are_digits(n / 10);
        let d = decimal_digits(n / 10);
        assert(decimal_digits(n) == d.push(digit_char(k)));
        assert forall|i: int| 0 <= i < decimal_digits(n).len() implies #[trigger] decimal_digits(n)[i] != ',' by {
            if i < d.len() {
                assert(decimal_digits(n)[i] == d[i]);
            }
        }
    } else {
        assert(digit_char(n as int) as int == 48 + n);
    }
}

/// The thousands separators are only separators: removing the commas from
/// `thousands(n)` leaves `n` as `Display` writes it.
pub proof fn law_thousands_strips_to_plain_decimal(n: int)
    ensures
        without_commas(thousands_text(n)) == int_text(n),
{
    let m: nat = if n < 0 {
        (-n) as nat
    } else {
        n as nat
    };
    lemma_decimal_digits_are_digits(m);
    lemma_without_commas_grouped(decimal_digits(m));
    if n < 0 {
        lemma_without_commas_concat(seq!['-'], group_thousands(decimal_digits(m)));
        assert(without_commas(seq!['-']) == seq!['-']) by {
            assert(seq!['-'].drop_last() =~= Seq::<char>::empty());
            assert(without_commas(Seq::<char>::empty()).push('-') =~= seq!['-']);
        }
    }
}


/// `s` padded with spaces on the left to at least `width` characters, as
/// the `{:>width}` format does.
pub open spec fn pad_left(s: Seq<char>, width: int) -> Seq<char> {
    if s.len() >= width {
        s
    } else {
        Seq::new((width - s.len()) as nat, |i: int| ' ') + s
    }
}

/// How `Debug` writes a precision: its variant name.
pub open spec fn precision_debug_text(p: Precision) -> Seq<char> {
    match p {
        Precision::Bf16 => "Bf16"@,
        Precision::Fp16 => "Fp16"@,
        Precision::Int8 => "Int8"@,
        Precision::Int4 => "Int4"@,
    }
}

/// The variant name of a precision, as `Debug` writes it.
pub fn precision_debug_name(p: Precision) -> (r: &'static str)
    ensures
        r@ == precision_debug_text(p),
{
    match p {
        Precision::Bf16 => "Bf16",
        Precision::Fp16 => "Fp16",
        Precision::Int8 => "Int8",
        Precision::Int4 => "Int4",
    }
}

/// The context lengths at which the plan report shows the cache: 4K, 32K,
/// 128K and the model's maximum position.
pub open spec fn report_context_lengths(c: &ModelConfig) -> Seq<i64> {
    seq![4096i64, 32768i64, 131072i64, c.max_position_embeddings]
}

/// The context lengths at which the plan report shows the cache.
pub fn report_contexts(config: &ModelConfig) -> (r: Vec<i64>)
    ensures
        r@ == report_context_lengths(config),
{
    let v = vec![4096i64, 32768i64, 131072i64, config.max_position_embeddings];
    assert(v@ =~= report_context_lengths(config));
    v
}

/// The per-token, per-layer figure of the cache lines: the key and value
/// entries of one token in one layer, `2 * kv_heads * head_dim`.
pub open spec fn per_token_values(c: &ModelConfig) -> int {
    2 * c.num_key_value_heads * c.head_dim
}

/// The per-token figure is within the range where a double holds every
/// integer exactly (magnitude at most 2^53).
pub open spec fn per_token_within_float_range(c: &ModelConfig) -> bool {
    -0x20_0000_0000_0000 <= per_token_values(c) <= 0x20_0000_0000_0000
}

/// The figures of the plan report that are written from floating-point
/// values: they are formatted by the caller and placed here as text.
pub struct PlanFigures {
    /// The implied parameter count in billions, such as `27.78`.
    pub implied_billions: String,
    /// The size of each weight estimate, such as `51.75 GiB`, in plan
    /// order.
    pub estimate_sizes: Vec<String>,
    /// The cache size at each of the report's context lengths, in order.
    pub kv_sizes: Vec<String>,
    /// The per-token, per-layer figure shown beside the cache sizes: equal
    /// to `2 * kv_heads * head_dim` wherever that fits in a double exactly.
    pub per_token_figure: i64,
}

/// One row of the precision table.
pub open spec fn estimate_row(p: Precision, size: Seq<char>) -> Seq<char> {
    "| "@ + precision_debug_text(p) + " | "@ + bytes_per_param_label(p) + " | "@ + size + " |\n"@
}

fn push_estimate_row(out: &mut Vec<char>, p: Precision, size: &str)
    ensures
        final(out)@ == old(out)@ + estimate_row(p, size@),
{
    push_str(out, "| ");
    push_str(out, precision_debug_name(p));
    push_str(out, " | ");
    push_str(out, bytes_per_param_text(p));
    push_str(out, " | ");
    push_str(out, size);
    push_str(out, " |\n");
    assert(out@ =~= old(out)@ + estimate_row(p, size@));
}

/// The rows of the precision table.
pub open spec fn estimate_rows(ps: Seq<Precision>, sizes: Seq<Seq<char>>) -> Seq<char>
    decreases ps.len(),
{
    if ps.len() == 0 {
        Seq::empty()
    } else {
        estimate_rows(ps.drop_last(), sizes.take(ps.len() - 1)) + estimate_row(
            ps.last(),
            sizes[ps.len() - 1],
        )
    }
}

/// One row of the module table.
pub open spec fn module_row(m: TensorModule, count: int) -> Seq<char> {
    "| "@ + module_label(m) + " | "@ + int_text(count) + " |\n"@
}

fn push_module_row(out: &mut Vec<char>, m: TensorModule, count: usize)
    ensures
        final(out)@ == old(out)@ + module_row(m, count as int),
{
    push_str(out, "| ");
    push_str(out, m.label());
    push_str(out, " | ");
    push_chars(out, &usize_chars(count));
    push_str(out, " |\n");
    assert(out@ =~= old(out)@ + module_row(m, count as int));
}

/// The rows of the module table.
pub open spec fn module_rows(ms: Seq<(TensorModule, usize)>) -> Seq<char>
    decreases ms.len(),
{
    if ms.len() == 0 {
        Seq::empty()
    } else {
        module_rows(ms.drop_last()) + module_row(ms.last().0, ms.last().1 as int)
    }
}

/// One cache line: the context length, the cache size, and the per-token
/// figure with the number of full-attention layers.
pub open spec fn kv_row(ctx: int, size: Seq<char>, per_token: Seq<char>, full_layers: int) -> Seq<char> {
    "- ctx "@ + pad_left(thousands_text(ctx), 7) + ": "@ + size + " ("@ + per_token
        + " bytes/token/layer × "@ + int_text(full_layers) + " layers)\n"@
}

fn push_kv_row(out: &mut Vec<char>, ctx: i64, size: &str, per_token: &String, full_layers: i64)
    requires
        ctx != i64::MIN,
    ensures
        final(out)@ == old(out)@ + kv_row(ctx as int, size@, per_token@, full_layers as int),
{
    let ghost start = out@;
    push_str(out, "- ctx ");
    let ct = thousands(ctx);
    let ctc = chars_of(ct.as_str());
    let mut w: usize = ctc.len();
    let ghost before = out@;
    while w < 7
        invariant
            w == ctc@.len() || w <= 7,
            w >= ctc@.len(),
            out@ == before + Seq::new((w - ctc@.len()) as nat, |i: int| ' '),
        decreases 7 - w,
    {
        out.push(' ');
        w = w + 1;
        assert(out@ =~= before + Seq::new((w - ctc@.len()) as nat, |i: int| ' '));
    }
    push_chars(out, &ctc);
    assert(Seq::new((w - ctc@.len()) as nat, |i: int| ' ') + ctc@ =~= pad_left(ctc@, 7));
    assert(out@ =~= before + pad_left(ctc@, 7));
    push_str(out, ": ");
    push_str(out, size);
    push_str(out, " (");
    push_str(out, per_token.as_str());
    push_str(out, " bytes/token/layer × ");
    push_int(out, full_layers);
    push_str(out, " layers)\n");
    assert(out@ =~= start + kv_row(ctx as int, size@, per_token@, full_layers as int));
}

/// The cache lines, one per context length.
pub open spec fn kv_rows(ctxs: Seq<i64>, sizes: Seq<Seq<char>>, per_token: int, full_layers: int) -> Seq<
    char,
>
    decreases ctxs.len(),
{
    if ctxs.len() == 0 {
        Seq::empty()
    } else {
        kv_rows(ctxs.drop_last(), sizes.take(ctxs.len() - 1), per_token, full_layers) + kv_row(
            ctxs.last() as int,
            sizes[ctxs.len() - 1],
            thousands_text(per_token),
            full_layers,
        )
    }
}

/// The closing notes of the plan report.
pub open spec fn evidence_text() -> Seq<char> {
    "## Evidence boundary\n"@ + "\n"@
        + "- Precision sizes are estimates scaled from the checkpoint's declared\n"@
        + "  BF16 total_size; the safetensors index carries no per-tensor dtype.\n"@
        + "- KV estimates cover full-attention layers only; linear-attention\n"@
        + "  layers hold fixed-size recurrent state, not per-token KV.\n"@
        + "- Vision, MTP, and embedding bytes are counted inside the total but\n"@
        + "  not yet broken out per-module (v1 counts tensors by name only).\n"@
}

/// The precisions of a list of estimates.
pub open spec fn estimate_precisions(es: Seq<PrecisionEstimate>) -> Seq<Precision> {
    es.map_values(|e: PrecisionEstimate| e.precision)
}

/// The texts of a list of strings.
pub open spec fn string_texts(v: Seq<String>) -> Seq<Seq<char>> {
    v.map_values(|t: String| t@)
}

/// The markdown memory plan.
pub open spec fn plan_markdown(
    c: &ModelConfig,
    es: Seq<(Seq<char>, Seq<char>)>,
    total_size: int,
    plan: &MemoryPlan,
    f: &PlanFigures,
) -> Seq<char> {
    "# Memory Plan\n"@ + "\n"@ + "- Model: "@ + c.architecture@ + " ("@ + c.model_type@ + ")\n"@
        + "- Layers: "@ + int_text(c.num_layers as int) + " ("@ + int_text(
        c.full_attention_layers as int,
    ) + " full attention, "@ + int_text(c.linear_attention_layers as int)
        + " linear attention)\n"@ + "- Shards: "@ + int_text(shards_of(es).to_set().len() as int)
        + "\n"@ + "- Tensors: "@ + int_text(es.len() as int) + "\n"@
        + "- Declared weight bytes: "@ + thousands_text(total_size) + "\n"@
        + "- Implied parameter count (from BF16 total): ~"@ + f.implied_billions@ + "B\n"@ + "\n"@
        + "## Precision estimates\n"@ + "\n"@ + "| Precision | Bytes/param | Estimated size |\n"@
        + "|---|---|---|\n"@ + estimate_rows(
        estimate_precisions(plan.estimates@),
        string_texts(f.estimate_sizes@),
    ) + "\n"@ + "## Tensor classification (by name)\n"@ + "\n"@ + "| Module | Tensor count |\n"@
        + "|---|---|\n"@ + module_rows(plan.module_counts@) + "\n"@
        + "## KV cache estimate (full-attention layers, BF16)\n"@ + "\n"@ + kv_rows(
        report_context_lengths(c),
        string_texts(f.kv_sizes@),
        f.per_token_figure as int,
        c.full_attention_layers as int,
    ) + "\n"@ + evidence_text()
}

/// The markdown memory plan printed by `plan`; the floating-point figures
/// come formatted in `figures`.
#[verifier::spinoff_prover]
#[verifier::rlimit(40)]
pub fn render_plan_markdown(
    config: &ModelConfig,
    index: &SafetensorsIndex,
    plan: &MemoryPlan,
    figures: &PlanFigures,
) -> (r: String)
    requires
        figures.estimate_sizes@.len() == plan.estimates@.len(),
        figures.kv_sizes@.len() == 4,
        config.max_position_embeddings != i64::MIN,
        figures.per_token_figure != i64::MIN,
        per_token_within_float_range(config) ==> figures.per_token_figure == per_token_values(config),
    ensures
        r@ == plan_markdown(config, index@, index.declared_size(), plan, figures),
{
    index.check_wf();
    let mut out: Vec<char> = Vec::new();
    push_str(&mut out, "# Memory Plan\n");
    push_str(&mut out, "\n");
    push_str(&mut out, "- Model: ");
    push_str(&mut out, config.architecture.as_str());
    push_str(&mut out, " (");
    push_str(&mut out, config.model_type.as_str());
    push_str(&mut out, ")\n");
    push_str(&mut out, "- Layers: ");
    push_int(&mut out, config.num_layers);
    push_str(&mut out, " (");
    push_int(&mut out, config.full_attention_layers);
    push_str(&mut out, " full attention, ");
    push_int(&mut out, config.linear_attention_layers);
    push_str(&mut out, " linear attention)\n");
    push_str(&mut out, "- Shards: ");
    push_chars(&mut out, &usize_chars(index.shard_count()));
    push_str(&mut out, "\n");
    push_str(&mut out, "- Tensors: ");
    push_chars(&mut out, &usize_chars(index.tensor_count()));
    push_str(&mut out, "\n");
    push_str(&mut out, "- Declared weight bytes: ");
    let bytes = thousands(index.total_size());
    push_str(&mut out, bytes.as_str());
    push_str(&mut out, "\n");
    push_str(&mut out, "- Implied parameter count (from BF16 total): ~");
    push_str(&mut out, figures.implied_billions.as_str());
    push_str(&mut out, "B\n");
    push_str(&mut out, "\n");
    push_str(&mut out, "## Precision estimates\n");
    push_str(&mut out, "\n");
    push_str(&mut out, "| Precision | Bytes/param | Estimated size |\n");
    push_str(&mut out, "|---|---|---|\n");
    let ghost head1 = out@;
    let ghost ps = estimate_precisions(plan.estimates@);
    let ghost sizes = string_texts(figures.estimate_sizes@);
    let mut i: usize = 0;
    while i < plan.estimates.len()
        invariant
            i <= plan.estimates@.len(),
            ps == estimate_precisions(plan.estimates@),
            sizes == string_texts(figures.estimate_sizes@),
            sizes.len() == ps.len(),
            out@ == head1 + estimate_rows(ps.take(i as int), sizes.take(i as int)),
        decreases plan.estimates@.len() - i,
    {
        let p = plan.estimates[i].precision;
        push_estimate_row(&mut out, p, figures.estimate_sizes[i].as_str());
        let ghost pt = ps.take(i + 1);
        assert(pt.drop_last() =~= ps.take(i as int));
        assert(sizes.take(i + 1).take(pt.len() - 1) =~= sizes.take(i as int));
        assert(pt.last() == p);
        assert(sizes.take(i + 1)[pt.len() - 1] == figures.estimate_sizes@[i as int]@);
        assert(out@ =~= head1 + estimate_rows(pt, sizes.take(i + 1)));
        i = i + 1;
    }
    assert(ps.take(ps.len() as int) =~= ps);
    assert(sizes.take(sizes.len() as int) =~= sizes);
    push_str(&mut out, "\n");
    push_str(&mut out, "## Tensor classification (by name)\n");
    push_str(&mut out, "\n");
    push_str(&mut out, "| Module | Tensor count |\n");
    push_str(&mut out, "|---|---|\n");
    let ghost head2 = out@;
    let ghost ms = plan.module_counts@;
    let mut j: usize = 0;
    while j < plan.module_counts.len()
        invariant
            j <= ms.len(),
            ms == plan.module_counts@,
            out@ == head2 + module_rows(ms.take(j as int)),
        decreases ms.len() - j,
    {
        let (m, c) = plan.module_counts[j];
        push_module_row(&mut out, m, c);
        let ghost mt = ms.take(j + 1);
        assert(mt.drop_last() =~= ms.take(j as int));
        assert(mt.last() == (m, c));
        assert(out@ =~= head2 + module_rows(mt));
        j = j + 1;
    }
    assert(ms.take(ms.len() as int) =~= ms);
    push_str(&mut out, "\n");
    push_str(&mut out, "## KV cache estimate (full-attention layers, BF16)\n");
    push_str(&mut out, "\n");
    let ghost head3 = out@;
    let ctxs = report_contexts(config);
    let ghost kvs = string_texts(figures.kv_sizes@);
    let per_token = thousands(figures.per_token_figure);
    let mut k: usize = 0;
    while k < 4
        invariant
            k <= 4,
            ctxs@ == report_context_lengths(config),
            kvs == string_texts(figures.kv_sizes@),
            kvs.len() == 4,
            per_token@ == thousands_text(figures.per_token_figure as int),
            config.max_position_embeddings != i64::MIN,
            out@ == head3 + kv_rows(
                ctxs@.take(k as int),
                kvs.take(k as int),
                figures.per_token_figure as int,
                config.full_attention_layers as int,
            ),
        decreases 4 - k,
    {
        let ctx = ctxs[k];
        assert(ctx != i64::MIN);
        push_kv_row(&mut out, ctx, figures.kv_sizes[k].as_str(), &per_token, config.full_attention_layers);
        let ghost ct_all = ctxs@.take(k + 1);
        assert(ct_all.drop_last() =~= ctxs@.take(k as int));
        assert(kvs.take(k + 1).take(ct_all.len() - 1) =~= kvs.take(k as int));
        assert(ct_all.last() == ctx);
        assert(kvs.take(k + 1)[ct_all.len() - 1] == figures.kv_sizes@[k as int]@);
        assert(out@ =~= head3 + kv_rows(
            ct_all,
            kvs.take(k + 1),
            figures.per_token_figure as int,
            config.full_attention_layers as int,
        ));
        k = k + 1;
    }
    assert(ctxs@.take(4) =~= ctxs@);
    assert(kvs.take(4) =~= kvs);
    push_str(&mut out, "\n");
    let ghost head4 = out@;
    push_str(&mut out, "## Evidence boundary\n");
    push_str(&mut out, "\n");
    push_str(&mut out, "- Precision sizes are estimates scaled from the checkpoint's declared\n");
    push_str(&mut out, "  BF16 total_size; the safetensors index carries no per-tensor dtype.\n");
    push_str(&mut out, "- KV estimates cover full-attention layers only; linear-attention\n");
    push_str(&mut out, "  layers hold fixed-size recurrent state, not per-token KV.\n");
    push_str(&mut out, "- Vision, MTP, and embedding bytes are counted inside the total but\n");
    push_str(&mut out, "  not yet broken out per-module (v1 counts tensors by name only).\n");
    assert(out@ =~= head4 + evidence_text());
    assert(out@ =~= plan_markdown(config, index@, index.declared_size(), plan, figures));
    string_from_chars(&out)
}


/// The plan report opens with its title, the model line and the layer
/// line, in that order; the layer line shows the layer count, then the
/// full-attention count, then the linear-attention count, each beside its
/// own label.
#[verifier::spinoff_prover]
#[verifier::rlimit(40)]
pub proof fn law_plan_opens_with_model_and_layer_counts(
    c: &ModelConfig,
    es: Seq<(Seq<char>, Seq<char>)>,
    total_size: int,
    plan: &MemoryPlan,
    f: &PlanFigures,
)
    ensures
        ("# Memory Plan\n"@ + "\n"@ + "- Model: "@ + c.architecture@ + " ("@ + c.model_type@ + ")\n"@
            + "- Layers: "@ + int_text(c.num_layers as int) + " ("@ + int_text(
            c.full_attention_layers as int,
        ) + " full attention, "@ + int_text(c.linear_attention_layers as int)
            + " linear attention)\n"@).is_prefix_of(plan_markdown(c, es, total_size, plan, f)),
        contains_run(
            plan_markdown(c, es, total_size, plan, f),
            "- Layers: "@ + int_text(c.num_layers as int) + " ("@ + int_text(
                c.full_attention_layers as int,
            ) + " full attention, "@ + int_text(c.linear_attention_layers as int)
                + " linear attention)\n"@,
        ),
{
    let head = "# Memory Plan\n"@ + "\n"@ + "- Model: "@ + c.architecture@ + " ("@ + c.model_type@
        + ")\n"@;
    let layers = "- Layers: "@ + int_text(c.num_layers as int) + " ("@ + int_text(
        c.full_attention_layers as int,
    ) + " full attention, "@ + int_text(c.linear_attention_layers as int)
        + " linear attention)\n"@;
    let p = head + "- Layers: "@ + int_text(c.num_layers as int) + " ("@ + int_text(
        c.full_attention_layers as int,
    ) + " full attention, "@ + int_text(c.linear_attention_layers as int)
        + " linear attention)\n"@;
    let s = plan_markdown(c, es, total_size, plan, f);
    assert forall|x: Seq<char>, y: Seq<char>| p.is_prefix_of(x) implies #[trigger] p.is_prefix_of(
        x + y,
    ) by {
        lemma_prefix_grows(p, x, y);
    }
    assert(p.is_prefix_of(p)) by {
        assert(p.subrange(0, p.len() as int) =~= p);
    }
    assert(p.is_prefix_of(s));
    assert(p =~= head + layers);
    assert(s.subrange(head.len() as int, head.len() as int + layers.len()) =~= p.subrange(
        head.len() as int,
        head.len() as int + layers.len(),
    ));
    assert(s.subrange(head.len() as int, head.len() as int + layers.len()) =~= layers);
}

proof fn lemma_prefix_grows(p: Seq<char>, x: Seq<char>, y: Seq<char>)
    requires
        p.is_prefix_of(x),
    ensures
        p.is_prefix_of(x + y),
{
    assert((x + y).subrange(0, p.len() as int) =~= x.subrange(0, p.len() as int));
}

proof fn lemma_run_inside(a: Seq<char>, b: Seq<char>, c: Seq<char>)
    ensures
        contains_run(a + b + c, b),
{
    assert((a + b + c).subrange(a.len() as int, a.len() as int + b.len()) =~= b);
}

/// Each line of the configuration summary shows the field its label names:
/// the text holds `Layers:` with the layer count, `Full attention:` with
/// the full-attention count, `Linear attention:` with the linear-attention
/// count, and so on for every field.
pub proof fn law_config_report_shows_each_field(c: &ModelConfig)
    ensures
        contains_run(config_report(c), "Architecture:          "@ + c.architecture@ + "\n"@),
        contains_run(config_report(c), "Model type:            "@ + c.model_type@ + "\n"@),
        contains_run(
            config_report(c),
            "Hidden size:           "@ + int_text(c.hidden_size as int) + "\n"@,
        ),
        contains_run(config_report(c), "Layers:                "@ + int_text(c.num_layers as int) + "\n"@),
        contains_run(
            config_report(c),
            "  Full attention:      "@ + int_text(c.full_attention_layers as int) + "\n"@,
        ),
        contains_run(
            config_report(c),
            "  Linear attention:    "@ + int_text(c.linear_attention_layers as int) + "\n"@,
        ),
        contains_run(
            config_report(c),
            "Attention heads:       "@ + int_text(c.num_attention_heads as int) + " (kv: "@
                + int_text(c.num_key_value_heads as int) + ")"@ + "\n"@,
        ),
        contains_run(config_report(c), "Head dim:              "@ + int_text(c.head_dim as int) + "\n"@),
        contains_run(
            config_report(c),
            "Intermediate size:     "@ + int_text(c.intermediate_size as int) + "\n"@,
        ),
        contains_run(
            config_report(c),
            "Vocab size:            "@ + int_text(c.vocab_size as int) + "\n"@,
        ),
        contains_run(
            config_report(c),
            "Max position:          "@ + int_text(c.max_position_embeddings as int) + "\n"@,
        ),
        contains_run(
            config_report(c),
            "MTP layers:            "@ + int_text(c.mtp_layers as int) + "\n"@,
        ),
        c.tie_word_embeddings ==> contains_run(
            config_report(c),
            "Tie word embeddings:   "@ + "true"@ + "\n"@,
        ),
        !c.tie_word_embeddings ==> contains_run(
            config_report(c),
            "Tie word embeddings:   "@ + "false"@ + "\n"@,
        ),
        contains_run(config_report(c), "Declared dtype:        "@ + c.declared_dtype@ + "\n"@),
        c.has_vision ==> contains_run(config_report(c), "Vision tower:          "@ + "yes"@ + "\n"@),
        !c.has_vision ==> contains_run(config_report(c), "Vision tower:          "@ + "no"@ + "\n"@),
{
    reveal_strlit("\n");
    assert("\n"@ =~= seq!['\n']);
    lemma_config_line_0(c);
    lemma_config_line_1(c);
    lemma_config_line_2(c);
    lemma_config_line_3(c);
    lemma_config_line_4(c);
    lemma_config_line_5(c);
    lemma_config_line_6(c);
    assert("Attention heads:       "@ + int_text(c.num_attention_heads as int) + " (kv: "@ + int_text(
        c.num_key_value_heads as int,
    ) + ")"@ + "\n"@ =~= config_lines(c)[6]);
    lemma_config_line_7(c);
    lemma_config_line_8(c);
    lemma_config_line_9(c);
    lemma_config_line_10(c);
    lemma_config_line_11(c);
    lemma_config_line_12(c);
    lemma_config_line_13(c);
    lemma_config_line_14(c);
}

/// The lines of the configuration summary, in order.
pub open spec fn config_lines(c: &ModelConfig) -> Seq<Seq<char>> {
    seq![
        report_line("Architecture:          "@, c.architecture@),
        report_line("Model type:            "@, c.model_type@),
        report_line("Hidden size:           "@, int_text(c.hidden_size as int)),
        report_line("Layers:                "@, int_text(c.num_layers as int)),
        report_line("  Full attention:      "@, int_text(c.full_attention_layers as int)),
        report_line("  Linear attention:    "@, int_text(c.linear_attention_layers as int)),
        report_line(
            "Attention heads:       "@,
            int_text(c.num_attention_heads as int) + " (kv: "@ + int_text(c.num_key_value_heads as int)
                + ")"@,
        ),
        report_line("Head dim:              "@, int_text(c.head_dim as int)),
        report_line("Intermediate size:     "@, int_text(c.intermediate_size as int)),
        report_line("Vocab size:            "@, int_text(c.vocab_size as int)),
        report_line("Max position:          "@, int_text(c.max_position_embeddings as int)),
        report_line("MTP layers:            "@, int_text(c.mtp_layers as int)),
        report_line("Tie word embeddings:   "@, bool_text(c.tie_word_embeddings)),
        report_line("Declared dtype:        "@, c.declared_dtype@),
        report_line(
            "Vision tower:          "@,
            if c.has_vision {
                "yes"@
            } else {
                "no"@
            },
        ),
    ]
}

proof fn lemma_config_line_0(c: &ModelConfig)
    ensures
        contains_run(config_report(c), config_lines(c)[0]),
{
    let ls = config_lines(c);
    assert(config_report(c) =~= (Seq::<char>::empty()) + ls[0] + (ls[1] + ls[2] + ls[3] + ls[4] + ls[5] + ls[6] + ls[7] + ls[8] + ls[9] + ls[10] + ls[11] + ls[12] + ls[13] + ls[14]));
    lemma_run_inside(Seq::<char>::empty(), ls[0], ls[1] + ls[2] + ls[3] + ls[4] + ls[5] + ls[6] + ls[7] + ls[8] + ls[9] + ls[10] + ls[11] + ls[12] + ls[13] + ls[14]);
}

proof fn lemma_config_line_1(c: &ModelConfig)
    ensures
        contains_run(config_report(c), config_lines(c)[1]),
{
    let ls = config_lines(c);
    assert(config_report(c) =~= (ls[0]) + ls[1] + (ls[2] + ls[3] + ls[4] + ls[5] + ls[6] + ls[7] + ls[8] + ls[9] + ls[10] + ls[11] + ls[12] + ls[13] + ls[14]));
    lemma_run_inside(ls[0], ls[1], ls[2] + ls[3] + ls[4] + ls[5] + ls[6] + ls[7] + ls[8] + ls[9] + ls[10] + ls[11] + ls[12] + ls[13] + ls[14]);
}

proof fn lemma_config_line_2(c: &ModelConfig)
    ensures
        contains_run(config_report(c), config_lines(c)[2]),
{
    let ls = config_lines(c);
    assert(config_report(c) =~= (ls[0] + ls[1]) + ls[2] + (ls[3] + ls[4] + ls[5] + ls[6] + ls[7] + ls[8] + ls[9] + ls[10] + ls[11] + ls[12] + ls[13] + ls[14]));
    lemma_run_inside(ls[0] + ls[1], ls[2], ls[3] + ls[4] + ls[5] + ls[6] + ls[7] + ls[8] + ls[9] + ls[10] + ls[11] + ls[12] + ls[13] + ls[14]);
}

proof fn lemma_config_line_3(c: &ModelConfig)
    ensures
        contains_run(config_report(c), config_lines(c)[3]),
{
    let ls = config_lines(c);
    assert(config_report(c) =~= (ls[0] + ls[1] + ls[2]) + ls[3] + (ls[4] + ls[5] + ls[6] + ls[7] + ls[8] + ls[9] + ls[10] + ls[11] + ls[12] + ls[13] + ls[14]));
    lemma_run_inside(ls[0] + ls[1] + ls[2], ls[3], ls[4] + ls[5] + ls[6] + ls[7] + ls[8] + ls[9] + ls[10] + ls[11] + ls[12] + ls[13] + ls[14]);
}

proof fn lemma_config_line_4(c: &ModelConfig)
    ensures
        contains_run(config_report(c), config_lines(c)[4]),
{
    let ls = config_lines(c);
    assert(config_report(c) =~= (ls[0] + ls[1] + ls[2] + ls[3]) + ls[4] + (ls[5] + ls[6] + ls[7] + ls[8] + ls[9] + ls[10] + ls[11] + ls[12] + ls[13] + ls[14]));
    lemma_run_inside(ls[0] + ls[1] + ls[2] + ls[3], ls[4], ls[5] + ls[6] + ls[7] + ls[8] + ls[9] + ls[10] + ls[11] + ls[12] + ls[13] + ls[14]);
}

proof fn lemma_config_line_5(c: &ModelConfig)
    ensures
        contains_run(config_report(c), config_lines(c)[5]),
{
    let ls = config_lines(c);
    assert(config_report(c) =~= (ls[0] + ls[1] + ls[2] + ls[3] + ls[4]) + ls[5] + (ls[6] + ls[7] + ls[8] + ls[9] + ls[10] + ls[11] + ls[12] + ls[13] + ls[14]));
    lemma_run_inside(ls[0] + ls[1] + ls[2] + ls[3] + ls[4], ls[5], ls[6] + ls[7] + ls[8] + ls[9] + ls[10] + ls[11] + ls[12] + ls[13] + ls[14]);
}

proof fn lemma_config_line_6(c: &ModelConfig)
    ensures
        contains_run(config_report(c), config_lines(c)[6]),
{
    let ls = config_lines(c);
    assert(config_report(c) =~= (ls[0] + ls[1] + ls[2] + ls[3] + ls[4] + ls[5]) + ls[6] + (ls[7] + ls[8] + ls[9] + ls[10] + ls[11] + ls[12] + ls[13] + ls[14]));
    lemma_run_inside(ls[0] + ls[1] + ls[2] + ls[3] + ls[4] + ls[5], ls[6], ls[7] + ls[8] + ls[9] + ls[10] + ls[11] + ls[12] + ls[13] + ls[14]);
}

proof fn lemma_config_line_7(c: &ModelConfig)
    ensures
        contains_run(config_report(c), config_lines(c)[7]),
{
    let ls = config_lines(c);
    assert(config_report(c) =~= (ls[0] + ls[1] + ls[2] + ls[3] + ls[4] + ls[5] + ls[6]) + ls[7] + (ls[8] + ls[9] + ls[10] + ls[11] + ls[12] + ls[13] + ls[14]));
    lemma_run_inside(ls[0] + ls[1] + ls[2] + ls[3] + ls[4] + ls[5] + ls[6], ls[7], ls[8] + ls[9] + ls[10] + ls[11] + ls[12] + ls[13] + ls[14]);
}

proof fn lemma_config_line_8(c: &ModelConfig)
    ensures
        contains_run(config_report(c), config_lines(c)[8]),
{
    let ls = config_lines(c);
    assert(config_report(c) =~= (ls[0] + ls[1] + ls[2] + ls[3] + ls[4] + ls[5] + ls[6] + ls[7]) + ls[8] + (ls[9] + ls[10] + ls[11] + ls[12] + ls[13] + ls[14]));
    lemma_run_inside(ls[0] + ls[1] + ls[2] + ls[3] + ls[4] + ls[5] + ls[6] + ls[7], ls[8], ls[9] + ls[10] + ls[11] + ls[12] + ls[13] + ls[14]);
}

proof fn lemma_config_line_9(c: &ModelConfig)
    ensures
        contains_run(config_report(c), config_lines(c)[9]),
{
    let ls = config_lines(c);
    assert(config_report(c) =~= (ls[0] + ls[1] + ls[2] + ls[3] + ls[4] + ls[5] + ls[6] + ls[7] + ls[8]) + ls[9] + (ls[10] + ls[11] + ls[12] + ls[13] + ls[14]));
    lemma_run_inside(ls[0] + ls[1] + ls[2] + ls[3] + ls[4] + ls[5] + ls[6] + ls[7] + ls[8], ls[9], ls[10] + ls[11] + ls[12] + ls[13] + ls[14]);
}

proof fn lemma_config_line_10(c: &ModelConfig)
    ensures
        contains_run(config_report(c), config_lines(c)[10]),
{
    let ls = config_lines(c);
    assert(config_report(c) =~= (ls[0] + ls[1] + ls[2] + ls[3] + ls[4] + ls[5] + ls[6] + ls[7] + ls[8] + ls[9]) + ls[10] + (ls[11] + ls[12] + ls[13] + ls[14]));
    lemma_run_inside(ls[0] + ls[1] + ls[2] + ls[3] + ls[4] + ls[5] + ls[6] + ls[7] + ls[8] + ls[9], ls[10], ls[11] + ls[12] + ls[13] + ls[14]);
}

proof fn lemma_config_line_11(c: &ModelConfig)
    ensures
        contains_run(config_report(c), config_lines(c)[11]),
{
    let ls = config_lines(c);
    assert(config_report(c) =~= (ls[0] + ls[1] + ls[2] + ls[3] + ls[4] + ls[5] + ls[6] + ls[7] + ls[8] + ls[9] + ls[10]) + ls[11] + (ls[12] + ls[13] + ls[14]));
    lemma_run_inside(ls[0] + ls[1] + ls[2] + ls[3] + ls[4] + ls[5] + ls[6] + ls[7] + ls[8] + ls[9] + ls[10], ls[11], ls[12] + ls[13] + ls[14]);
}

proof fn lemma_config_line_12(c: &ModelConfig)
    ensures
        contains_run(config_report(c), config_lines(c)[12]),
{
    let ls = config_lines(c);
    assert(config_report(c) =~= (ls[0] + ls[1] + ls[2] + ls[3] + ls[4] + ls[5] + ls[6] + ls[7] + ls[8] + ls[9] + ls[10] + ls[11]) + ls[12] + (ls[13] + ls[14]));
    lemma_run_inside(ls[0] + ls[1] + ls[2] + ls[3] + ls[4] + ls[5] + ls[6] + ls[7] + ls[8] + ls[9] + ls[10] + ls[11], ls[12], ls[13] + ls[14]);
}

proof fn lemma_config_line_13(c: &ModelConfig)
    ensures
        contains_run(config_report(c), config_lines(c)[13]),
{
    let ls = config_lines(c);
    assert(config_report(c) =~= (ls[0] + ls[1] + ls[2] + ls[3] + ls[4] + ls[5] + ls[6] + ls[7] + ls[8] + ls[9] + ls[10] + ls[11] + ls[12]) + ls[13] + (ls[14]));
    lemma_run_inside(ls[0] + ls[1] + ls[2] + ls[3] + ls[4] + ls[5] + ls[6] + ls[7] + ls[8] + ls[9] + ls[10] + ls[11] + ls[12], ls[13], ls[14]);
}

proof fn lemma_config_line_14(c: &ModelConfig)
    ensures
        contains_run(config_report(c), config_lines(c)[14]),
{
    let ls = config_lines(c);
    assert(config_report(c) =~= (ls[0] + ls[1] + ls[2] + ls[3] + ls[4] + ls[5] + ls[6] + ls[7] + ls[8] + ls[9] + ls[10] + ls[11] + ls[12] + ls[13]) + ls[14] + (Seq::<char>::empty()));
    lemma_run_inside(ls[0] + ls[1] + ls[2] + ls[3] + ls[4] + ls[5] + ls[6] + ls[7] + ls[8] + ls[9] + ls[10] + ls[11] + ls[12] + ls[13], ls[14], Seq::<char>::empty());
}

} // verus!
