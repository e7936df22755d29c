//! Target precisions for weight storage and the parsing of a
//! comma-separated precision list such as `bf16,int8,int4`.

use vstd::prelude::*;

use crate::text::{
    ascii_lower, chars_eq_ignore_ascii_case_str, chars_of, chars_trim, eq_ignore_ascii_case, pieces,
    split_chars, split_on, string_from_chars, trim,
};

verus! {

/// A storage precision for model weights.
#[derive(Debug, Clone, Copy, PartialEq, Eq, Structural, Hash)]
pub enum Precision {
    Bf16,
    Fp16,
    Int8,
    Int4,
}

/// The name under which a precision is written on the command line.
pub open spec fn precision_name(p: Precision) -> Seq<char> {
    match p {
        Precision::Bf16 => "bf16"@,
        Precision::Fp16 => "fp16"@,
        Precision::Int8 => "int8"@,
        Precision::Int4 => "int4"@,
    }
}

/// The precision whose name matches `s` up to ASCII case, if any; the
/// names are tried in declaration order.
pub open spec fn precision_named(s: Seq<char>) -> Option<Precision> {
    if eq_ignore_ascii_case(s, "bf16"@) {
        Some(Precision::Bf16)
    } else if eq_ignore_ascii_case(s, "fp16"@) {
        Some(Precision::Fp16)
    } else if eq_ignore_ascii_case(s, "int8"@) {
        Some(Precision::Int8)
    } else if eq_ignore_ascii_case(s, "int4"@) {
        Some(Precision::Int4)
    } else {
        None
    }
}

/// Reads each (already trimmed) item as a precision, in order; fails with
/// the first item that names none.
pub open spec fn precisions_named(items: Seq<Seq<char>>) -> Result<Seq<Precision>, Seq<char>>
    decreases items.len(),
{
    if items.len() == 0 {
        Ok(Seq::empty())
    } else {
        match precisions_named(items.drop_last()) {
            Err(e) => Err(e),
            Ok(ps) => match precision_named(items.last()) {
                None => Err(items.last()),
                Some(p) => Ok(ps.push(p)),
            },
        }
    }
}

/// The items of a comma-separated list, each with surrounding whitespace
/// removed.
pub open spec fn list_items(spec: Seq<char>) -> Seq<Seq<char>> {
    split_on(spec, ',').map_values(|part: Seq<char>| trim(part))
}

/// What parsing a precision list gives: the precisions in order, or the
/// first item (trimmed) that names no precision.
pub open spec fn parsed_precisions(spec: Seq<char>) -> Result<Seq<Precision>, Seq<char>> {
    precisions_named(list_items(spec))
}

/// An item of a precision list that names no precision.
#[derive(Debug, PartialEq, Eq)]
pub struct PrecisionError {
    /// The offending item, with surrounding whitespace removed.
    pub item: String,
}

fn precision_from_name(s: &[char]) -> (r: Option<Precision>)
    ensures
        r == precision_named(s@),
{
    if chars_eq_ignore_ascii_case_str(s, "bf16") {
        Some(Precision::Bf16)
    } else if chars_eq_ignore_ascii_case_str(s, "fp16") {
        Some(Precision::Fp16)
    } else if chars_eq_ignore_ascii_case_str(s, "int8") {
        Some(Precision::Int8)
    } else if chars_eq_ignore_ascii_case_str(s, "int4") {
        Some(Precision::Int4)
    } else {
        None
    }
}

/// Once a prefix of the items fails, every longer prefix fails the same way.
proof fn lemma_precisions_named_err_persists(items: Seq<Seq<char>>, k: int, j: int, e: Seq<char>)
    requires
        0 <= k <= j <= items.len(),
        precisions_named(items.take(k)) == Err::<Seq<Precision>, Seq<char>>(e),
    ensures
        precisions_named(items.take(j)) == Err::<Seq<Precision>, Seq<char>>(e),
    decreases j - k,
{
    if j > k {
        lemma_precisions_named_err_persists(items, k, j - 1, e);
        assert(items.take(j).drop_last() =~= items.take(j - 1));
    }
}

/// Parses a comma-separated list of precision names such as
/// `bf16,int8,int4`; each item may carry surrounding whitespace and is
/// matched ignoring ASCII case.
pub fn parse_precisions(spec: &str) -> (r: Result<Vec<Precision>, PrecisionError>)
    ensures
        r matches Ok(ps) ==> parsed_precisions(spec@) == Ok::<Seq<Precision>, Seq<char>>(ps@),
        r matches Err(e) ==> parsed_precisions(spec@) == Err::<Seq<Precision>, Seq<char>>(e.item@),
{
    let cs = chars_of(spec);
    let parts = split_chars(cs.as_slice(), ',');
    let ghost items = list_items(spec@);
    assert(items.len() == parts@.len());
    let mut out: Vec<Precision> = Vec::new();
    let mut i: usize = 0;
    assert(items.take(0) =~= Seq::<Seq<char>>::empty());
    while i < parts.len()
        invariant
            i <= parts@.len(),
            items == list_items(spec@),
            pieces(parts@) == split_on(spec@, ','),
            items.len() == parts@.len(),
            precisions_named(items.take(i as int)) == Ok::<Seq<Precision>, Seq<char>>(out@),
        decreases parts@.len() - i,
    {
        let item = chars_trim(parts[i].as_slice());
        assert(pieces(parts@)[i as int] == parts@[i as int]@);
        assert(item@ == items[i as int]);
        assert(items.take(i + 1).drop_last() =~= items.take(i as int));
        assert(items.take(i + 1).last() == items[i as int]);
        match precision_from_name(item.as_slice()) {
            Some(p) => {
                out.push(p);
            },
            None => {
                proof {
                    lemma_precisions_named_err_persists(items, i + 1, items.len() as int, items[i as int]);
                    assert(items.take(items.len() as int) =~= items);
                }
                return Err(PrecisionError { item: string_from_chars(&item) });
            },
        }
        i = i + 1;
    }
    assert(items.take(parts@.len() as int) =~= items);
    Ok(out)
}


/// Every precision's own name reads back as that precision.
pub proof fn law_precision_name_round_trip(p: Precision)
    ensures
        precision_named(precision_name(p)) == Some(p),
{
    reveal_strlit("bf16");
    reveal_strlit("fp16");
    reveal_strlit("int8");
    reveal_strlit("int4");
    let bf = "bf16"@;
    let fp = "fp16"@;
    let i8 = "int8"@;
    let i4 = "int4"@;
    assert(eq_ignore_ascii_case(precision_name(p), precision_name(p)));
    assert(!eq_ignore_ascii_case(fp, bf)) by {
        assert(ascii_lower(fp[0]) != ascii_lower(bf[0]));
    }
    assert(!eq_ignore_ascii_case(i8, bf)) by {
        assert(ascii_lower(i8[0]) != ascii_lower(bf[0]));
    }
    assert(!eq_ignore_ascii_case(i8, fp)) by {
        assert(ascii_lower(i8[0]) != ascii_lower(fp[0]));
    }
    assert(!eq_ignore_ascii_case(i4, bf)) by {
        assert(ascii_lower(i4[0]) != ascii_lower(bf[0]));
    }
    assert(!eq_ignore_ascii_case(i4, fp)) by {
        assert(ascii_lower(i4[0]) != ascii_lower(fp[0]));
    }
    assert(!eq_ignore_ascii_case(i4, i8)) by {
        assert(ascii_lower(i4[3]) != ascii_lower(i8[3]));
    }
}

} // verus!
