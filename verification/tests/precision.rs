use llm_local_infra_lab::precision::{parse_precisions, Precision};

#[test]
fn parses_default_list() {
    assert_eq!(
        parse_precisions("bf16,int8,int4").unwrap(),
        vec![Precision::Bf16, Precision::Int8, Precision::Int4]
    );
}

#[test]
fn parsing_ignores_case_and_whitespace() {
    assert_eq!(
        parse_precisions(" BF16 ,\tFp16, int8\n,INT4").unwrap(),
        vec![Precision::Bf16, Precision::Fp16, Precision::Int8, Precision::Int4]
    );
    assert_eq!(parse_precisions("\u{3000}int4\u{a0}").unwrap(), vec![Precision::Int4]);
}

#[test]
fn first_bad_item_is_reported_trimmed() {
    let err = parse_precisions("bf16, fp8 ,int9").unwrap_err();
    assert_eq!(err.item, "fp8");
    assert_eq!(parse_precisions("").unwrap_err().item, "");
    assert_eq!(parse_precisions("int8,,int4").unwrap_err().item, "");
    assert_eq!(parse_precisions("bf16,").unwrap_err().item, "");
}

#[test]
fn trimming_follows_char_is_whitespace() {
    for code in 0u32..0x3100 {
        let Some(c) = char::from_u32(code) else { continue };
        let spec = format!("{c}int8{c}");
        let parsed = parse_precisions(&spec);
        assert_eq!(parsed.is_ok(), c.is_whitespace(), "{:?}", c);
    }
}

#[test]
fn every_name_reads_back() {
    for (name, p) in [
        ("bf16", Precision::Bf16),
        ("fp16", Precision::Fp16),
        ("int8", Precision::Int8),
        ("int4", Precision::Int4),
    ] {
        assert_eq!(parse_precisions(name).unwrap(), vec![p]);
    }
}
