use llm_local_infra_lab::safetensors_index::{IndexError, SafetensorsIndex};

fn pair(name: &str, shard: &str) -> (String, String) {
    (name.to_string(), shard.to_string())
}

#[test]
fn total_size_must_be_positive() {
    assert!(matches!(
        SafetensorsIndex::from_entries(vec![pair("a", "s")], 0),
        Err(IndexError::NonPositiveTotalSize)
    ));
    assert!(matches!(
        SafetensorsIndex::from_entries(Vec::new(), -5),
        Err(IndexError::NonPositiveTotalSize)
    ));
    let index = SafetensorsIndex::from_entries(Vec::new(), 100).unwrap();
    assert_eq!(index.total_size(), 100);
    assert_eq!(index.tensor_count(), 0);
    assert_eq!(index.shard_count(), 0);
}

#[test]
fn entries_are_kept_sorted_and_unique() {
    let index = SafetensorsIndex::from_entries(
        vec![
            pair("b", "s2"),
            pair("a", "s1"),
            pair("c", "s1"),
            pair("b", "s3"),
            pair("ab", "s1"),
        ],
        7,
    )
    .unwrap();
    assert_eq!(index.tensor_count(), 4);
    assert_eq!(
        index.weight_map(),
        &vec![pair("a", "s1"), pair("ab", "s1"), pair("b", "s3"), pair("c", "s1")]
    );
}

#[test]
fn order_is_by_characters() {
    let index = SafetensorsIndex::from_entries(
        vec![pair("é", "x"), pair("z", "x"), pair("Z", "x"), pair("", "x")],
        1,
    )
    .unwrap();
    let names: Vec<&str> = index.weight_map().iter().map(|(n, _)| n.as_str()).collect();
    assert_eq!(names, vec!["", "Z", "z", "é"]);
}

#[test]
fn shard_counts_per_file() {
    let index = SafetensorsIndex::from_entries(
        vec![
            pair("t1", "model-00002.safetensors"),
            pair("t2", "model-00001.safetensors"),
            pair("t3", "model-00002.safetensors"),
            pair("t4", "model-00002.safetensors"),
        ],
        1000,
    )
    .unwrap();
    assert_eq!(index.shard_count(), 2);
    assert_eq!(
        index.shard_tensor_counts(),
        vec![
            ("model-00001.safetensors".to_string(), 1),
            ("model-00002.safetensors".to_string(), 3)
        ]
    );
}

#[test]
fn shard_table_covers_every_tensor() {
    let index = SafetensorsIndex::from_entries(
        vec![pair("a", "x"), pair("b", "y"), pair("c", "x"), pair("d", "z"), pair("e", "x")],
        5,
    )
    .unwrap();
    let table = index.shard_tensor_counts();
    let total: usize = table.iter().map(|(_, c)| *c).sum();
    assert_eq!(total, index.tensor_count());
    assert!(index.shard_count() <= index.tensor_count());
    assert_eq!(index.shard_count(), table.len());
}
