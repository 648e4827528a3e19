use atlas::store_file::FileContent;
use atlas::vector_store::{
    EmbeddingVector, InMemoryVectorStore, VdbError, VdbErrorKind, VdbResult,
};

fn bits(values: &[f32]) -> Vec<u32> {
    values.iter().map(|x| x.to_bits()).collect()
}

fn floats(bits: &[u32]) -> Vec<f32> {
    bits.iter().map(|b| f32::from_bits(*b)).collect()
}

fn make_vector(id: &str, values: Vec<f32>) -> EmbeddingVector {
    EmbeddingVector::new(id, bits(&values))
}

fn norm(v: &[f32]) -> f32 {
    v.iter().map(|x| x * x).sum::<f32>().sqrt()
}

fn cosine(a: &[f32], b: &[f32]) -> f32 {
    let dot: f32 = a.iter().zip(b.iter()).map(|(x, y)| x * y).sum();
    if norm(a) == 0.0 || norm(b) == 0.0 {
        return 0.0;
    }
    dot / (norm(a) * norm(b))
}

fn search(
    store: &InMemoryVectorStore,
    query: &[f32],
    top_k: usize,
    min_score: Option<f32>,
) -> VdbResult<Vec<(String, f32)>> {
    let scores: Vec<u32> = if store.check_query(query.len(), top_k)? {
        store.vectors().iter().map(|v| cosine(query, &floats(&v.vector)).to_bits()).collect()
    } else {
        Vec::new()
    };
    let hits = store.search(
        query.len(),
        norm(query) == 0.0,
        &scores,
        top_k,
        min_score.map(|m| m.to_bits()),
    )?;
    Ok(hits.into_iter().map(|(id, s)| (id, f32::from_bits(s))).collect())
}

#[test]
fn test_add_and_len() {
    let mut store = InMemoryVectorStore::new();
    assert!(store.is_empty());
    assert_eq!(store.len(), 0);

    store
        .add(vec![make_vector("c1", vec![1.0, 0.0, 0.0])])
        .unwrap();
    assert_eq!(store.len(), 1);
    assert!(!store.is_empty());

    store
        .add(vec![
            make_vector("c2", vec![0.0, 1.0, 0.0]),
            make_vector("c3", vec![0.0, 0.0, 1.0]),
        ])
        .unwrap();
    assert_eq!(store.len(), 3);
}

#[test]
fn test_add_dimension_mismatch() {
    let mut store = InMemoryVectorStore::new();
    store.add(vec![make_vector("c1", vec![1.0, 0.0])]).unwrap();

    let result = store.add(vec![make_vector("c2", vec![1.0, 0.0, 0.0])]);
    assert!(result.is_err());
}

#[test]
fn test_add_upsert_by_chunk_id() {
    let mut store = InMemoryVectorStore::new();
    store.add(vec![make_vector("c1", vec![1.0, 0.0])]).unwrap();
    assert_eq!(store.len(), 1);

    store.add(vec![make_vector("c1", vec![0.0, 1.0])]).unwrap();
    assert_eq!(store.len(), 1);

    let found = store.find("c1").unwrap();
    assert_eq!(floats(&found.vector), vec![0.0, 1.0]);
}

#[test]
fn test_find() {
    let mut store = InMemoryVectorStore::new();
    store
        .add(vec![make_vector("c1", vec![1.0, 0.0]), make_vector("c2", vec![0.0, 1.0])])
        .unwrap();

    assert!(store.find("c1").is_some());
    assert!(store.find("c2").is_some());
    assert!(store.find("c3").is_none());

    let found = store.find("c1").unwrap();
    assert_eq!(found.chunk_id, "c1");
    assert_eq!(floats(&found.vector), vec![1.0, 0.0]);
}

#[test]
fn store_test_clear() {
    let mut store = InMemoryVectorStore::new();
    store
        .add(vec![make_vector("c1", vec![1.0, 0.0]), make_vector("c2", vec![0.0, 1.0])])
        .unwrap();
    assert_eq!(store.len(), 2);

    store.clear();
    assert!(store.is_empty());
    assert_eq!(store.len(), 0);
    assert_eq!(store.dimension(), 0);
}

#[test]
fn test_search_top_k() {
    let mut store = InMemoryVectorStore::new();
    store
        .add(vec![
            make_vector("c1", vec![1.0, 0.0, 0.0]),
            make_vector("c2", vec![0.0, 1.0, 0.0]),
            make_vector("c3", vec![0.9, 0.1, 0.0]),
        ])
        .unwrap();

    let results = search(&store, &[1.0, 0.0, 0.0], 2, None).unwrap();
    assert_eq!(results.len(), 2);
    assert_eq!(results[0].0, "c1");
    assert!(results[0].1 > results[1].1);
}

#[test]
fn test_search_empty_store() {
    let store = InMemoryVectorStore::new();
    let results = search(&store, &[1.0, 0.0], 5, None).unwrap();
    assert!(results.is_empty());
}

#[test]
fn test_search_query_dimension_mismatch() {
    let mut store = InMemoryVectorStore::new();
    store.add(vec![make_vector("c1", vec![1.0, 0.0])]).unwrap();

    let result = search(&store, &[1.0, 0.0, 0.0], 5, None);
    assert!(result.is_err());
}

#[test]
fn test_search_min_score_filter() {
    let mut store = InMemoryVectorStore::new();
    store
        .add(vec![
            make_vector("c1", vec![1.0, 0.0, 0.0]),
            make_vector("c2", vec![0.0, 1.0, 0.0]),
            make_vector("c3", vec![0.9, 0.1, 0.0]),
        ])
        .unwrap();

    let results = search(&store, &[1.0, 0.0, 0.0], 10, Some(0.9)).unwrap();
    for (_, score) in &results {
        assert!(*score >= 0.9, "Score {} below threshold 0.9", score);
    }
}

#[test]
fn test_search_min_score_filters_all() {
    let mut store = InMemoryVectorStore::new();
    store
        .add(vec![
            make_vector("c1", vec![0.0, 1.0, 0.0]),
            make_vector("c2", vec![0.0, 0.0, 1.0]),
        ])
        .unwrap();

    let results = search(&store, &[1.0, 0.0, 0.0], 10, Some(0.5)).unwrap();
    assert!(results.is_empty());
}

#[test]
fn test_search_results_sorted_descending() {
    let mut store = InMemoryVectorStore::new();
    store
        .add(vec![
            make_vector("c1", vec![1.0, 0.0, 0.0]),
            make_vector("c2", vec![0.0, 1.0, 0.0]),
            make_vector(
                "c3",
                vec![std::f32::consts::FRAC_1_SQRT_2, std::f32::consts::FRAC_1_SQRT_2, 0.0],
            ),
        ])
        .unwrap();

    let results = search(&store, &[1.0, 0.0, 0.0], 10, None).unwrap();
    for i in 1..results.len() {
        assert!(
            results[i - 1].1 >= results[i].1,
            "Results not sorted descending: {} > {}",
            results[i - 1].1,
            results[i].1
        );
    }
}

#[test]
fn test_save_and_load_roundtrip() {
    let path = "test.vdb";

    let mut store = InMemoryVectorStore::new();
    store
        .add(vec![
            make_vector("c1", vec![1.0, 2.0, 3.0]),
            make_vector("c2", vec![4.0, 5.0, 6.0]),
            make_vector("c3", vec![7.0, 8.0, 9.0]),
        ])
        .unwrap();

    let bytes = store.encode();

    let loaded = InMemoryVectorStore::load(path, FileContent::Bytes(bytes)).unwrap();
    assert_eq!(loaded.len(), 3);
    assert_eq!(loaded.dimension(), 3);

    let v1 = loaded.find("c1").unwrap();
    assert_eq!(floats(&v1.vector), vec![1.0, 2.0, 3.0]);

    let v2 = loaded.find("c2").unwrap();
    assert_eq!(floats(&v2.vector), vec![4.0, 5.0, 6.0]);

    let v3 = loaded.find("c3").unwrap();
    assert_eq!(floats(&v3.vector), vec![7.0, 8.0, 9.0]);
}

#[test]
fn test_load_file_not_found() {
    let result = InMemoryVectorStore::load("/nonexistent/path/test.vdb", FileContent::Missing);
    assert!(result.is_err());
    let err = result.err().unwrap();
    assert!(err.message.contains("File not found"));
}

#[test]
fn test_load_invalid_format() {
    let path = "bad.vdb";

    let bytes = b"NOT_A_VALID_FILE".to_vec();

    let result = InMemoryVectorStore::load(path, FileContent::Bytes(bytes));
    assert!(result.is_err());
    let err = result.err().unwrap();
    assert!(err.message.contains("Invalid file format"));
}

#[test]
fn test_add_batch_preserves_order() {
    let mut store = InMemoryVectorStore::new();
    let vectors: Vec<EmbeddingVector> = (0..5)
        .map(|i| make_vector(&format!("c{}", i), vec![i as f32, 0.0, 0.0]))
        .collect();
    store.add(vectors).unwrap();
    assert_eq!(store.len(), 5);
    for i in 0..5 {
        let found = store.find(&format!("c{}", i)).unwrap();
        assert_eq!(floats(&found.vector), vec![i as f32, 0.0, 0.0]);
    }
}

#[test]
fn test_add_and_find_roundtrip() {
    let mut store = InMemoryVectorStore::new();
    let v1 = make_vector("chunk_a", vec![1.0, 2.0, 3.0]);
    let v2 = make_vector("chunk_b", vec![4.0, 5.0, 6.0]);
    store.add(vec![v1.clone(), v2.clone()]).unwrap();

    let found_a = store.find("chunk_a").unwrap();
    assert_eq!(found_a.chunk_id, "chunk_a");
    assert_eq!(floats(&found_a.vector), vec![1.0, 2.0, 3.0]);
    assert_eq!(found_a.dimension, 3);

    let found_b = store.find("chunk_b").unwrap();
    assert_eq!(found_b.chunk_id, "chunk_b");
    assert_eq!(floats(&found_b.vector), vec![4.0, 5.0, 6.0]);
}

#[test]
fn test_save_load_preserves_many_vectors() {
    let path = "many.vdb";

    let mut store = InMemoryVectorStore::new();
    let dim = 16;
    let count = 50;
    let mut vectors = Vec::with_capacity(count);
    for i in 0..count {
        let vals: Vec<f32> = (0..dim).map(|j| (i * dim + j) as f32 * 0.01).collect();
        vectors.push(make_vector(&format!("vec_{}", i), vals));
    }
    store.add(vectors).unwrap();
    assert_eq!(store.len(), count);

    let bytes = store.encode();
    let loaded = InMemoryVectorStore::load(path, FileContent::Bytes(bytes)).unwrap();
    assert_eq!(loaded.len(), count);
    assert_eq!(loaded.dimension(), dim);

    for i in 0..count {
        let found = loaded.find(&format!("vec_{}", i)).unwrap();
        let expected: Vec<f32> = (0..dim).map(|j| (i * dim + j) as f32 * 0.01).collect();
        assert_eq!(floats(&found.vector), expected);
    }
}

#[test]
fn test_save_load_with_unicode_chunk_id() {
    let path = "unicode.vdb";

    let mut store = InMemoryVectorStore::new();
    store
        .add(vec![
            make_vector("模块::函数", vec![1.0, 0.0]),
            make_vector("クラス::メソッド", vec![0.0, 1.0]),
        ])
        .unwrap();

    let bytes = store.encode();
    let loaded = InMemoryVectorStore::load(path, FileContent::Bytes(bytes)).unwrap();
    assert_eq!(loaded.len(), 2);
    assert!(loaded.find("模块::函数").is_some());
    assert!(loaded.find("クラス::メソッド").is_some());
}

#[test]
fn test_save_load_preserves_search_results() {
    let path = "search.vdb";

    let mut store = InMemoryVectorStore::new();
    store
        .add(vec![
            make_vector("c1", vec![1.0, 0.0, 0.0]),
            make_vector("c2", vec![0.0, 1.0, 0.0]),
            make_vector("c3", vec![0.9, 0.1, 0.0]),
        ])
        .unwrap();

    let before = search(&store, &[1.0, 0.0, 0.0], 3, None).unwrap();

    let bytes = store.encode();
    let loaded = InMemoryVectorStore::load(path, FileContent::Bytes(bytes)).unwrap();
    let after = search(&loaded, &[1.0, 0.0, 0.0], 3, None).unwrap();

    assert_eq!(before.len(), after.len());
    for (b, a) in before.iter().zip(after.iter()) {
        assert_eq!(b.0, a.0);
        assert!((b.1 - a.1).abs() < 1e-6);
    }
}

#[test]
fn test_search_top_k_fewer_than_total() {
    let mut store = InMemoryVectorStore::new();
    store
        .add(vec![
            make_vector("c1", vec![1.0, 0.0]),
            make_vector("c2", vec![0.9, 0.1]),
            make_vector("c3", vec![0.0, 1.0]),
            make_vector("c4", vec![0.1, 0.9]),
        ])
        .unwrap();

    let results = search(&store, &[1.0, 0.0], 2, None).unwrap();
    assert_eq!(results.len(), 2);
    assert_eq!(results[0].0, "c1");
}

#[test]
fn test_search_top_k_greater_than_total() {
    let mut store = InMemoryVectorStore::new();
    store
        .add(vec![make_vector("c1", vec![1.0, 0.0]), make_vector("c2", vec![0.0, 1.0])])
        .unwrap();

    let results = search(&store, &[1.0, 0.0], 10, None).unwrap();
    assert_eq!(results.len(), 2);
}

#[test]
fn test_search_top_k_zero() {
    let mut store = InMemoryVectorStore::new();
    store.add(vec![make_vector("c1", vec![1.0, 0.0])]).unwrap();
    let results = search(&store, &[1.0, 0.0], 0, None).unwrap();
    assert!(results.is_empty());
}

#[test]
fn test_with_capacity() {
    let store = InMemoryVectorStore::with_capacity(100);
    assert!(store.is_empty());
    assert_eq!(store.len(), 0);
    assert_eq!(store.dimension(), 0);
}

#[test]
fn test_add_vector_length_mismatch_with_dimension() {
    let mut store = InMemoryVectorStore::new();
    let bad_vector =
        EmbeddingVector { chunk_id: "c1".to_string(), vector: bits(&[1.0, 0.0]), dimension: 3 };
    let result = store.add(vec![bad_vector]);
    assert!(result.is_err());
}

fn two_vectors() -> Vec<u8> {
    let mut store = InMemoryVectorStore::new();
    store.add(vec![make_vector("c1", vec![1.0, 2.0]), make_vector("\u{4f60}", vec![3.0, 4.0])]).unwrap();
    store.encode()
}

#[test]
fn a_file_that_was_cut_off_is_refused() {
    let bytes = two_vectors();
    for n in 0..bytes.len() {
        let cut = bytes[..n].to_vec();
        let e = InMemoryVectorStore::load("a.vdb", FileContent::Bytes(cut)).err().unwrap();
        assert_eq!(e.kind, VdbErrorKind::Storage);
        assert!(e.message.starts_with("Failed to read "), "{}", e.message);
        assert_eq!(e.source.as_deref(), Some("failed to fill whole buffer"));
        assert_eq!(e.context.path.as_deref(), Some("a.vdb"));
        assert_eq!(e.context.operation, Some("load"));
    }
    assert_eq!(InMemoryVectorStore::load("a.vdb", FileContent::Bytes(bytes)).unwrap().len(), 2);
}

#[test]
fn a_file_of_another_format_or_version_is_refused() {
    let mut bytes = two_vectors();
    bytes[4] = 2;
    let e = InMemoryVectorStore::load("a.vdb", FileContent::Bytes(bytes.clone())).err().unwrap();
    assert_eq!(e.message, "Unsupported version: expected 1, got 2");
    assert!(e.source.is_none());
    bytes[0] = b'X';
    let e = InMemoryVectorStore::load("a.vdb", FileContent::Bytes(bytes)).err().unwrap();
    assert_eq!(e.message, "Invalid file format: expected magic \"ATVS\", got \"XTVS\"");
    assert!(e.source.is_none());
}

#[test]
fn an_identifier_that_is_no_text_is_refused() {
    let mut bytes = two_vectors();
    bytes[20] = 0xff;
    let e = InMemoryVectorStore::load("a.vdb", FileContent::Bytes(bytes)).err().unwrap();
    assert!(e.message.starts_with("Invalid chunk_id UTF-8: "));
    assert!(e.source.is_none());
}

#[test]
fn a_failure_names_its_cause() {
    let unreadable = FileContent::Unreadable("denied".to_string());
    let e = InMemoryVectorStore::load("a.vdb", unreadable).err().unwrap();
    assert_eq!(e.kind, VdbErrorKind::Io);
    assert_eq!(e.message, "Failed to open file: a.vdb");
    assert_eq!(e.source.as_deref(), Some("denied"));
    let e = InMemoryVectorStore::load("a.vdb", FileContent::Missing).err().unwrap();
    assert!(e.source.is_none());
    let e = VdbError::write_failed("Failed to flush file").with_source("disk full");
    assert_eq!(e.kind, VdbErrorKind::Io);
    assert!(e.context.path.is_none() && e.context.operation.is_none());
    assert_eq!(e.source.as_deref(), Some("disk full"));
}

#[test]
fn a_store_keeps_one_vector_for_a_chunk_and_one_dimension() {
    let mut store = InMemoryVectorStore::new();
    store
        .add(vec![
            make_vector("a", vec![1.0]),
            make_vector("b", vec![2.0]),
            make_vector("a", vec![3.0]),
        ])
        .unwrap();
    assert!(store.add(vec![make_vector("c", vec![4.0]), make_vector("d", vec![5.0, 6.0])]).is_err());
    let ids: Vec<&str> = store.vectors().iter().map(|v| v.chunk_id.as_str()).collect();
    assert_eq!(ids, vec!["a", "b", "c"]);
    assert!(store.vectors().iter().all(|v| v.dimension == store.dimension()));
    assert_eq!(floats(&store.find("a").unwrap().vector), vec![3.0]);
}

#[test]
fn a_file_that_breaks_off_names_the_reason() {
    let bytes = two_vectors();
    let broken = FileContent::Broken(bytes[..10].to_vec(), "disk failed".to_string());
    let e = InMemoryVectorStore::load("a.vdb", broken).err().unwrap();
    assert_eq!(e.message, "Failed to read count");
    assert_eq!(e.source.as_deref(), Some("disk failed"));
    let whole = FileContent::Broken(bytes, "disk failed".to_string());
    assert_eq!(InMemoryVectorStore::load("a.vdb", whole).unwrap().len(), 2);
}
