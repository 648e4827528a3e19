use atlas::embedding::{run_embedding, EmbeddingService, MockEmbeddingService};
use atlas::model::{ChunkKind, ChunkSpan, CodeChunk, FileLanguage, ParseResult, SourceFile};
use atlas::store_file::FileContent;
use atlas::vector_store::{EmbeddingVector, InMemoryVectorStore, VdbError, VdbResult};

/// Vectors of a fixed dimension that depend on the text alone.
struct TestService {
    inner: MockEmbeddingService,
    fails_on: Option<&'static str>,
}

fn vector(text: &str, dimension: usize) -> Vec<f32> {
    let mut state: u64 = 1469598103934665603;
    for b in text.bytes() {
        state = (state ^ b as u64).wrapping_mul(1099511628211);
    }
    let raw: Vec<f32> = (0..dimension)
        .map(|_| {
            state = state.wrapping_mul(6364136223846793005).wrapping_add(1442695040888963407);
            (state >> 40) as f32 / 8388608.0 - 1.0
        })
        .collect();
    let norm = raw.iter().map(|x| x * x).sum::<f32>().sqrt();
    raw.iter().map(|x| x / norm).collect()
}

fn bits(v: &[f32]) -> Vec<u32> {
    v.iter().map(|x| x.to_bits()).collect()
}

impl EmbeddingService for TestService {
    fn embed(&self, texts: &Vec<String>) -> VdbResult<Vec<Vec<u32>>> {
        if texts.iter().any(|t| self.fails_on == Some(t.as_str())) {
            return Err(VdbError::invalid_input("no vector"));
        }
        Ok(texts.iter().map(|t| bits(&vector(t, self.inner.dimension()))).collect())
    }

    fn dimension(&self) -> usize {
        self.inner.dimension()
    }
}

fn service(dimension: usize) -> TestService {
    TestService { inner: MockEmbeddingService::new(dimension), fails_on: None }
}

fn embed(texts: &[&str], dimension: usize) -> Vec<Vec<u32>> {
    service(dimension).embed(&texts.iter().map(|t| t.to_string()).collect()).unwrap()
}

fn store_of(texts: &[&str]) -> InMemoryVectorStore {
    let mut store = InMemoryVectorStore::new();
    let vectors = embed(texts, 32)
        .into_iter()
        .enumerate()
        .map(|(i, v)| EmbeddingVector::new(&format!("chunk_{}", i), v))
        .collect();
    store.add(vectors).unwrap();
    store
}

fn search(
    store: &InMemoryVectorStore,
    query: &[u32],
    top_k: usize,
    min_score: Option<f32>,
) -> Vec<(String, f32)> {
    let float = |v: &[u32]| v.iter().map(|b| f32::from_bits(*b)).collect::<Vec<f32>>();
    let q = float(query);
    let scores: Vec<u32> = store
        .vectors()
        .iter()
        .map(|v| float(&v.vector).iter().zip(&q).map(|(x, y)| x * y).sum::<f32>().to_bits())
        .collect();
    store
        .search(query.len(), false, &scores, top_k, min_score.map(|m| m.to_bits()))
        .unwrap()
        .into_iter()
        .map(|(id, s)| (id, f32::from_bits(s)))
        .collect()
}

fn parsed(texts: &[&str]) -> Vec<ParseResult> {
    let file = SourceFile::new("a.rs", &texts.concat());
    let chunks = texts
        .iter()
        .enumerate()
        .map(|(i, t)| CodeChunk {
            id: format!("chunk_{}", i),
            file_path: "a.rs".to_string(),
            language: FileLanguage::Rust,
            kind: ChunkKind::Function,
            symbol_name: None,
            span: ChunkSpan::new(0, t.len(), i, i),
            source_text: t.to_string(),
        })
        .collect();
    vec![ParseResult::success(file, chunks)]
}

#[test]
fn test_vector_store_write_and_read() {
    let store = store_of(&["fn main() { }", "pub fn hello() { }", "fn helper() { }"]);
    assert_eq!(store.len(), 3);
    for i in 0..3 {
        let found = store.find(&format!("chunk_{}", i));
        assert!(found.is_some());
        assert_eq!(found.unwrap().vector.len(), 32);
    }
}

#[test]
fn test_vector_store_persistence_and_reload() {
    let store = store_of(&["fn main() { }", "pub fn hello() { }"]);
    let bytes = store.encode();
    let loaded = InMemoryVectorStore::load("test.vdb", FileContent::Bytes(bytes)).unwrap();
    assert_eq!(loaded.len(), 2);
    for i in 0..2 {
        let original = store.find(&format!("chunk_{}", i)).unwrap();
        let reloaded = loaded.find(&format!("chunk_{}", i)).unwrap();
        assert_eq!(original.vector, reloaded.vector);
        assert_eq!(original.chunk_id, reloaded.chunk_id);
    }
}

#[test]
fn test_top_k_search_correctness() {
    let store = store_of(&["alpha function", "beta method", "gamma trait"]);
    let query = embed(&["alpha function"], 32);
    let results = search(&store, &query[0], 2, None);
    assert_eq!(results.len(), 2);
    assert!(results[0].1 >= results[1].1);
    assert_eq!(results[0].0, "chunk_0");
}

#[test]
fn test_top_k_search_with_min_score() {
    let store = store_of(&["alpha function", "beta method", "gamma trait"]);
    let query = embed(&["alpha function"], 32);
    let results = search(&store, &query[0], 10, Some(0.99));
    for (_, score) in &results {
        assert!(*score >= 0.99, "Score {} below min_score 0.99", score);
    }
    let all_results = search(&store, &query[0], 10, None);
    assert!(results.len() <= all_results.len());
}

#[test]
fn test_embedding_batch_size_respected() {
    let files = parsed(&["fn a() {}", "fn b() {}", "fn c() {}"]);
    for batch_size in [1, 2, 5, 10, 32, 100] {
        let run = run_embedding(Some(&service(32)), &files, 3, batch_size);
        assert_eq!(run.errors, 0, "batch_size={} had errors", batch_size);
        assert_eq!(run.embedded, 3, "batch_size={} embedded count mismatch", batch_size);
        assert!(run.worth_saving());
        assert_eq!(run.store.len(), 3);
        assert_eq!(run.dimension, 32);
    }
}

#[test]
fn embedding_nothing_gives_nothing() {
    let run = run_embedding(Some(&service(32)), &vec![], 0, 32);
    assert_eq!((run.embedded, run.errors), (0, 0));
    assert!(!run.worth_saving());
}

#[test]
fn without_a_service_every_chunk_fails() {
    let files = parsed(&["fn a() {}", "fn b() {}"]);
    let none: Option<&TestService> = None;
    let run = run_embedding(none, &files, 2, 32);
    assert_eq!((run.embedded, run.errors, run.dimension), (0, 2, 0));
}

#[test]
fn a_batch_that_fails_fails_as_a_whole() {
    let files = parsed(&["one", "two", "three", "four", "five"]);
    let failing =
        TestService { inner: MockEmbeddingService::new(4), fails_on: Some("three") };
    let run = run_embedding(Some(&failing), &files, 5, 2);
    assert_eq!((run.embedded, run.errors), (3, 2));
    assert!(run.store.find("chunk_1").is_some());
    assert!(run.store.find("chunk_3").is_none());
    assert!(run.store.find("chunk_4").is_some());
}
