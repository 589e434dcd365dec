use celld::embedding::cache::{CachedTemplateEmbedding, TemplateEmbeddingCache};

fn entry(id: &str, version: &str, vectors: Vec<Vec<f32>>) -> CachedTemplateEmbedding<Vec<f32>> {
    CachedTemplateEmbedding { template_id: id.to_string(), model_version: version.to_string(), vectors }
}

#[test]
fn cached_vectors_come_back_for_their_model_version() {
    let mut cache: TemplateEmbeddingCache<Vec<f32>> = TemplateEmbeddingCache::default();
    assert!(cache.get("t1", "mock-v1").is_none());
    cache.insert(entry("t1", "mock-v1", vec![vec![1.0, 0.0], vec![0.0, 1.0]]));
    assert_eq!(cache.get("t1", "mock-v1").unwrap(), &[vec![1.0, 0.0], vec![0.0, 1.0]]);
    assert!(cache.get("t1", "onnx-v2").is_none());
    assert!(cache.get("t2", "mock-v1").is_none());
}

#[test]
fn a_new_entry_replaces_the_old_one_for_its_template_only() {
    let mut cache = TemplateEmbeddingCache::new();
    cache.insert(entry("t1", "v1", vec![vec![1.0]]));
    cache.insert(entry("t2", "v1", vec![vec![2.0]]));
    cache.insert(entry("t1", "v2", vec![vec![3.0]]));
    assert!(cache.get("t1", "v1").is_none());
    assert_eq!(cache.get("t1", "v2").unwrap(), &[vec![3.0]]);
    assert_eq!(cache.get("t2", "v1").unwrap(), &[vec![2.0]]);
}
