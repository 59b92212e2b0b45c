use shuvarie_core::config::EmbeddingConfig;
use shuvarie_core::connections::{Connections, ProviderConfig};
use shuvarie_core::embeddings::{
    assign_vectors, batch_texts, choose_provider, default_dims, default_model, embeddable,
    hit_ranks, setup, EmbeddingProvider, MAX_TEXT_CHARS,
};

#[test]
fn defaults_per_provider() {
    assert_eq!(default_model(EmbeddingProvider::Ollama), "nomic-embed-text");
    assert_eq!(default_model(EmbeddingProvider::Other), "text-embedding-3-small");
    assert_eq!(default_dims(EmbeddingProvider::Ollama), 768);
}

#[test]
fn the_setup_follows_the_settings() {
    let config = EmbeddingConfig::default();
    assert_eq!(
        setup(&config, EmbeddingProvider::Gemini, true),
        Some(("gemini-embedding-001".to_string(), 1536))
    );
    assert_eq!(setup(&config, EmbeddingProvider::Gemini, false), None);
}

#[test]
fn the_provider_must_be_set_up() {
    let config = EmbeddingConfig::default();
    let mut connections = Connections::default();
    connections.active_provider = Some("o".to_string());
    assert_eq!(choose_provider(&config, &connections), None);
    connections
        .providers
        .insert("o".to_string(), ProviderConfig::new("ollama", None, None));
    assert_eq!(choose_provider(&config, &connections).as_deref(), Some("o"));
    let off = EmbeddingConfig { disabled: true, ..EmbeddingConfig::default() };
    assert_eq!(choose_provider(&off, &connections), None);
}

#[test]
fn long_texts_are_left_out() {
    let long = "x".repeat(MAX_TEXT_CHARS + 1);
    assert!(!embeddable(&long));
    let contents = vec!["a".to_string(), long, "b".to_string()];
    assert_eq!(batch_texts(&contents), vec!["a", "b"]);
    assert_eq!(assign_vectors(&contents, 2), vec![(0, 0), (2, 1)]);
    assert_eq!(assign_vectors(&contents, 1), vec![(0, 0)]);
}

#[test]
fn each_hit_comes_once_with_its_ranks() {
    let hits = hit_ranks(&vec![1, 2], &vec![2, 3]);
    let found: Vec<(u64, usize, Vec<u64>)> =
        hits.into_iter().map(|h| (h.id, h.first, h.ranks)).collect();
    assert_eq!(found, vec![(1, 0, vec![0]), (2, 1, vec![1, 0]), (3, 3, vec![1])]);
}
