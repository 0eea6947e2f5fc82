use crab_code::model::{ModelId, TokenUsage};
use std::collections::HashSet;


#[test]
fn model_id_display() {
    let id = ModelId::from("sonnet-4-20250514");
    assert_eq!(id.to_string(), "sonnet-4-20250514");
    assert_eq!(id.as_str(), "sonnet-4-20250514");
}

#[test]
fn model_id_from_string() {
    let id = ModelId::from("gpt-4o".to_string());
    assert_eq!(id.0, "gpt-4o");
}

#[test]
fn token_usage_total() {
    let usage = TokenUsage {
        input_tokens: 100,
        output_tokens: 50,
        cache_read_tokens: 20,
        cache_creation_tokens: 10,
    };
    assert_eq!(usage.total(), 150);
    assert!(!usage.is_empty());
}

#[test]
fn token_usage_is_empty() {
    let usage = TokenUsage::default();
    assert!(usage.is_empty());
    assert_eq!(usage.total(), 0);
}

#[test]
fn token_usage_add_assign() {
    let mut a = TokenUsage {
        input_tokens: 10,
        output_tokens: 20,
        cache_read_tokens: 5,
        cache_creation_tokens: 3,
    };
    let b = TokenUsage {
        input_tokens: 5,
        output_tokens: 10,
        cache_read_tokens: 2,
        cache_creation_tokens: 1,
    };
    a += b;
    assert_eq!(a.input_tokens, 15);
    assert_eq!(a.output_tokens, 30);
    assert_eq!(a.cache_read_tokens, 7);
    assert_eq!(a.cache_creation_tokens, 4);
}



// ─── Additional coverage tests ───

#[test]
fn model_id_equality() {
    let a = ModelId::from("sonnet-4-6");
    let b = ModelId::from("sonnet-4-6");
    let c = ModelId::from("gpt-4o");
    assert_eq!(a, b);
    assert_ne!(a, c);
}

#[test]
fn model_id_hash() {
    let mut set = HashSet::new();
    set.insert(ModelId::from("model-a"));
    set.insert(ModelId::from("model-b"));
    set.insert(ModelId::from("model-a")); // duplicate
    assert_eq!(set.len(), 2);
}

#[test]
fn token_usage_add_assign_to_default() {
    let mut usage = TokenUsage::default();
    usage += TokenUsage {
        input_tokens: 10,
        output_tokens: 20,
        cache_read_tokens: 0,
        cache_creation_tokens: 0,
    };
    assert_eq!(usage.input_tokens, 10);
    assert_eq!(usage.output_tokens, 20);
    assert!(!usage.is_empty());
}

