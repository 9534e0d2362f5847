use game_core::textcache::{Color, TextCache};
use std::cell::Cell;

const WHITE: Color = Color { r: 255, g: 255, b: 255, a: 255 };
const BLACK: Color = Color { r: 0, g: 0, b: 0, a: 255 };

#[test]
fn coherence_same_resource_produced_once() {
    let calls = Cell::new(0u32);
    let mut cache: TextCache<String> = TextCache::new();
    for _ in 0..5 {
        let produced = cache
            .get("10 (+0/s)", WHITE, || {
                calls.set(calls.get() + 1);
                Some(format!("surface:{}", calls.get()))
            })
            .unwrap()
            .clone();
        assert_eq!(produced, "surface:1");
    }
    assert_eq!(calls.get(), 1);
}

#[test]
fn two_generation_retention() {
    let mut cache: TextCache<u64> = TextCache::new();
    cache.get("10 (+0/s)", WHITE, || Some(7)).unwrap();
    assert!(cache.contains("10 (+0/s)", WHITE));
    assert!(cache.is_live("10 (+0/s)", WHITE));
    cache.cleanup();
    assert!(cache.contains("10 (+0/s)", WHITE));
    assert!(!cache.is_live("10 (+0/s)", WHITE));
    cache.cleanup();
    assert!(!cache.contains("10 (+0/s)", WHITE));
}

#[test]
fn reentry_after_eviction_reinvokes_producer() {
    let calls = Cell::new(0u32);
    let mut cache: TextCache<String> = TextCache::new();
    let first = cache
        .get("label", WHITE, || {
            calls.set(calls.get() + 1);
            Some(String::from("rendered label"))
        })
        .unwrap()
        .clone();
    cache.cleanup();
    cache.cleanup();
    assert!(!cache.contains("label", WHITE));
    let second = cache
        .get("label", WHITE, || {
            calls.set(calls.get() + 1);
            Some(String::from("rendered label"))
        })
        .unwrap()
        .clone();
    assert_eq!(calls.get(), 2);
    assert_eq!(first, second);
}

#[test]
fn production_failure_isolation() {
    let mut cache: TextCache<u64> = TextCache::new();
    cache.get("b", BLACK, || Some(11)).unwrap();
    cache.cleanup();
    assert!(!cache.is_live("b", BLACK));

    let err = cache.get("a", WHITE, || None).unwrap_err();
    assert_eq!(err.content, "a");
    assert_eq!(err.color, WHITE);

    assert!(!cache.contains("a", WHITE));
    assert!(cache.contains("b", BLACK));
    assert!(!cache.is_live("b", BLACK));
    let b_again = *cache.get("b", BLACK, || Some(99)).unwrap();
    assert_eq!(b_again, 11);
}

#[test]
fn failed_production_inserts_nothing() {
    let mut cache: TextCache<u64> = TextCache::new();
    assert!(cache.get("x", WHITE, || None).is_err());
    assert_eq!(cache.len(), 0);
    let v = *cache.get("x", WHITE, || Some(3)).unwrap();
    assert_eq!(v, 3);
    assert_eq!(cache.len(), 1);
}

#[test]
fn distinct_styles_are_distinct_keys() {
    let mut cache: TextCache<u64> = TextCache::new();
    let w = *cache.get("10 (+0/s)", WHITE, || Some(1)).unwrap();
    let b = *cache.get("10 (+0/s)", BLACK, || Some(2)).unwrap();
    assert_eq!(w, 1);
    assert_eq!(b, 2);
    assert_eq!(cache.len(), 2);
}

#[test]
fn concrete_scenario_white_and_black() {
    let calls_white = Cell::new(0u32);
    let mut cache: TextCache<String> = TextCache::new();
    let white_producer = || {
        calls_white.set(calls_white.get() + 1);
        Some(String::from("10 (+0/s) in white"))
    };
    cache.get("10 (+0/s)", WHITE, white_producer).unwrap();
    cache
        .get("10 (+0/s)", BLACK, || Some(String::from("10 (+0/s) in black")))
        .unwrap();

    // Cycle 1 requests only the white key.
    cache.get("10 (+0/s)", WHITE, || None).unwrap();
    cache.cleanup();
    assert!(cache.contains("10 (+0/s)", WHITE));

    // A second consecutive sweep without a request evicts the white key.
    cache.cleanup();
    assert!(!cache.contains("10 (+0/s)", WHITE));

    // The next get for it re-invokes the producer.
    let white_producer_again = || {
        calls_white.set(calls_white.get() + 1);
        Some(String::from("10 (+0/s) in white"))
    };
    cache.get("10 (+0/s)", WHITE, white_producer_again).unwrap();
    assert_eq!(calls_white.get(), 2);
}

#[test]
fn steady_request_traffic_never_thrashes() {
    let calls = Cell::new(0u32);
    let mut cache: TextCache<u64> = TextCache::new();
    for _cycle in 0..6 {
        let v = *cache
            .get("score", WHITE, || {
                calls.set(calls.get() + 1);
                Some(5)
            })
            .unwrap();
        assert_eq!(v, 5);
        cache.cleanup();
        // Every survivor of a sweep comes out with its flag clear.
        assert!(!cache.is_live("score", WHITE));
        assert!(cache.contains("score", WHITE));
    }
    assert_eq!(calls.get(), 1);
}

#[test]
fn empty_cache_len_zero() {
    let cache: TextCache<u64> = TextCache::new();
    assert_eq!(cache.len(), 0);
    assert!(!cache.contains("", WHITE));
}
