use orjson::cache::{KeyCache, SLOTS};
use orjson::datum::{Key, KEY_HASH_SEED};
use orjson::hash::{hash_text, same_text};

#[test]
fn hash_is_the_documented_wyhash() {
    assert_eq!(hash_text("\u{0}\u{1}\u{2}", 3), 0xb0f9_4152_0b1a_d95d);
}

#[test]
fn hash_depends_on_text_and_seed() {
    assert_eq!(hash_text("name", 1), hash_text("name", 1));
    assert_ne!(hash_text("name", 1), hash_text("name", 2));
    assert_ne!(hash_text("name", 1), hash_text("game", 1));
    assert_ne!(hash_text("", 1), 1);
}

#[test]
fn same_text_compares_bytes() {
    assert!(same_text("", ""));
    assert!(same_text("abc", "abc"));
    assert!(!same_text("abc", "abd"));
    assert!(!same_text("abc", "ab"));
    assert!(same_text("\u{e9}", "\u{e9}"));
    assert!(!same_text("\u{e9}", "e"));
}

#[test]
fn key_carries_the_hash_of_its_text() {
    let key = Key::new("name");
    assert_eq!(key.as_str(), "name");
    assert_eq!(key.hash(), hash_text("name", KEY_HASH_SEED));
    let again = key.get();
    assert_eq!(again.as_str(), "name");
    assert_eq!(again.hash(), key.hash());
    assert!(key.same(&again));
    assert!(!key.same(&Key::new("other")));
}

#[test]
fn new_cache_is_empty() {
    assert_eq!(KeyCache::new(0).len(), 0);
}

#[test]
fn second_lookup_reuses_the_key() {
    let mut cache = KeyCache::new(11);
    let first = cache.get_or_create("name");
    assert_eq!(cache.len(), 1);
    let second = cache.get_or_create("name");
    assert_eq!(cache.len(), 1);
    assert_eq!(first, second);
    assert_eq!(second.as_str(), "name");
    assert_eq!(second.hash(), hash_text("name", KEY_HASH_SEED));
}

#[test]
fn lookup_makes_the_key_of_the_text() {
    let mut cache = KeyCache::new(11);
    for text in ["", "a", "b", "name", "\u{e9}t\u{e9}"] {
        let key = cache.get_or_create(text);
        assert_eq!(key.as_str(), text);
        assert_eq!(key.hash(), hash_text(text, KEY_HASH_SEED));
    }
}

#[test]
fn cache_never_holds_more_than_its_slots() {
    let mut cache = KeyCache::new(3);
    let mut last = 0;
    for i in 0..5000 {
        let text = format!("key{}", i);
        let key = cache.get_or_create(&text);
        assert_eq!(key.as_str(), text);
        let len = cache.len();
        assert!(len <= SLOTS);
        assert!(len + 1 >= last && len <= last + 1);
        last = len;
    }
    assert!(cache.len() > SLOTS / 2);
}

#[test]
fn evicted_keys_are_made_again() {
    let mut cache = KeyCache::new(3);
    let texts: Vec<String> = (0..2000).map(|i| format!("k{}", i)).collect();
    for text in &texts {
        cache.get_or_create(text);
    }
    for text in &texts {
        let key = cache.get_or_create(text);
        assert_eq!(key.as_str(), text.as_str());
    }
    assert!(cache.len() <= SLOTS);
}
