use koala_dns::cache::{Cache, CacheEntry, CacheKey};
use koala_dns::message::{DnsAnswer, DnsName};

fn test_answer(name: &str) -> DnsAnswer {
    DnsAnswer::new(DnsName::from_string(String::from(name)), 1, 1, 10, 1, vec![7])
}

fn test_key_from(name: &str) -> CacheKey {
    CacheKey::new(String::from(name), 1, 1)
}

fn entry(name: &str, lifetime: u64, now: u64) -> CacheEntry {
    CacheEntry::with_lifetime(test_key_from(name), vec![test_answer(name)], 10, lifetime, now)
}

#[test]
fn key_eq() {
    let k1 = CacheKey::new(String::from("a"), 1, 1);
    let k1_2 = CacheKey::new(String::from("A"), 1, 1);
    let k3 = CacheKey::new(String::from("b"), 3, 3);
    assert!(k1.matches(&k1_2));
    assert!(!k1.matches(&k3));
    assert!(!k1.matches(&CacheKey::new(String::from("a"), 1, 3)));
}

#[test]
fn upsert_insert() {
    let mut cache = Cache::new();
    let key = test_key_from("yahoo.com");
    cache.upsert(key.copy(), CacheEntry::new(key.copy(), vec![test_answer("yahoo.com")], 10));
    let val = cache.get(&key);
    assert_eq!("yahoo.com", val.expect("upserted key missing").answers[0].name.to_string());
}

#[test]
fn remove_expired() {
    let mut cache = Cache::new();
    cache.upsert_at(test_key_from("yahoo.com"), entry("yahoo.com", 5, 0), 0);
    cache.upsert_at(test_key_from("google.com"), entry("google.com", 50, 0), 0);
    cache.upsert_at(test_key_from("lycos.com"), entry("lycos.com", 100, 0), 0);
    assert_eq!(cache.remove_expired_at(75), 2);
    assert!(cache.get_at(&test_key_from("yahoo.com"), 75).is_none());
    assert!(cache.get_at(&test_key_from("google.com"), 75).is_none());
    assert!(cache.get_at(&test_key_from("lycos.com"), 75).is_some());
    assert_eq!(cache.len(), 1);
}

#[test]
fn expiry_boundary_counts_as_expired() {
    let mut cache = Cache::new();
    cache.upsert_at(test_key_from("a"), entry("a", 10, 0), 0);
    assert!(cache.get_at(&test_key_from("a"), 9).is_some());
    assert!(cache.get_at(&test_key_from("a"), 10).is_none());
    assert_eq!(cache.remove_expired_at(10), 1);
    assert_eq!(cache.remove_expired_at(10), 0);
}

#[test]
fn upsert_replaces_and_evicts() {
    let mut cache = Cache::new();
    cache.upsert_at(test_key_from("a"), entry("a", 10, 0), 0);
    cache.upsert_at(test_key_from("b"), entry("b", 5, 0), 0);
    let newer = CacheEntry::with_lifetime(test_key_from("a"), vec![test_answer("x.a"), test_answer("y.a")], 3, 100, 6);
    cache.upsert_at(test_key_from("A"), newer, 6);
    // "b" expired at 5 and was evicted; "a" was replaced
    assert_eq!(cache.len(), 1);
    let got = cache.get_at(&test_key_from("a"), 50).unwrap();
    assert_eq!(got.answers.len(), 2);
    assert_eq!(got.expiry(), 106);
    assert_eq!(got.ttl(), 3);
}

#[test]
fn remaining_ttl_rounds_up() {
    let e = entry("a", 10_000, 0);
    assert_eq!(e.calc_ttl(0), 10);
    assert_eq!(e.calc_ttl(1), 10);
    assert_eq!(e.calc_ttl(9_001), 1);
    assert_eq!(e.calc_ttl(10_000), 0);
}

#[test]
fn entry_from_reply_uses_first_answer() {
    let reply = koala_dns::message::DnsMessage::parse(&[8, 113, 129, 128, 0, 1, 0, 1, 0, 0, 0, 0, 1, 97, 0, 0, 1, 0, 1, 192, 12, 0, 1, 0, 1, 0, 0, 0, 10, 0, 4, 1, 2, 3, 4]).unwrap();
    let e = CacheEntry::from_at(&reply, 1000).unwrap();
    assert_eq!(e.expiry(), 11_000);
    assert_eq!(e.ttl(), 10);
    let empty = koala_dns::message::DnsMessage::new_error(reply.header);
    assert!(CacheEntry::from_at(&empty, 0).is_none());
}

#[test]
fn clock_backed_calls_agree_with_timed_ones() {
    let mut cache = Cache::new();
    let key = test_key_from("example.com");
    cache.upsert(key.copy(), CacheEntry::new(key.copy(), vec![test_answer("example.com")], 60));
    assert!(cache.get(&key).is_some());
    assert_eq!(cache.remove_expired(), 0);
    assert!(koala_dns::clock::now_ms() > 0);
}
