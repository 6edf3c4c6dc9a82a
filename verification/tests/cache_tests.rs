use bevy_mqtt::SubscribeTopic;
use bevy_mqtt::routing::cache_if_matched;
use bevy_mqtt::cache::{DEFAULT_CAPACITY, MAX_CAPACITY, MIN_CAPACITY};
use bevy_mqtt::PacketCache;
use bytes::Bytes;

#[test]
fn test_packet_cache_capacity_limit() {
    let mut cache = PacketCache::new(2);

    assert_eq!(cache.len(), 0);
    assert!(cache.is_empty());

    cache.push(Bytes::from("packet1"));
    assert_eq!(cache.len(), 1);
    assert!(!cache.is_empty());
    assert_eq!(cache.latest(), Some(&Bytes::from("packet1")));
    assert_eq!(cache.oldest(), Some(&Bytes::from("packet1")));

    cache.push(Bytes::from("packet2"));
    assert_eq!(cache.len(), 2);
    assert_eq!(cache.latest(), Some(&Bytes::from("packet2")));
    assert_eq!(cache.oldest(), Some(&Bytes::from("packet1")));

    cache.push(Bytes::from("packet3"));
    assert_eq!(cache.len(), 2);
    assert_eq!(cache.latest(), Some(&Bytes::from("packet3")));
    assert_eq!(cache.oldest(), Some(&Bytes::from("packet2")));

    cache.clear();
    assert_eq!(cache.len(), 0);
    assert!(cache.is_empty());
}

#[test]
fn test_packet_cache_minimum_capacity() {
    let cache = PacketCache::new(0);
    assert_eq!(cache.capacity, 1);
}

#[test]
fn test_packet_cache_maximum_capacity() {
    let cache = PacketCache::new(2000);
    assert_eq!(cache.capacity, 1000);
    assert!(cache.packets.capacity() <= 1000);
}

#[test]
fn test_packet_cache_capacity_consistency() {
    let mut cache = PacketCache::new(5000);
    assert_eq!(cache.capacity, 1000);

    for i in 0..1500 {
        cache.push(Bytes::from(format!("packet{}", i)));
    }

    assert_eq!(cache.len(), 1000);
    assert_eq!(cache.capacity, 1000);

    assert_eq!(cache.oldest(), Some(&Bytes::from("packet500")));
    assert_eq!(cache.latest(), Some(&Bytes::from("packet1499")));
}

#[test]
fn cache_default_has_default_capacity() {
    let cache = PacketCache::default();
    assert_eq!(cache.capacity, DEFAULT_CAPACITY);
    assert_eq!(cache.capacity, 100);
    assert!(cache.is_empty());
    assert_eq!(cache.latest(), None);
    assert_eq!(cache.oldest(), None);
}

#[test]
fn cache_capacity_in_range_is_kept() {
    assert_eq!(PacketCache::new(1).capacity, MIN_CAPACITY);
    assert_eq!(PacketCache::new(1000).capacity, MAX_CAPACITY);
    assert_eq!(PacketCache::new(37).capacity, 37);
}

#[test]
fn cache_keeps_newest_window_in_order() {
    let mut cache = PacketCache::new(3);
    for i in 0..7 {
        cache.push(Bytes::from(format!("p{}", i)));
        assert!(cache.len() <= 3);
        assert_eq!(cache.latest(), Some(&Bytes::from(format!("p{}", i))));
    }
    let kept: Vec<Bytes> = cache.iter().cloned().collect();
    assert_eq!(
        kept,
        vec![Bytes::from("p4"), Bytes::from("p5"), Bytes::from("p6")]
    );
}

#[test]
fn cache_iter_walks_oldest_first() {
    let mut cache = PacketCache::new(10);
    cache.push(Bytes::from("a"));
    cache.push(Bytes::from("b"));
    let kept: Vec<&Bytes> = cache.iter().collect();
    assert_eq!(kept, vec![&Bytes::from("a"), &Bytes::from("b")]);
}

#[test]
fn cache_clear_keeps_capacity() {
    let mut cache = PacketCache::new(4);
    cache.push(Bytes::from("x"));
    cache.clear();
    assert_eq!(cache.capacity, 4);
    assert!(cache.iter().next().is_none());
    cache.push(Bytes::from("y"));
    assert_eq!(cache.oldest(), Some(&Bytes::from("y")));
}

#[test]
fn cache_of_capacity_one_holds_last_packet() {
    let mut cache = PacketCache::new(0);
    cache.push(Bytes::from("first"));
    cache.push(Bytes::from("second"));
    assert_eq!(cache.len(), 1);
    assert_eq!(cache.oldest(), Some(&Bytes::from("second")));
    assert_eq!(cache.latest(), Some(&Bytes::from("second")));
}

#[test]
fn cache_fills_only_on_match() {
    let s = SubscribeTopic::new("a/+", rumqttc::QoS::AtMostOnce).unwrap();
    let mut cache = PacketCache::new(5);
    assert!(cache_if_matched(&s, "a/b", Bytes::from("one"), &mut cache));
    assert!(!cache_if_matched(&s, "b/c", Bytes::from("two"), &mut cache));
    assert_eq!(cache.len(), 1);
    assert_eq!(cache.latest(), Some(&Bytes::from("one")));
}
