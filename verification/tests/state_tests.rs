use ddns6::state::StateCache;
use ddns6::Ipv6Address;

fn addr(s: &str) -> Ipv6Address {
    Ipv6Address::from_text(s).unwrap()
}

#[test]
fn test_state_cache() {
    let mut cache = StateCache::new();
    let hostname = "device1.example.com".to_string();
    let addr1 = addr("2001:db8::1");
    let addr2 = addr("2001:db8::2");

    assert!(cache.get(&hostname).is_none());

    assert!(cache.has_changed(&hostname, addr1));

    cache.update(hostname.clone(), addr1);

    let state = cache.get(&hostname).unwrap();
    assert_eq!(state.ipv6_address, addr1);

    assert!(!cache.has_changed(&hostname, addr1));

    assert!(cache.has_changed(&hostname, addr2));

    cache.update(hostname.clone(), addr2);
    let state = cache.get(&hostname).unwrap();
    assert_eq!(state.ipv6_address, addr2);
}

#[test]
fn test_remove() {
    let mut cache = StateCache::new();
    let hostname = "device1.example.com".to_string();
    let a = addr("2001:db8::1");

    cache.update(hostname.clone(), a);
    assert!(cache.get(&hostname).is_some());

    cache.remove(&hostname);
    assert!(cache.get(&hostname).is_none());
}

#[test]
fn test_list_all() {
    let mut cache = StateCache::new();
    let addr1 = addr("2001:db8::1");
    let addr2 = addr("2001:db8::2");

    cache.update("device1.example.com".to_string(), addr1);
    cache.update("device2.example.com".to_string(), addr2);

    let all = cache.list_all();
    assert_eq!(all.len(), 2);
}

#[test]
fn test_fresh_host_always_changed() {
    let cache = StateCache::new();
    assert!(cache.has_changed("never-seen.example.com", addr("::")));
    assert!(cache.has_changed("never-seen.example.com", addr("2001:db8::1")));
    assert!(cache.has_changed("other.example.com", addr("ffff::")));
}

#[test]
fn test_update_does_not_touch_other_hosts() {
    let mut cache = StateCache::new();
    let a1 = addr("2001:db8::1");
    let a2 = addr("2001:db8::2");

    cache.update("one.example.com".to_string(), a1);
    cache.update("two.example.com".to_string(), a2);

    cache.update("one.example.com".to_string(), a2);

    assert_eq!(cache.get("two.example.com").unwrap().ipv6_address, a2);
    assert_eq!(cache.get("one.example.com").unwrap().ipv6_address, a2);
    assert!(!cache.has_changed("two.example.com", a2));
}
