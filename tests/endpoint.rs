use anon_tags::{Endpoint, EndpointCache, Lookup};

fn hook(id: u64) -> Endpoint {
    Endpoint { id, token: format!("token-{id}") }
}

#[test]
fn one_fetch_per_unseen_channel() {
    let mut c = EndpointCache::new();
    assert_eq!(c.begin(7), Lookup::Fetch);
    assert_eq!(c.begin(7), Lookup::Wait);
    c.complete(7, Some(hook(70)));
    assert_eq!(c.begin(7), Lookup::Cached(hook(70)));
    assert_eq!(c.begin(7), Lookup::Cached(hook(70)));
    assert_eq!(c.get(7), Some(hook(70)));
}

#[test]
fn channels_are_fetched_independently() {
    let mut c = EndpointCache::new();
    assert_eq!(c.begin(1), Lookup::Fetch);
    assert_eq!(c.begin(2), Lookup::Fetch);
    c.complete(2, Some(hook(20)));
    assert_eq!(c.begin(1), Lookup::Wait);
    assert_eq!(c.begin(2), Lookup::Cached(hook(20)));
    assert_eq!(c.get(1), None);
}

#[test]
fn a_failed_fetch_releases_waiters() {
    let mut c = EndpointCache::new();
    assert_eq!(c.begin(5), Lookup::Fetch);
    c.complete(5, None);
    assert_eq!(c.get(5), None);
    assert_eq!(c.begin(5), Lookup::Fetch);
}

#[test]
fn a_late_completion_keeps_the_cached_endpoint() {
    let mut c = EndpointCache::new();
    assert_eq!(c.begin(3), Lookup::Fetch);
    c.complete(3, Some(hook(30)));
    c.complete(3, Some(hook(31)));
    assert_eq!(c.get(3), Some(hook(30)));
    assert_eq!(c.begin(3), Lookup::Cached(hook(30)));
}
