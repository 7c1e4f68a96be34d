use rengine::cache::{ResourceCache, TextureId};

#[test]
fn insert_then_get_returns_exact_resource() {
    let mut cache = ResourceCache::new();
    cache.insert(7, TextureId(42));
    assert_eq!(cache.get_or_request(7), Some(TextureId(42)));
    assert_eq!(cache.get_or_request(7), Some(TextureId(42)));
    assert_eq!(cache.get_or_request(7), Some(TextureId(42)));
}

#[test]
fn insert_overwrites_prior_entry() {
    let mut cache = ResourceCache::new();
    cache.insert(7, TextureId(42));
    cache.insert(7, TextureId(43));
    assert_eq!(cache.get_or_request(7), Some(TextureId(43)));
}

#[test]
fn never_returns_a_resource_never_inserted() {
    let mut cache = ResourceCache::new();
    assert_eq!(cache.get_or_request(99), None);
    cache.insert(7, TextureId(42));
    assert_eq!(cache.get_or_request(99), None);
}

#[test]
fn repeated_misses_enqueue_one_request() {
    let mut cache = ResourceCache::new();
    assert_eq!(cache.get_or_request(5), None);
    assert_eq!(cache.get_or_request(5), None);
    assert_eq!(cache.get_or_request(5), None);
    assert_eq!(cache.take_pending(), vec![5]);
}

#[test]
fn pending_not_requeued_after_take() {
    let mut cache = ResourceCache::new();
    assert_eq!(cache.get_or_request(5), None);
    assert_eq!(cache.take_pending(), vec![5]);
    // The load is in flight: further misses must not queue it again.
    assert_eq!(cache.get_or_request(5), None);
    assert_eq!(cache.take_pending(), Vec::<u128>::new());
}

#[test]
fn failed_load_is_retry_eligible() {
    let mut cache = ResourceCache::new();
    assert_eq!(cache.get_or_request(5), None);
    let requests = cache.take_pending();
    assert_eq!(requests, vec![5]);
    cache.mark_failed(5);
    // The next miss requests the load again.
    assert_eq!(cache.get_or_request(5), None);
    assert_eq!(cache.take_pending(), vec![5]);
}

#[test]
fn stale_failure_does_not_clobber_loaded() {
    let mut cache = ResourceCache::new();
    cache.insert(5, TextureId(9));
    cache.mark_failed(5);
    assert_eq!(cache.get_or_request(5), Some(TextureId(9)));
}

#[test]
fn requests_keep_order_of_first_miss() {
    let mut cache = ResourceCache::new();
    cache.get_or_request(3);
    cache.get_or_request(1);
    cache.get_or_request(3);
    cache.get_or_request(2);
    assert_eq!(cache.take_pending(), vec![3, 1, 2]);
}

#[test]
fn insert_drops_queued_request() {
    let mut cache = ResourceCache::new();
    cache.get_or_request(5);
    cache.insert(5, TextureId(1));
    assert_eq!(cache.take_pending(), Vec::<u128>::new());
}
