use bazuka::{SkmvCache, SkmvConfig};
use home_web::api::{
    CACHE_IDLE_TIMEOUT_SECS, CACHE_MAX_CAPACITY, CACHE_MAX_VALUES_PER_KEY, CACHE_TIME_TO_LIVE_SECS,
};
use home_web::types::{Query, QueryType, Response, ResponseInner};
use std::hash::{Hash, Hasher};

#[derive(Debug)]
struct Cached(Response);

impl PartialEq for Cached {
    fn eq(&self, other: &Self) -> bool {
        self.0 == other.0
    }
}

impl Eq for Cached {}

impl Hash for Cached {
    fn hash<H: Hasher>(&self, state: &mut H) {
        self.0.inner.hash(state);
    }
}

fn new_cache() -> SkmvCache<Query, Cached> {
    SkmvCache::new(SkmvConfig {
        idle_timeout: Some(CACHE_IDLE_TIMEOUT_SECS),
        maximum_capacity: CACHE_MAX_CAPACITY,
        maximum_values_per_key: CACHE_MAX_VALUES_PER_KEY,
        time_to_live: Some(CACHE_TIME_TO_LIVE_SECS),
    })
}

#[test]
fn test_cache_insert_duplicate() {
    let runtime = tokio::runtime::Builder::new_current_thread().enable_all().build().unwrap();
    runtime.block_on(async {
        let cache = new_cache();
        let query = Query::new("example.local", QueryType::PTR);
        let response = Response {
            inner: ResponseInner::PTR("example.local".to_string()),
            ends_at: 1_000_000_000,
        };
        let later = Response { inner: response.inner.clone(), ends_at: 9_000_000_000 };
        cache.insert(query.duplicate(), Cached(response), 5).await;
        cache.insert(query, Cached(later), 10).await;
        assert_eq!(cache.iter().await.count(), 1);
    });
}

#[test]
fn the_cache_returns_no_response_whose_time_is_up() {
    let runtime = tokio::runtime::Builder::new_current_thread().enable_all().build().unwrap();
    runtime.block_on(async {
        let cache = new_cache();
        let query = Query::new("example.local", QueryType::A);
        let now = std::time::SystemTime::now()
            .duration_since(std::time::UNIX_EPOCH)
            .unwrap()
            .as_nanos() as u64;
        let record = home_web::record::Record {
            name: "example.local".to_string(),
            class_in: true,
            ttl: 1,
            data: home_web::record::RecordData::A { address: 7 },
        };
        let (_, response, ttl) = home_web::record::prepare_triplet_from_record(&record, now).unwrap();
        let ends_at = response.ends_at;
        cache.insert(query.duplicate(), Cached(response), ttl).await;
        let held = cache.get(&query).await;
        assert_eq!(held.len(), 1);
        assert!(held[0].0.ends_at > now as u128);
        tokio::time::sleep(std::time::Duration::from_millis(1500)).await;
        let later = std::time::SystemTime::now()
            .duration_since(std::time::UNIX_EPOCH)
            .unwrap()
            .as_nanos();
        assert!(ends_at <= later);
        assert!(cache.get(&query).await.is_empty());
    });
}

#[test]
fn responses_are_equal_by_payload() {
    let a = Response { inner: ResponseInner::A { address: 1 }, ends_at: 1 };
    let b = Response { inner: ResponseInner::A { address: 1 }, ends_at: 2 };
    let c = Response { inner: ResponseInner::A { address: 2 }, ends_at: 1 };
    assert!(a == b);
    assert!(a != c);
    assert!(a.same(&b));
    assert!(!a.same(&c));
    let t = |strings: &[&str]| Response {
        inner: ResponseInner::TXT { strings: strings.iter().map(|s| s.to_string()).collect() },
        ends_at: 0,
    };
    assert!(t(&["a=1", "b=2"]) == t(&["a=1", "b=2"]));
    assert!(t(&["a=1", "b=2"]) != t(&["b=2", "a=1"]));
    assert!(t(&["a=1"]) != t(&["a=1", "b=2"]));
}
