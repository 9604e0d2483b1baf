use std::cell::Cell;

use gitapi::{cache_key, RepoCache};

#[test]
fn get_or_compute_runs_the_computation_once() {
    let mut cache: RepoCache<String> = RepoCache::new();
    let calls = Cell::new(0u32);

    let first = cache
        .get_or_compute("demo:main", || {
            calls.set(calls.get() + 1);
            String::from("listing")
        })
        .clone();
    assert_eq!(first, "listing");
    assert_eq!(calls.get(), 1);

    // The same key hits the stored value; the thunk does not run again
    // even though it would produce a different value.
    let second = cache
        .get_or_compute("demo:main", || {
            calls.set(calls.get() + 1);
            String::from("recomputed")
        })
        .clone();
    assert_eq!(second, "listing");
    assert_eq!(calls.get(), 1);
}

#[test]
fn distinct_keys_compute_separately() {
    let mut cache: RepoCache<u64> = RepoCache::new();
    let a = *cache.get_or_compute("repo-a", || 1);
    let b = *cache.get_or_compute("repo-b", || 2);
    assert_eq!(a, 1);
    assert_eq!(b, 2);
    assert_eq!(*cache.get_or_compute("repo-a", || 99), 1);
}

#[test]
fn get_reads_without_inserting() {
    let mut cache: RepoCache<u64> = RepoCache::new();
    assert!(cache.get("missing").is_none());
    cache.get_or_compute("present", || 7);
    assert_eq!(cache.get("present").copied(), Some(7));
    assert!(cache.get("missing").is_none());
}

#[test]
fn cache_keys_compose_repository_and_id() {
    assert_eq!(cache_key("demo", "abc123"), "demoabc123");
    assert_eq!(cache_key("", "x"), "x");
}
