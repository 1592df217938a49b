use mdserve::cache::{evict, CacheKey, ModTime, RenderCache};
use mdserve::error::RequestError;
use std::sync::atomic::{AtomicUsize, Ordering};
use std::sync::{Arc, Mutex};

fn key(path: &str, secs: i64) -> CacheKey {
    CacheKey { path: path.to_string(), modified: ModTime { secs, nanos: 0 } }
}

#[test]
fn second_render_of_unchanged_file_hits_cache() {
    let mut cache = RenderCache::new();
    let calls = AtomicUsize::new(0);
    let produce = || {
        calls.fetch_add(1, Ordering::SeqCst);
        Ok::<String, RequestError>("<p>a</p>".to_string())
    };
    let first = cache.get_or_render(key("/d/a.md", 1), produce).unwrap();
    let second = cache
        .get_or_render(key("/d/a.md", 1), || {
            calls.fetch_add(1, Ordering::SeqCst);
            Ok::<String, RequestError>("<p>other</p>".to_string())
        })
        .unwrap();
    assert_eq!(first, second);
    assert_eq!(first, "<p>a</p>");
    assert_eq!(calls.load(Ordering::SeqCst), 1);
    assert_eq!(cache.len(), 1);
}

#[test]
fn newer_modification_time_replaces_entry() {
    let mut cache = RenderCache::new();
    let old = cache.get_or_render(key("/d/a.md", 1), || Ok::<String, RequestError>("old".to_string()));
    assert_eq!(old.unwrap(), "old");
    let new = cache.get_or_render(key("/d/a.md", 2), || Ok::<String, RequestError>("new".to_string()));
    assert_eq!(new.unwrap(), "new");
    assert_eq!(cache.len(), 1);
    assert_eq!(cache.lookup(&key("/d/a.md", 1)), None);
    assert_eq!(cache.lookup(&key("/d/a.md", 2)), Some("new".to_string()));
}

#[test]
fn nanosecond_difference_is_a_new_version() {
    let mut cache = RenderCache::new();
    let k1 = CacheKey { path: "/d/a.md".to_string(), modified: ModTime { secs: 5, nanos: 1 } };
    let k2 = CacheKey { path: "/d/a.md".to_string(), modified: ModTime { secs: 5, nanos: 2 } };
    cache.get_or_render(k1, || Ok::<String, RequestError>("one".to_string())).unwrap();
    let r = cache.get_or_render(k2, || Ok::<String, RequestError>("two".to_string()));
    assert_eq!(r.unwrap(), "two");
    assert_eq!(cache.len(), 1);
}

#[test]
fn different_paths_coexist() {
    let mut cache = RenderCache::new();
    cache.get_or_render(key("/d/a.md", 1), || Ok::<String, RequestError>("a".to_string())).unwrap();
    cache.get_or_render(key("/d/b.md", 1), || Ok::<String, RequestError>("b".to_string())).unwrap();
    assert_eq!(cache.len(), 2);
    assert_eq!(cache.lookup(&key("/d/a.md", 1)), Some("a".to_string()));
    assert_eq!(cache.lookup(&key("/d/b.md", 1)), Some("b".to_string()));
}

#[test]
fn failed_render_leaves_cache_unchanged() {
    let mut cache = RenderCache::new();
    cache.get_or_render(key("/d/b.md", 1), || Ok::<String, RequestError>("b".to_string())).unwrap();
    let r = cache.get_or_render(key("/d/a.md", 1), || Err::<String, RequestError>(RequestError::DecodingError));
    assert_eq!(r, Err(RequestError::DecodingError));
    assert_eq!(cache.len(), 1);
    assert_eq!(cache.lookup(&key("/d/a.md", 1)), None);
    let again = cache.get_or_render(key("/d/a.md", 1), || Ok::<String, RequestError>("a".to_string()));
    assert_eq!(again.unwrap(), "a");
    assert_eq!(cache.len(), 2);
}

#[test]
fn failed_rerender_keeps_previous_version() {
    let mut cache = RenderCache::new();
    cache.get_or_render(key("/d/a.md", 1), || Ok::<String, RequestError>("v1".to_string())).unwrap();
    let r = cache.get_or_render(key("/d/a.md", 2), || Err::<String, RequestError>(RequestError::DecodingError));
    assert_eq!(r, Err(RequestError::DecodingError));
    assert_eq!(cache.lookup(&key("/d/a.md", 1)), Some("v1".to_string()));
}

#[test]
fn evict_removes_only_that_path() {
    let mut cache = RenderCache::new();
    cache.get_or_render(key("/d/a.md", 1), || Ok::<String, RequestError>("a".to_string())).unwrap();
    cache.get_or_render(key("/d/b.md", 1), || Ok::<String, RequestError>("b".to_string())).unwrap();
    evict(&"/d/a.md".to_string(), &mut cache);
    assert_eq!(cache.len(), 1);
    assert_eq!(cache.lookup(&key("/d/a.md", 1)), None);
    assert_eq!(cache.lookup(&key("/d/b.md", 1)), Some("b".to_string()));
    evict(&"/d/none.md".to_string(), &mut cache);
    assert_eq!(cache.len(), 1);
}

#[test]
fn empty_cache_has_nothing() {
    let cache = RenderCache::new();
    assert_eq!(cache.len(), 0);
    assert_eq!(cache.lookup(&key("/d/a.md", 1)), None);
}

#[test]
fn concurrent_requests_render_once() {
    let cache = Arc::new(Mutex::new(RenderCache::new()));
    let calls = Arc::new(AtomicUsize::new(0));
    let rt = tokio::runtime::Runtime::new().unwrap();
    let mut handles = Vec::new();
    for _ in 0..16 {
        let cache = Arc::clone(&cache);
        let calls = Arc::clone(&calls);
        handles.push(rt.spawn_blocking(move || {
            let mut guard = cache.lock().unwrap();
            guard.get_or_render(key("/d/a.md", 7), || {
                calls.fetch_add(1, Ordering::SeqCst);
                Ok::<String, RequestError>("<h1>same</h1>".to_string())
            })
        }));
    }
    let results: Vec<_> = handles.into_iter().map(|h| rt.block_on(h).unwrap()).collect();
    assert_eq!(results.len(), 16);
    for r in results {
        assert_eq!(r, Ok("<h1>same</h1>".to_string()));
    }
    assert_eq!(calls.load(Ordering::SeqCst), 1);
    assert_eq!(cache.lock().unwrap().len(), 1);
}

#[test]
fn evict_shrinks_by_entries_of_path() {
    let mut cache = RenderCache::new();
    for (i, p) in ["/d/a.md", "/d/b.md", "/d/c.md"].iter().enumerate() {
        cache.get_or_render(key(p, i as i64), || Ok::<String, RequestError>(p.to_string())).unwrap();
    }
    assert_eq!(cache.len(), 3);
    evict(&"/d/b.md".to_string(), &mut cache);
    assert_eq!(cache.len(), 2);
    assert_eq!(cache.lookup(&key("/d/a.md", 0)), Some("/d/a.md".to_string()));
    assert_eq!(cache.lookup(&key("/d/c.md", 2)), Some("/d/c.md".to_string()));
}
