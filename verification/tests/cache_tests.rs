use pdf_viewer::cache::{PageCache, PAGE_CACHE_CAPACITY};

#[test]
fn cache_keeps_at_most_capacity_pages_dropping_least_recent() {
    let mut c: PageCache<String> = PageCache::new();
    for p in 0..PAGE_CACHE_CAPACITY {
        assert!(!c.touch(p));
        c.insert(p, format!("page {}", p));
    }
    assert_eq!(c.len(), 15);
    // page 0 is used again, so page 1 is now the least recently used
    assert!(c.touch(0));
    assert!(!c.touch(100));
    c.insert(100, "page 100".to_string());
    assert_eq!(c.len(), 15);
    assert!(c.contains(0));
    assert!(!c.contains(1));
    assert!(c.contains(100));
    assert_eq!(c.get(100).map(|s| s.as_str()), Some("page 100"));
    assert!(c.get(1).is_none());
}

#[test]
fn cache_clear_empties() {
    let mut c: PageCache<u32> = PageCache::new();
    c.insert(3, 30);
    c.insert(4, 40);
    assert_eq!(c.len(), 2);
    c.clear();
    assert_eq!(c.len(), 0);
    assert!(!c.touch(3));
}

#[test]
fn touch_of_missing_page_changes_nothing() {
    let mut c: PageCache<u32> = PageCache::new();
    c.insert(1, 10);
    assert!(!c.touch(2));
    assert_eq!(c.len(), 1);
    assert_eq!(c.get(1), Some(&10));
}
