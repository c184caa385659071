use migemo_everything::cache::{FileResult, PageRequest, PagedResultCache};

fn record(name: &str) -> FileResult {
    FileResult {
        name: name.to_string(),
        path: "C:\\data".to_string(),
        size: 1,
        modified_date: 0,
        highlighted_name: String::new(),
        highlighted_path: String::new(),
        is_folder: false,
    }
}

fn term(c: &PagedResultCache) -> String {
    c.current_search_term().clone()
}

fn page(prefix: &str, from: usize, count: usize) -> Vec<FileResult> {
    (from..from + count).map(|i| record(&format!("{}-{}", prefix, i))).collect()
}

#[test]
fn ensure_idempotent() {
    let mut c = PagedResultCache::new(100);
    c.set_query("foo".to_string());
    let req = c.ensure_data_available(5);
    assert_eq!(req, Some(PageRequest { offset: 0, max: 100 }));
    c.load_page(&term(&c), 0, page("foo", 0, 10));
    let first = c.record(5).unwrap().name.clone();
    assert_eq!(c.ensure_data_available(5), None);
    assert_eq!(c.record(5).unwrap().name, first);
    assert_eq!(first, "foo-5");
}

#[test]
fn reload_sequence() {
    let mut c = PagedResultCache::new(100);
    c.set_query("foo".to_string());
    let mut calls = 0;
    for index in [0usize, 100, 0] {
        if let Some(req) = c.ensure_data_available(index) {
            calls += 1;
            c.load_page(&term(&c), req.offset, page("foo", req.offset, req.max));
        }
        assert_eq!(c.current_page_offset(), index);
        assert_eq!(c.record(index).unwrap().name, format!("foo-{}", index));
    }
    assert_eq!(calls, 3);
}

#[test]
fn query_switch_invalidation() {
    let mut c = PagedResultCache::new(100);
    c.set_query("foo".to_string());
    let req = c.ensure_data_available(5).unwrap();
    c.load_page(&term(&c), req.offset, page("foo", 0, 100));
    assert_eq!(c.record(5).unwrap().name, "foo-5");
    c.set_query("bar".to_string());
    assert!(c.record(5).is_none());
    let req = c.ensure_data_available(5);
    assert_eq!(req, Some(PageRequest { offset: 0, max: 100 }));
    c.load_page(&term(&c), 0, page("bar", 0, 100));
    assert_eq!(c.record(5).unwrap().name, "bar-5");
}

#[test]
fn same_query_keeps_page() {
    let mut c = PagedResultCache::new(100);
    c.set_query("foo".to_string());
    c.load_page(&term(&c), 0, page("foo", 0, 3));
    c.set_query("foo".to_string());
    assert_eq!(c.resident_len(), 3);
    assert_eq!(c.ensure_data_available(2), None);
}

#[test]
fn index_beyond_short_page_reloads() {
    let mut c = PagedResultCache::new(100);
    c.set_query("foo".to_string());
    c.load_page(&term(&c), 0, page("foo", 0, 3));
    assert!(c.record(7).is_none());
    assert_eq!(c.ensure_data_available(7), Some(PageRequest { offset: 0, max: 100 }));
}

#[test]
fn page_alignment() {
    let mut c = PagedResultCache::new(100);
    c.set_query("foo".to_string());
    assert_eq!(c.page_start(250), 200);
    assert_eq!(c.ensure_data_available(250), Some(PageRequest { offset: 200, max: 100 }));
    c.load_page(&term(&c), 200, page("foo", 200, 100));
    assert_eq!(c.record(250).unwrap().name, "foo-250");
    assert!(c.record(199).is_none());
    assert!(c.record(300).is_none());
    assert_eq!(c.ensure_data_available(299), None);
}

#[test]
fn no_term_fetches_nothing() {
    let mut c = PagedResultCache::new(100);
    assert_eq!(c.ensure_data_available(0), None);
    c.load_page(&String::new(), 0, page("x", 0, 5));
    assert_eq!(c.resident_len(), 0);
    assert!(c.record(0).is_none());
}

#[test]
fn load_keeps_at_most_one_page() {
    let mut c = PagedResultCache::new(4);
    c.set_query("foo".to_string());
    c.load_page(&term(&c), 0, page("foo", 0, 10));
    assert_eq!(c.resident_len(), 4);
    assert!(c.record(4).is_none());
}

#[test]
fn clear_drops_term_and_page() {
    let mut c = PagedResultCache::new(10);
    c.set_query("foo".to_string());
    c.load_page(&term(&c), 10, page("foo", 10, 10));
    c.clear();
    assert_eq!(c.current_search_term(), "");
    assert_eq!(c.current_page_offset(), 0);
    assert_eq!(c.resident_len(), 0);
}

#[test]
fn stale_response_is_dropped() {
    let mut c = PagedResultCache::new(100);
    c.set_query("foo".to_string());
    let req = c.ensure_data_available(5).unwrap();
    c.set_query("bar".to_string());
    c.load_page(&"foo".to_string(), req.offset, page("foo", 0, 100));
    assert_eq!(c.resident_len(), 0);
    assert!(c.record(5).is_none());
    c.load_page(&"bar".to_string(), req.offset, page("bar", 0, 100));
    assert_eq!(c.record(5).unwrap().name, "bar-5");
}
