use rust_scrapper::paginate::{
    contains_char, decimal_string, page_url, PageStep, Pagination, PAGE_DELAY_MS,
};
use rust_scrapper::record::ScrapedData;

fn record(name: &str, values: &[&str]) -> ScrapedData {
    ScrapedData {
        selector_name: name.to_string(),
        values: values.iter().map(|v| v.to_string()).collect(),
    }
}

#[test]
fn page_url_appends_the_page_parameter() {
    assert_eq!(page_url("https://example.com/list", 2), "https://example.com/list?page=2");
    assert_eq!(
        page_url("https://example.com/list?cat=5", 2),
        "https://example.com/list?cat=5&page=2"
    );
}

#[test]
fn page_url_leaves_the_first_page_alone() {
    assert_eq!(page_url("https://example.com/list", 1), "https://example.com/list");
    assert_eq!(page_url("https://example.com/list?cat=5", 1), "https://example.com/list?cat=5");
}

#[test]
fn page_url_writes_every_digit() {
    assert_eq!(page_url("u", 10), "u?page=10");
    assert_eq!(page_url("u?", 1234567890), "u?&page=1234567890");
    assert_eq!(page_url("u", 0), "u?page=0");
}

#[test]
fn decimal_string_matches_std() {
    for n in [0usize, 1, 9, 10, 11, 99, 100, 101, 4096, usize::MAX] {
        assert_eq!(decimal_string(n), n.to_string());
    }
}

#[test]
fn contains_char_finds_a_character() {
    assert!(contains_char("a?b", '?'));
    assert!(!contains_char("ab", '?'));
    assert!(!contains_char("", '?'));
    assert!(contains_char("é?", '?'));
}

#[test]
fn crawl_stops_at_an_empty_page() {
    let mut crawl = Pagination::new(10);
    assert_eq!(crawl.next_page(), Some(1));
    assert_eq!(crawl.absorb(vec![record("t", &["a"])]), PageStep::Continue(500));
    assert_eq!(crawl.next_page(), Some(2));
    assert_eq!(crawl.absorb(vec![]), PageStep::EndOfResults);
    assert_eq!(crawl.next_page(), None);
    assert_eq!(crawl.fetched(), 2);
    let records = crawl.into_records();
    assert_eq!(records.len(), 1);
}

#[test]
fn crawl_never_fetches_beyond_the_limit() {
    for limit in 0..5usize {
        let mut crawl = Pagination::new(limit);
        let mut fetches = 0;
        while let Some(page) = crawl.next_page() {
            fetches += 1;
            assert_eq!(page, fetches);
            crawl.absorb(vec![record("t", &["v"])]);
        }
        assert_eq!(fetches, limit);
        assert_eq!(crawl.into_records().len(), limit);
    }
}

#[test]
fn crawl_stops_exactly_at_the_first_empty_page() {
    for empty_at in 1..=4usize {
        let mut crawl = Pagination::new(6);
        let mut fetches = 0;
        while let Some(page) = crawl.next_page() {
            fetches += 1;
            let data = if page == empty_at { vec![] } else { vec![record("t", &["v"])] };
            crawl.absorb(data);
        }
        assert_eq!(fetches, empty_at);
    }
}

#[test]
fn crawl_stops_at_the_page_limit() {
    let mut crawl = Pagination::new(2);
    assert_eq!(crawl.absorb(vec![record("t", &["a"])]), PageStep::Continue(PAGE_DELAY_MS));
    assert_eq!(crawl.next_page(), Some(2));
    assert_eq!(crawl.absorb(vec![record("t", &["b"])]), PageStep::LimitReached);
    assert_eq!(crawl.next_page(), None);
    assert_eq!(crawl.fetched(), 2);
}

#[test]
fn crawl_of_no_pages_fetches_nothing() {
    let crawl = Pagination::new(0);
    assert_eq!(crawl.max_pages(), 0);
    assert_eq!(crawl.fetched(), 0);
    assert_eq!(crawl.next_page(), None);
    assert!(crawl.into_records().is_empty());
}

#[test]
fn crawl_stops_on_an_empty_first_page() {
    let mut crawl = Pagination::new(5);
    assert_eq!(crawl.absorb(vec![]), PageStep::EndOfResults);
    assert_eq!(crawl.next_page(), None);
    assert_eq!(crawl.fetched(), 1);
}

#[test]
fn crawl_keeps_records_page_after_page() {
    let mut crawl = Pagination::new(3);
    crawl.absorb(vec![record("title", &["a"]), record("link", &["/1"])]);
    crawl.absorb(vec![record("title", &["b", "c"])]);
    let records = crawl.into_records();
    assert_eq!(records.len(), 3);
    assert_eq!(records[0].selector_name, "title");
    assert_eq!(records[0].values, vec!["a"]);
    assert_eq!(records[1].selector_name, "link");
    assert_eq!(records[2].selector_name, "title");
    assert_eq!(records[2].values, vec!["b", "c"]);
}
