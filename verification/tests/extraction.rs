use rust_scrapper::extract::{
    any_nonempty, extract_values, join_text, records_from_matches, scrape_data, select_all,
    value_of, MatchedElement, ScrapeError, SelectorMatches,
};
use rust_scrapper::selectors::SelectorSpec;
use rust_scrapper::text::clean_text;

fn selectors(pairs: &[(&str, &str)]) -> SelectorSpec {
    let mut spec = SelectorSpec::new();
    for (name, expr) in pairs {
        spec.insert(name.to_string(), expr.to_string());
    }
    spec
}

fn element(nodes: &[&str], link: Option<&str>) -> MatchedElement {
    MatchedElement {
        text_nodes: nodes.iter().map(|s| s.to_string()).collect(),
        link: link.map(|s| s.to_string()),
    }
}

#[test]
fn clean_text_trims_and_collapses() {
    assert_eq!(clean_text("  a \t\n b  "), "a b");
    assert_eq!(clean_text("a\u{a0}\u{2003}b"), "a b");
    assert_eq!(clean_text("x"), "x");
    assert_eq!(clean_text(""), "");
    assert_eq!(clean_text(" \r\n "), "");
    assert_eq!(clean_text("one  two   three"), "one two three");
}

#[test]
fn clean_text_keeps_non_whitespace() {
    assert_eq!(clean_text("a\u{200b}b"), "a\u{200b}b");
    assert_eq!(clean_text("a\u{180e}b"), "a\u{180e}b");
    assert_eq!(clean_text("\u{3000}wide\u{3000}"), "wide");
}

#[test]
fn clean_text_is_idempotent_on_samples() {
    for sample in ["  a   b ", "\t\tx\ny\r\n", "", "   ", "a", " a \u{85} b\u{2028}c "] {
        let once = clean_text(sample);
        assert_eq!(clean_text(&once), once);
    }
}

#[test]
fn join_text_puts_one_space_between_nodes() {
    assert_eq!(join_text(&vec![]), "");
    assert_eq!(join_text(&vec!["a".to_string()]), "a");
    assert_eq!(join_text(&vec!["a".to_string(), "b".to_string(), "".to_string()]), "a b ");
}

#[test]
fn value_of_prefers_text_over_link() {
    assert_eq!(value_of(&element(&[" Hello ", "\n world"], Some("/x"))), Some("Hello world".to_string()));
    assert_eq!(value_of(&element(&["  ", "\n"], Some("/x"))), Some("/x".to_string()));
    assert_eq!(value_of(&element(&[], Some(""))), Some(String::new()));
    assert_eq!(value_of(&element(&[" "], None)), None);
}

#[test]
fn extract_values_skips_elements_without_value() {
    let elements = vec![
        element(&["a"], None),
        element(&[], None),
        element(&[], Some("/l")),
        element(&["b", "c"], Some("/m")),
    ];
    assert_eq!(extract_values(&elements), vec!["a", "/l", "b c"]);
}

#[test]
fn records_from_matches_omits_selectors_without_values() {
    let matches = vec![
        SelectorMatches { name: "empty".to_string(), elements: vec![element(&[" "], None)] },
        SelectorMatches { name: "title".to_string(), elements: vec![element(&["T"], None)] },
        SelectorMatches { name: "none".to_string(), elements: vec![] },
    ];
    let records = records_from_matches(&matches);
    assert_eq!(records.len(), 1);
    assert_eq!(records[0].selector_name, "title");
    assert_eq!(records[0].values, vec!["T"]);
}

#[test]
fn any_nonempty_looks_for_a_value_that_is_not_empty() {
    assert!(!any_nonempty(&vec![]));
    assert!(!any_nonempty(&vec![String::new()]));
    assert!(!any_nonempty(&vec![String::new(), String::new()]));
    assert!(any_nonempty(&vec!["a".to_string()]));
    assert!(any_nonempty(&vec![String::new(), "/x".to_string(), String::new()]));
}

#[test]
fn records_from_matches_omits_a_selector_with_empty_values_only() {
    let matches = vec![
        SelectorMatches { name: "link".to_string(), elements: vec![element(&[], Some(""))] },
        SelectorMatches {
            name: "links".to_string(),
            elements: vec![element(&[" "], Some("")), element(&[], Some(""))],
        },
    ];
    assert!(records_from_matches(&matches).is_empty());
}

#[test]
fn records_from_matches_keeps_empty_values_beside_one_that_is_not() {
    let matches = vec![SelectorMatches {
        name: "link".to_string(),
        elements: vec![element(&[], Some("")), element(&[], Some("/x")), element(&[], None)],
    }];
    let records = records_from_matches(&matches);
    assert_eq!(records.len(), 1);
    assert_eq!(records[0].selector_name, "link");
    assert_eq!(records[0].values, vec!["", "/x"]);
}

#[test]
fn select_all_reads_text_nodes_and_links() {
    let html = "<html><body><p>one <b>two</b></p><a href=\"/x\"></a></body></html>";
    let found = select_all(html, &selectors(&[("p", "p"), ("a", "a")])).unwrap();
    assert_eq!(found.len(), 2);
    assert_eq!(found[0].name, "p");
    assert_eq!(found[0].elements.len(), 1);
    assert_eq!(found[0].elements[0].text_nodes, vec!["one ", "two"]);
    assert_eq!(found[0].elements[0].link, None);
    assert_eq!(found[1].elements.len(), 1);
    assert!(found[1].elements[0].text_nodes.is_empty());
    assert_eq!(found[1].elements[0].link, Some("/x".to_string()));
}

#[test]
fn scrape_data_title_and_links() {
    let html = "<html><body><h1>Hello</h1><a href=\"/x\"></a><a href=\"/x\"></a></body></html>";
    let records = scrape_data(html, &selectors(&[("title", "h1"), ("link", "a")])).unwrap();
    assert_eq!(records.len(), 2);
    assert_eq!(records[0].selector_name, "title");
    assert_eq!(records[0].values, vec!["Hello"]);
    assert_eq!(records[1].selector_name, "link");
    assert_eq!(records[1].values, vec!["/x", "/x"]);
}

#[test]
fn scrape_data_never_gives_an_empty_record() {
    let html = "<html><body><h1> </h1><p>text</p><a></a></body></html>";
    let records =
        scrape_data(html, &selectors(&[("h", "h1"), ("p", "p"), ("a", "a"), ("d", "div")])).unwrap();
    assert_eq!(records.len(), 1);
    for record in &records {
        assert!(!record.values.is_empty());
        assert!(record.values.iter().any(|v| !v.is_empty()));
    }
    assert_eq!(records[0].selector_name, "p");
}

#[test]
fn scrape_data_omits_a_selector_whose_only_link_is_empty() {
    let html = "<a href=''></a>";
    let records = scrape_data(html, &selectors(&[("link", "a")])).unwrap();
    assert!(records.is_empty());
}

#[test]
fn scrape_data_omits_a_selector_whose_links_are_all_empty() {
    let html = "<html><body><h1>T</h1><a href=\"\"></a><a href=\"\"> </a></body></html>";
    let records = scrape_data(html, &selectors(&[("link", "a"), ("title", "h1")])).unwrap();
    assert_eq!(records.len(), 1);
    assert_eq!(records[0].selector_name, "title");
    assert_eq!(records[0].values, vec!["T"]);
}

#[test]
fn scrape_data_keeps_an_empty_link_beside_one_that_is_not() {
    let html = "<html><body><a href=\"\"></a><a href=\"/x\"></a></body></html>";
    let records = scrape_data(html, &selectors(&[("link", "a")])).unwrap();
    assert_eq!(records.len(), 1);
    assert_eq!(records[0].values, vec!["", "/x"]);
}

#[test]
fn scrape_data_normalizes_inner_whitespace() {
    let html = "<html><body><p>\n  a\n  <i> b </i>\tc  </p></body></html>";
    let records = scrape_data(html, &selectors(&[("p", "p")])).unwrap();
    assert_eq!(records[0].values, vec!["a b c"]);
}

#[test]
fn scrape_data_rejects_an_invalid_selector() {
    let html = "<html><body><h1>Hello</h1></body></html>";
    let err = scrape_data(html, &selectors(&[("title", "h1"), ("bad", "a[["), ("worse", "]]")]))
        .unwrap_err();
    assert!(matches!(&err, ScrapeError::InvalidSelector(e) if e == "a[["));
    assert_eq!(err.message(), "Invalid selector: a[[");
}
