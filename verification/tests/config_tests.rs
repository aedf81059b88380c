use webwatcher::config::split_urls;

#[test]
fn splits_two_urls_on_space() {
    let urls = split_urls("http://a.test http://b.test");
    assert_eq!(urls, vec!["http://a.test".to_string(), "http://b.test".to_string()]);
}

#[test]
fn splits_on_mixed_whitespace() {
    let urls = split_urls("  a\tb\nc\r d  ");
    assert_eq!(urls, vec!["a", "b", "c", "d"]);
}

#[test]
fn empty_value_yields_no_urls() {
    assert!(split_urls("").is_empty());
    assert!(split_urls("   \t\n  ").is_empty());
}

#[test]
fn single_url_without_whitespace() {
    assert_eq!(split_urls("http://a.test"), vec!["http://a.test"]);
}

#[test]
fn duplicate_urls_are_kept() {
    let urls = split_urls("http://a.test http://a.test");
    assert_eq!(urls.len(), 2);
    assert_eq!(urls[0], urls[1]);
}
