use webwatcher::detect::check_page;
use webwatcher::fingerprint::fingerprint;
use webwatcher::store::{record_name, StateStore};

#[test]
fn first_observation_reports_change_and_stores() {
    let mut store = StateStore::new();
    let name = record_name("http://a.test");
    let fp = fingerprint(&b"page content".to_vec());
    assert!(store.compare_and_store(&name, &fp));
    let stored = store.get_record(&name).expect("record must exist after first store");
    assert_eq!(stored, &fp);
}

#[test]
fn same_fingerprint_twice_reports_change_then_none() {
    let mut store = StateStore::new();
    let name = record_name("http://a.test");
    let fp = fingerprint(&b"stable content".to_vec());
    assert!(store.compare_and_store(&name, &fp));
    assert!(!store.compare_and_store(&name, &fp));
    assert_eq!(store.get_record(&name), Some(&fp));
}

#[test]
fn different_fingerprint_reports_change_and_overwrites() {
    let mut store = StateStore::new();
    let name = record_name("http://a.test");
    let f1 = fingerprint(&b"old content".to_vec());
    let f2 = fingerprint(&b"new content".to_vec());
    assert_ne!(f1, f2);
    assert!(store.compare_and_store(&name, &f1));
    assert!(store.compare_and_store(&name, &f2));
    let stored = store.get_record(&name).expect("record must exist");
    assert_eq!(stored, &f2);
    assert_eq!(stored.len(), 32);
}

#[test]
fn records_of_distinct_urls_are_independent() {
    let name_a = record_name("http://a.test");
    let name_b = record_name("http://a.test2");
    assert_ne!(name_a, name_b);

    let mut store = StateStore::new();
    let fp_a = fingerprint(&b"content a".to_vec());
    let fp_b = fingerprint(&b"content b".to_vec());
    assert!(store.compare_and_store(&name_a, &fp_a));
    assert!(store.compare_and_store(&name_b, &fp_b));

    let fp_a2 = fingerprint(&b"content a changed".to_vec());
    assert!(store.compare_and_store(&name_a, &fp_a2));
    assert_eq!(store.get_record(&name_b), Some(&fp_b));
    assert_eq!(store.get_record(&name_a), Some(&fp_a2));
}

#[test]
fn record_name_uses_prefix_and_base64() {
    assert_eq!(record_name("http://a.test"), "web_watcher_aHR0cDovL2EudGVzdA==");
    assert_eq!(record_name("http://b.test"), "web_watcher_aHR0cDovL2IudGVzdA==");
    assert_eq!(record_name(""), "web_watcher_");
}

#[test]
fn record_names_of_prefix_sharing_urls_differ() {
    let names = [
        record_name("http://a.test"),
        record_name("http://a.test2"),
        record_name("u1"),
        record_name("u2"),
    ];
    for i in 0..names.len() {
        for j in 0..names.len() {
            if i != j {
                assert_ne!(names[i], names[j]);
            }
        }
    }
}

#[test]
fn loaded_record_is_compared_against() {
    let mut store = StateStore::new();
    let name = record_name("http://a.test");
    let fp = fingerprint(&b"persisted content".to_vec());
    store.load_record(name.clone(), fp.clone());
    assert!(!store.compare_and_store(&name, &fp));
    let other = fingerprint(&b"fresh content".to_vec());
    assert!(store.compare_and_store(&name, &other));
}

#[test]
fn duplicate_url_is_checked_independently() {
    let mut store = StateStore::new();
    let body = b"same page".to_vec();
    assert!(check_page(&mut store, "http://a.test", &body));
    assert!(!check_page(&mut store, "http://a.test", &body));
}
