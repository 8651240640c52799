use bucketpick::catalog::{
    classify_entry, load_catalog_from_str, load_entries, CatalogError, ConfigEntry, SkipReason,
};

fn v(s: &str) -> Vec<u8> {
    s.as_bytes().to_vec()
}

fn entry(name: &str, resolved: Option<&str>, weight: Option<i64>) -> ConfigEntry {
    ConfigEntry {
        name: name.to_string(),
        resolved: resolved.map(v),
        weight,
    }
}

#[test]
fn a_valid_entry_becomes_a_bucket() {
    let b = classify_entry(entry("pics", Some("/abs/pics"), Some(5))).unwrap();
    assert_eq!(b.path, v("/abs/pics"));
    assert_eq!(b.weight, 5);
}

#[test]
fn zero_and_negative_weights_are_rejected() {
    let s = classify_entry(entry("pics", Some("/abs/pics"), Some(0))).unwrap_err();
    assert_eq!(s.reason, SkipReason::NonPositiveWeight);
    let s = classify_entry(entry("pics", Some("/abs/pics"), Some(-3))).unwrap_err();
    assert_eq!(s.reason, SkipReason::NonPositiveWeight);
}

#[test]
fn unresolved_directories_and_non_integer_weights_are_rejected() {
    let s = classify_entry(entry("gone", None, Some(5))).unwrap_err();
    assert_eq!(s.reason, SkipReason::Unresolvable);
    let s = classify_entry(entry("pics", Some("/abs/pics"), None)).unwrap_err();
    assert_eq!(s.reason, SkipReason::NonIntegerWeight);
}

#[test]
fn one_bad_entry_does_not_abort_the_others() {
    let entries = vec![
        entry("good", Some("/abs/good"), Some(5)),
        entry("gone", None, Some(2)),
        entry("zero", Some("/abs/zero"), Some(0)),
    ];
    let (buckets, skipped) = load_entries(entries);
    assert_eq!(buckets.len(), 1);
    assert_eq!(buckets[0].path, v("/abs/good"));
    assert_eq!(buckets[0].weight, 5);
    assert_eq!(skipped.len(), 2);
    assert_eq!(skipped[0].name, "gone");
    assert_eq!(skipped[0].reason, SkipReason::Unresolvable);
    assert_eq!(skipped[1].name, "zero");
    assert_eq!(skipped[1].reason, SkipReason::NonPositiveWeight);
}

#[test]
fn loading_keeps_the_valid_entry_and_reports_the_missing_one() {
    // "." resolves (the test runs inside the package directory); the other
    // name does not exist, so loading yields exactly one bucket and exactly
    // one diagnostic.
    let doc = "[backgrounds]\n\".\" = 5\n\"no_such_dir_for_this_test\" = 3\n";
    let (buckets, skipped) = load_catalog_from_str(doc, &v(".")).unwrap();
    assert_eq!(buckets.len(), 1);
    assert_eq!(buckets[0].weight, 5);
    let expected = dunce::canonicalize("./.").unwrap();
    assert_eq!(
        buckets[0].path,
        expected.to_string_lossy().into_owned().into_bytes()
    );
    assert_eq!(skipped.len(), 1);
    assert_eq!(skipped[0].name, "no_such_dir_for_this_test");
    assert_eq!(skipped[0].reason, SkipReason::Unresolvable);
}

#[test]
fn loading_drops_zero_and_negative_weights() {
    let doc = "[backgrounds]\n\".\" = 0\n\"..\" = -3\n";
    let (buckets, skipped) = load_catalog_from_str(doc, &v(".")).unwrap();
    assert_eq!(buckets.len(), 0);
    assert_eq!(skipped.len(), 2);
    assert!(skipped
        .iter()
        .all(|s| s.reason == SkipReason::NonPositiveWeight));
}

#[test]
fn loading_drops_non_integer_weights() {
    let doc = "[backgrounds]\n\".\" = \"five\"\n";
    let (buckets, skipped) = load_catalog_from_str(doc, &v(".")).unwrap();
    assert_eq!(buckets.len(), 0);
    assert_eq!(skipped.len(), 1);
    assert_eq!(skipped[0].reason, SkipReason::NonIntegerWeight);
}

#[test]
fn an_empty_backgrounds_table_is_a_valid_empty_catalog() {
    let doc = "[backgrounds]\n";
    let (buckets, skipped) = load_catalog_from_str(doc, &v(".")).unwrap();
    assert_eq!(buckets.len(), 0);
    assert_eq!(skipped.len(), 0);
}

#[test]
fn unparseable_documents_fail_the_whole_load() {
    let r = load_catalog_from_str("this is [[[ not toml", &v("."));
    assert!(matches!(r, Err(CatalogError::Malformed(_))));
}

#[test]
fn a_document_without_a_backgrounds_table_fails_the_load() {
    let r = load_catalog_from_str("title = 3\n", &v("."));
    assert!(matches!(r, Err(CatalogError::Malformed(_))));
    let r = load_catalog_from_str("backgrounds = 5\n", &v("."));
    assert!(matches!(r, Err(CatalogError::Malformed(_))));
}
