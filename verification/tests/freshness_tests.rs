use mdbook_drawio::freshness::should_generate;

#[test]
fn regenerates_when_artifact_absent() {
    assert!(should_generate(false, Some(5), Some(10)));
    assert!(should_generate(false, None, None));
}

#[test]
fn regenerates_when_source_mtime_unreadable() {
    assert!(should_generate(true, None, Some(10)));
}

#[test]
fn regenerates_when_artifact_mtime_unreadable() {
    assert!(should_generate(true, Some(10), None));
}

#[test]
fn regenerates_when_source_strictly_newer() {
    assert!(should_generate(true, Some(11), Some(10)));
}

#[test]
fn reuses_when_artifact_as_new_as_source() {
    assert!(!should_generate(true, Some(10), Some(10)));
    assert!(!should_generate(true, Some(9), Some(10)));
}
