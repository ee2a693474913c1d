use autogitignore::catalog::{
    lookup_content, snapshot_from_cache_text, snapshot_from_catalog_text, snapshot_from_parts,
    snapshot_from_records, sort_unique,
};

fn s(x: &str) -> String {
    String::from(x)
}

#[test]
fn records_are_sorted_and_deduplicated() {
    let snap = snapshot_from_records(vec![
        (s("rust"), s("target/")),
        (s("node"), s("node_modules/")),
        (s("rust"), s("Cargo.lock")),
    ]);
    assert_eq!(snap.templates, vec![s("node"), s("rust")]);
    // The record seen last gives the content.
    assert_eq!(lookup_content(&snap.contents, "rust"), Some(&s("Cargo.lock")));
    assert_eq!(lookup_content(&snap.contents, "node"), Some(&s("node_modules/")));
    assert_eq!(lookup_content(&snap.contents, "missing"), None);
}

#[test]
fn sort_unique_keeps_exactly_the_set() {
    let sorted = sort_unique(vec![s("b"), s("a"), s("b"), s("c"), s("a")]);
    assert_eq!(sorted, vec![s("a"), s("b"), s("c")]);
}

#[test]
fn snapshot_from_parts_normalizes_names() {
    let snap = snapshot_from_parts(
        vec![s("z"), s("a"), s("z")],
        vec![(s("a"), s("1"))],
    );
    assert_eq!(snap.templates, vec![s("a"), s("z")]);
    assert_eq!(lookup_content(&snap.contents, "a"), Some(&s("1")));
}

#[test]
fn malformed_cache_json_is_a_cache_miss() {
    // Corruption yields no snapshot, never an error.
    assert!(snapshot_from_cache_text("this is not json").is_none());
    assert!(snapshot_from_cache_text("").is_none());
    assert!(snapshot_from_cache_text("{\"templates\": 3}").is_none());
    assert!(snapshot_from_cache_text("{\"templates\": [\"a\"]}").is_none());
    assert!(snapshot_from_cache_text("[1, 2, 3]").is_none());
}

#[test]
fn well_formed_cache_json_loads() {
    let text = "{\"templates\": [\"rust\", \"node\"], \"contents\": \
                {\"rust\": \"target/\", \"node\": \"node_modules/\"}}";
    let snap = snapshot_from_cache_text(text).unwrap();
    assert_eq!(snap.templates, vec![s("node"), s("rust")]);
    assert_eq!(lookup_content(&snap.contents, "rust"), Some(&s("target/")));
}

#[test]
fn catalog_json_builds_a_sorted_snapshot() {
    let text = "{\"zkey\": {\"name\": \"rust\", \"contents\": \"target/\"}, \
                \"akey\": {\"name\": \"node\", \"contents\": \"node_modules/\"}}";
    let snap = snapshot_from_catalog_text(text).unwrap();
    assert_eq!(snap.templates, vec![s("node"), s("rust")]);
    assert_eq!(lookup_content(&snap.contents, "node"), Some(&s("node_modules/")));
}

#[test]
fn catalog_json_with_wrong_shape_fails() {
    assert!(snapshot_from_catalog_text("not json").is_none());
    assert!(snapshot_from_catalog_text("{\"k\": {\"name\": \"a\"}}").is_none());
    assert!(snapshot_from_catalog_text("{\"k\": 5}").is_none());
}

#[test]
fn last_pair_wins_in_lookup() {
    let pairs = vec![(s("a"), s("first")), (s("a"), s("second"))];
    assert_eq!(lookup_content(&pairs, "a"), Some(&s("second")));
}
