use linker::commands::{add_with_time, edit, find_partial_matches, list, remove, LinkUpdate};
use linker::models::{LinkDB, LinkError};

fn tags(names: &[&str]) -> Vec<String> {
    names.iter().map(|s| s.to_string()).collect()
}

fn no_update() -> LinkUpdate {
    LinkUpdate { title: None, description: None, url: None, tags: None }
}

fn sample_db() -> LinkDB {
    let mut db = LinkDB::new();
    linker::commands::add(&mut db, "Rust Docs", None, "https://doc.rust-lang.org", &tags(&["rust", "docs"]))
        .unwrap();
    linker::commands::add(&mut db, "My Site", Some("personal"), "https://example.com", &tags(&[])).unwrap();
    linker::commands::add(&mut db, "Crates", None, "https://crates.io", &tags(&["rust", "packages"])).unwrap();
    db
}

#[test]
fn ids_strictly_increase_from_one() {
    let db = sample_db();
    assert_eq!(db.links.len(), 3);
    assert_eq!(db.links[0].id, 1);
    assert_eq!(db.links[1].id, 2);
    assert_eq!(db.links[2].id, 3);
}

#[test]
fn id_of_removed_max_not_below_later_ids() {
    let mut db = sample_db();
    remove(&mut db, &2).unwrap();
    let r = linker::commands::add(&mut db, "Docs2", None, "https://docs.rs", &tags(&[])).unwrap();
    assert_eq!(r, 4);
}

#[test]
fn duplicate_url_rejected_store_unchanged() {
    let mut db = sample_db();
    let r = linker::commands::add(&mut db, "Another", None, "https://example.com", &tags(&["x"]));
    assert_eq!(r, Err(LinkError::DuplicateURL));
    assert_eq!(db.links.len(), 3);
    assert_eq!(db.links[1].title, "My Site");
}

#[test]
fn duplicate_title_rejected_case_insensitive() {
    let mut db = sample_db();
    let r = linker::commands::add(&mut db, "mY sItE", None, "https://other.example", &tags(&[]));
    assert_eq!(r, Err(LinkError::DuplicateTitle));
    assert_eq!(db.links.len(), 3);
}

#[test]
fn invalid_url_rejected_store_unchanged() {
    let mut db = LinkDB::new();
    let r = linker::commands::add(&mut db, "Example", None, "not-a-url", &tags(&[]));
    assert_eq!(r, Err(LinkError::InvalidURL));
    assert!(db.links.is_empty());
}

#[test]
fn valid_url_accepted() {
    let mut db = LinkDB::new();
    let r = linker::commands::add(&mut db, "Example", None, "https://example.org/a?b=c", &tags(&[]));
    assert_eq!(r, Ok(1));
    assert_eq!(db.links[0].url, "https://example.org/a?b=c");
}

#[test]
fn remove_present_deletes_exactly_that_record() {
    let mut db = sample_db();
    let r = remove(&mut db, &2);
    assert_eq!(r, Ok(2));
    assert_eq!(db.links.len(), 2);
    assert_eq!(db.links[0].id, 1);
    assert_eq!(db.links[0].title, "Rust Docs");
    assert_eq!(db.links[1].id, 3);
    assert_eq!(db.links[1].title, "Crates");
}

#[test]
fn remove_absent_reports_not_found() {
    let mut db = sample_db();
    let r = remove(&mut db, &7);
    assert_eq!(r, Err(LinkError::NotFound));
    assert_eq!(db.links.len(), 3);
}

#[test]
fn search_returns_exact_subset_in_order() {
    let db = sample_db();
    let r = db.search("rust");
    assert_eq!(r.len(), 2);
    assert_eq!(r[0].title, "Rust Docs");
    assert_eq!(r[1].title, "Crates");
}

#[test]
fn search_empty_query_returns_all() {
    let db = sample_db();
    let r = db.search("");
    assert_eq!(r.len(), 3);
}

#[test]
fn search_is_case_insensitive() {
    let db = sample_db();
    let r = db.search("RUST");
    assert_eq!(r.len(), 2);
    let r2 = db.search("EXAMPLE.COM");
    assert_eq!(r2.len(), 1);
    assert_eq!(r2[0].title, "My Site");
}

#[test]
fn search_matches_tags() {
    let db = sample_db();
    let r = db.search("packages");
    assert_eq!(r.len(), 1);
    assert_eq!(r[0].title, "Crates");
}

#[test]
fn search_no_results() {
    let db = sample_db();
    assert!(db.search("zebra").is_empty());
}

#[test]
fn find_partial_matches_agrees_with_search() {
    let db = sample_db();
    let r = find_partial_matches(&db.links, "rust");
    assert_eq!(r.len(), 2);
    assert_eq!(r[0].title, "Rust Docs");
    assert_eq!(r[1].title, "Crates");
    let one = find_partial_matches(&db.links, "doc");
    assert_eq!(one.len(), 1);
    assert_eq!(one[0].title, "Rust Docs");
}

#[test]
fn resolve_numeric_target_matches_id_regardless_of_title() {
    let db = sample_db();
    let r = db.resolve("3");
    assert_eq!(r, Some(2));
    assert_eq!(db.links[2].id, 3);
}

#[test]
fn resolve_title_case_insensitive() {
    let db = sample_db();
    let r = db.resolve("my site");
    assert_eq!(r, Some(1));
}

#[test]
fn resolve_accepts_plus_sign() {
    let db = sample_db();
    assert_eq!(db.resolve("+2"), Some(1));
}

#[test]
fn resolve_numeric_miss_falls_back_to_title() {
    let mut db = LinkDB::new();
    linker::commands::add(&mut db, "42", None, "https://q.example", &tags(&[])).unwrap();
    assert_eq!(db.resolve("42"), Some(0));
}

#[test]
fn resolve_huge_number_matches_title() {
    let mut db = LinkDB::new();
    linker::commands::add(&mut db, "99999999999999999999999999", None, "https://big.example", &tags(&[]))
        .unwrap();
    assert_eq!(db.resolve("99999999999999999999999999"), Some(0));
}

#[test]
fn resolve_absent_is_none() {
    let db = sample_db();
    assert_eq!(db.resolve("nothing here"), None);
}

#[test]
fn edit_replaces_trimmed_title() {
    let mut db = sample_db();
    let r = edit(
        &mut db,
        "1",
        LinkUpdate { title: Some("  New Title  ".to_string()), ..no_update() },
    );
    assert_eq!(r, Ok(1));
    assert_eq!(db.links[0].title, "New Title");
    assert_eq!(db.links[0].url, "https://doc.rust-lang.org");
}

#[test]
fn edit_whitespace_title_leaves_field_unchanged() {
    let mut db = sample_db();
    edit(&mut db, "1", LinkUpdate { title: Some("   ".to_string()), ..no_update() }).unwrap();
    assert_eq!(db.links[0].title, "Rust Docs");
}

#[test]
fn edit_empty_description_clears_it() {
    let mut db = sample_db();
    assert_eq!(db.links[1].description.as_deref(), Some("personal"));
    edit(&mut db, "My Site", LinkUpdate { description: Some(String::new()), ..no_update() })
        .unwrap();
    assert_eq!(db.links[1].description, None);
}

#[test]
fn edit_empty_tags_input_clears_tags() {
    let mut db = sample_db();
    edit(&mut db, "1", LinkUpdate { tags: Some("  ".to_string()), ..no_update() }).unwrap();
    assert!(db.links[0].tags.is_empty());
}

#[test]
fn edit_tags_are_split_trimmed_and_cleaned() {
    let mut db = sample_db();
    edit(&mut db, "1", LinkUpdate { tags: Some(" a, , b c ,,d ".to_string()), ..no_update() })
        .unwrap();
    assert_eq!(db.links[0].tags, vec!["a".to_string(), "b c".to_string(), "d".to_string()]);
}

#[test]
fn edit_absent_target_reports_not_found() {
    let mut db = sample_db();
    let r = edit(&mut db, "missing", no_update());
    assert_eq!(r, Err(LinkError::NotFound));
    assert_eq!(db.links.len(), 3);
}

#[test]
fn edit_updates_url_without_revalidation() {
    let mut db = sample_db();
    edit(&mut db, "2", LinkUpdate { url: Some("still-not-checked".to_string()), ..no_update() })
        .unwrap();
    assert_eq!(db.links[1].url, "still-not-checked");
}

#[test]
fn add_with_time_stamps_the_given_time() {
    let mut db = LinkDB::new();
    add_with_time(&mut db, "T", None, "https://t.example", &tags(&[]), 123456789).unwrap();
    assert_eq!(db.links[0].added, 123456789);
}

#[test]
fn list_returns_all_links_in_order() {
    let db = sample_db();
    let all = list(&db);
    assert_eq!(all.len(), 3);
    assert_eq!(all[0].title, "Rust Docs");
    assert_eq!(all[2].title, "Crates");
}

#[test]
fn scenario_add_search_remove() {
    let mut db = LinkDB::new();
    let id = linker::commands::add(&mut db, "Rust Docs", None, "https://doc.rust-lang.org", &tags(&["rust", "docs"]))
        .unwrap();
    assert_eq!(id, 1);
    let found = db.search("rust");
    assert_eq!(found.len(), 1);
    assert_eq!(found[0].id, 1);
    assert_eq!(remove(&mut db, &1), Ok(1));
    assert!(db.links.is_empty());
    assert_eq!(remove(&mut db, &1), Err(LinkError::NotFound));
}

#[test]
fn add_stores_description_and_tags() {
    let mut db = LinkDB::new();
    linker::commands::add(
        &mut db,
        "Docs",
        Some("the reference"),
        "https://example.net",
        &tags(&["a", "b"]),
    )
    .unwrap();
    assert_eq!(db.links[0].description.as_deref(), Some("the reference"));
    assert_eq!(db.links[0].tags, vec!["a".to_string(), "b".to_string()]);
}

#[test]
fn edit_does_not_recheck_title_uniqueness() {
    let mut db = sample_db();
    let r = edit(&mut db, "1", LinkUpdate { title: Some("Crates".to_string()), ..no_update() });
    assert_eq!(r, Ok(1));
    assert_eq!(db.links[0].title, "Crates");
    assert_eq!(db.links[2].title, "Crates");
}
