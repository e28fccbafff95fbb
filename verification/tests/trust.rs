use jbx::trust::{
    is_trusted_remote, parse_trust_entries, render_trust_entries, trust_add, trust_remove,
    trusted_remote_hash, write_trust_entry, RemoteRelativeResource,
};

fn e(u: &str, h: &str) -> (String, String) {
    (u.to_string(), h.to_string())
}

#[test]
fn trust_store_text_is_parsed_sorted_and_rendered() {
    let text = "https://b/x\th2\nbroken line\nhttps://a/y\th1\n\tmissing\nhttps://c/z\t\n";
    let entries = parse_trust_entries(text);
    assert_eq!(entries, vec![e("https://a/y", "h1"), e("https://b/x", "h2")]);
    assert_eq!(render_trust_entries(&entries), "https://a/y\th1\nhttps://b/x\th2\n");
    assert_eq!(parse_trust_entries(&render_trust_entries(&entries)), entries);
}

#[test]
fn writing_an_entry_replaces_and_sorts() {
    let entries = vec![e("https://c", "1"), e("https://a", "2")];
    let written = write_trust_entry(&entries, "https://b", "3");
    assert_eq!(written, vec![e("https://a", "2"), e("https://b", "3"), e("https://c", "1")]);
    let rewritten = write_trust_entry(&written, "https://b", "4");
    assert_eq!(rewritten, vec![e("https://a", "2"), e("https://b", "4"), e("https://c", "1")]);
    assert!(is_trusted_remote(&rewritten, "https://b", "4"));
    assert!(!is_trusted_remote(&rewritten, "https://b", "3"));
}

#[test]
fn removing_reports_whether_an_entry_was_there() {
    let entries = vec![e("https://a", "1"), e("https://b", "2")];
    let (kept, removed) = trust_remove("https://a", &entries);
    assert!(removed);
    assert_eq!(kept, vec![e("https://b", "2")]);
    let (same, removed_again) = trust_remove("https://zzz", &kept);
    assert!(!removed_again);
    assert_eq!(same, kept);
}

#[test]
fn trusted_hash_covers_source_and_resources() {
    let none = trusted_remote_hash("class A {}", &[]);
    assert_eq!(none.len(), 64);
    assert!(none.chars().all(|c| c.is_ascii_hexdigit() && !c.is_ascii_uppercase()));
    let res = vec![RemoteRelativeResource {
        resource_ref: "B.java".into(),
        url: "https://e/B.java".into(),
        body: "class B {}".into(),
    }];
    let with = trusted_remote_hash("class A {}", &res);
    assert_ne!(none, with);
    assert_eq!(with, trusted_remote_hash("class A {}", &res));
}

#[test]
fn trust_add_requires_a_remote_url_and_records_the_hash() {
    assert!(trust_add("Local.java", "x", &[], &[]).is_err());
    let (hash, entries) = trust_add("https://e/A.java", "class A {}", &[], &[e("https://e/A.java", "old")]).unwrap();
    assert_eq!(hash, trusted_remote_hash("class A {}", &[]));
    assert_eq!(entries, vec![("https://e/A.java".to_string(), hash.clone())]);
    // Removing right after adding leaves no entry for the URL.
    let (kept, removed) = trust_remove("https://e/A.java", &entries);
    assert!(removed);
    assert!(kept.is_empty());
}
