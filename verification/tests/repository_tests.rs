use distributed_doc_system::document::Document;
use distributed_doc_system::repository::{history_name_text, publication_topic, Repository};

fn named(id: &str, name: &str) -> Document {
    Document::with_id(id.to_string(), name.to_string(), "c".to_string())
}

#[test]
fn new_repository_is_empty() {
    let r = Repository::new();
    assert!(r.get_all_documents().is_empty());
    assert!(r.get_single_document(&"x".to_string()).is_none());
}

#[test]
fn created_document_is_found() {
    let mut r = Repository::new();
    let d = r.create_document("Plan".to_string(), "web".to_string());
    let found = r.get_single_document(&d.doc_id).unwrap();
    assert_eq!(found.doc_id, d.doc_id);
    assert_eq!(found.name, "Plan");
    assert_eq!(found.winning_client_id, "web");
    assert_eq!(r.get_all_documents().len(), 1);
}

#[test]
fn listing_is_ordered_by_name() {
    let mut r = Repository::new();
    r.insert("k1".to_string(), named("k1", "Doc1.1"));
    r.insert("k2".to_string(), named("k2", "Doc1"));
    r.insert("k3".to_string(), named("k3", "Alpha"));
    r.insert("k4".to_string(), named("k4", "Doc1"));
    let all = r.get_all_documents();
    let names: Vec<&str> = all.iter().map(|d| d.name.as_str()).collect();
    assert_eq!(names, vec!["Alpha", "Doc1", "Doc1", "Doc1.1"]);
    let mut ids: Vec<&str> = all.iter().map(|d| d.doc_id.as_str()).collect();
    ids.sort();
    assert_eq!(ids, vec!["k1", "k2", "k3", "k4"]);
}

#[test]
fn insert_replaces_under_the_same_key() {
    let mut r = Repository::new();
    r.insert("k".to_string(), named("k", "A"));
    r.insert("k".to_string(), named("k", "B"));
    assert_eq!(r.get_all_documents().len(), 1);
    assert_eq!(r.get_single_document(&"k".to_string()).unwrap().name, "B");
}

#[test]
fn update_of_missing_document_fails() {
    let mut r = Repository::new();
    let res = r.update_document("nope".to_string(), "c".to_string(), 0, "a".to_string());
    assert_eq!(res.unwrap_err(), "Document introuvable");
    assert!(r.get_all_documents().is_empty());
}

#[test]
fn taken_update_keeps_history() {
    let mut r = Repository::new();
    let d = r.create_document("Notes".to_string(), "web".to_string());
    let updated = r.update_document(d.doc_id.clone(), "hello".to_string(), 0, "alice".to_string()).unwrap();
    assert_eq!(updated.version, 1);
    assert_eq!(updated.content, "hello");
    assert_eq!(updated.winning_client_id, "alice");
    let stored = r.get_single_document(&d.doc_id).unwrap();
    assert_eq!(stored.version, 1);
    assert_eq!(stored.content, "hello");
    let all = r.get_all_documents();
    assert_eq!(all.len(), 2);
    let history: Vec<&Document> = all.iter().filter(|x| x.name != "Notes").collect();
    assert_eq!(history.len(), 1);
    assert_eq!(history[0].name, "📜 Notes.1");
    assert_eq!(history[0].content, "hello");
    assert_eq!(history[0].version, 1);
    assert_eq!(history[0].doc_id, d.doc_id);
    assert_eq!(all[0].name, "Notes");
}

#[test]
fn refused_update_changes_nothing() {
    let mut r = Repository::new();
    let d = r.create_document("Notes".to_string(), "m".to_string());
    r.update_document(d.doc_id.clone(), "one".to_string(), 0, "m".to_string()).unwrap();
    let res = r.update_document(d.doc_id.clone(), "two".to_string(), 0, "z".to_string());
    assert_eq!(res.unwrap_err(), "Conflit : Priorité lexicographique insuffisante.");
    let res = r.update_document(d.doc_id.clone(), "two".to_string(), 9, "a".to_string());
    assert_eq!(res.unwrap_err(), "Conflit : Version obsolète.");
    assert_eq!(r.get_all_documents().len(), 2);
    assert_eq!(r.get_single_document(&d.doc_id).unwrap().content, "one");
}

#[test]
fn remote_document_is_stored_under_its_id() {
    let mut r = Repository::new();
    let mut remote = named("remote-id", "Far");
    remote.version = 4;
    r.apply_remote_document(remote);
    let got = r.get_single_document(&"remote-id".to_string()).unwrap();
    assert_eq!(got.version, 4);
    assert_eq!(got.name, "Far");
}

#[test]
fn history_name_writes_scroll_name_and_version() {
    assert_eq!(history_name_text(&"Rapport".to_string(), 0), "📜 Rapport.0");
    assert_eq!(history_name_text(&"Rapport".to_string(), 120), "📜 Rapport.120");
    assert_eq!(history_name_text(&"".to_string(), usize::MAX), format!("📜 .{}", usize::MAX));
}

#[test]
fn publication_topic_is_under_docs() {
    assert_eq!(publication_topic(&"abc".to_string()), "docs/abc");
}

#[test]
fn echo_of_own_creation_changes_nothing() {
    let mut r = Repository::new();
    let d = r.create_document("Plan".to_string(), "web".to_string());
    let before = r.get_all_documents().len();
    r.apply_remote_document(d.clone());
    assert_eq!(r.get_all_documents().len(), before);
    let got = r.get_single_document(&d.doc_id).unwrap();
    assert_eq!(got.name, "Plan");
    assert_eq!(got.version, 0);
}
