use distributed_doc_system::document::Document;
use distributed_doc_system::documents;

fn doc(version: usize, last_base_version: usize, winner: &str) -> Document {
    Document {
        doc_id: "id".to_string(),
        name: "Notes".to_string(),
        content: "old".to_string(),
        version,
        winning_client_id: winner.to_string(),
        last_base_version,
    }
}

#[test]
fn new_document_is_empty_at_version_zero() {
    let d = Document::new("Notes".to_string(), "alice".to_string());
    assert_eq!(d.name, "Notes");
    assert_eq!(d.content, "");
    assert_eq!(d.version, 0);
    assert_eq!(d.winning_client_id, "alice");
    assert_eq!(d.last_base_version, 0);
    assert_eq!(d.doc_id.len(), 36);
    let chars: Vec<char> = d.doc_id.chars().collect();
    for (i, c) in chars.iter().enumerate() {
        if i == 8 || i == 13 || i == 18 || i == 23 {
            assert_eq!(*c, '-');
        } else {
            assert!(c.is_ascii_hexdigit() && !c.is_ascii_uppercase());
        }
    }
    assert_eq!(chars[14], '4');
    assert!(matches!(chars[19], '8' | '9' | 'a' | 'b'));
}

#[test]
fn two_new_documents_get_different_ids() {
    let a = Document::new("A".to_string(), "c".to_string());
    let b = Document::new("A".to_string(), "c".to_string());
    assert_ne!(a.doc_id, b.doc_id);
}

#[test]
fn with_id_builds_an_empty_document() {
    let d = Document::with_id("x".to_string(), "n".to_string(), "c".to_string());
    assert_eq!(d.doc_id, "x");
    assert_eq!(d.version, 0);
    assert_eq!(d.content, "");
}

#[test]
fn write_on_current_version_is_taken() {
    let mut d = doc(3, 2, "bob");
    let r = d.apply_update("new".to_string(), 3, "zed".to_string());
    assert_eq!(r, Ok(4));
    assert_eq!(d.version, 4);
    assert_eq!(d.last_base_version, 3);
    assert_eq!(d.content, "new");
    assert_eq!(d.winning_client_id, "zed");
    assert_eq!(d.name, "Notes");
    assert_eq!(d.doc_id, "id");
}

#[test]
fn concurrent_write_from_lower_id_wins() {
    let mut d = doc(3, 2, "bob");
    let r = d.apply_update("mine".to_string(), 2, "alice".to_string());
    assert_eq!(r, Ok(4));
    assert_eq!(d.content, "mine");
    assert_eq!(d.winning_client_id, "alice");
    assert_eq!(d.last_base_version, 3);
}

#[test]
fn concurrent_write_from_higher_id_loses() {
    let mut d = doc(3, 2, "bob");
    let r = d.apply_update("mine".to_string(), 2, "carol".to_string());
    assert_eq!(r, Err("Conflit : Priorité lexicographique insuffisante.".to_string()));
    assert_eq!(d.version, 3);
    assert_eq!(d.content, "old");
    assert_eq!(d.winning_client_id, "bob");
}

#[test]
fn concurrent_write_from_same_id_loses() {
    let mut d = doc(3, 2, "bob");
    let r = d.apply_update("again".to_string(), 2, "bob".to_string());
    assert_eq!(r, Err("Conflit : Priorité lexicographique insuffisante.".to_string()));
}

#[test]
fn stale_write_is_refused() {
    let mut d = doc(5, 4, "bob");
    let r = d.apply_update("late".to_string(), 1, "alice".to_string());
    assert_eq!(r, Err("Conflit : Version obsolète.".to_string()));
    assert_eq!(d.version, 5);
    assert_eq!(d.content, "old");
}

#[test]
fn prefix_id_ranks_first() {
    let mut d = doc(1, 0, "bobby");
    assert_eq!(d.apply_update("x".to_string(), 0, "bob".to_string()), Ok(2));
    assert_eq!(d.winning_client_id, "bob");
}

#[test]
fn lexicographic_priority_uses_code_points() {
    let mut d = doc(1, 0, "b");
    assert!(d.apply_update("x".to_string(), 0, "Z".to_string()).is_ok());
    let mut e = doc(1, 0, "é");
    assert!(e.apply_update("x".to_string(), 0, "z".to_string()).is_ok());
}

#[test]
fn concurrent_writes_converge_in_both_orders() {
    let mut ab = doc(0, 0, "creator");
    ab.last_base_version = 7;
    let mut ba = doc(0, 0, "creator");
    ba.last_base_version = 7;
    assert_eq!(ab.apply_update("from b".to_string(), 0, "b".to_string()), Ok(1));
    assert_eq!(ab.apply_update("from a".to_string(), 0, "a".to_string()), Ok(2));
    assert_eq!(ba.apply_update("from a".to_string(), 0, "a".to_string()), Ok(1));
    assert!(ba.apply_update("from b".to_string(), 0, "b".to_string()).is_err());
    assert_eq!(ab.content, ba.content);
    assert_eq!(ab.content, "from a");
    assert_eq!(ab.winning_client_id, "a");
    assert_eq!(ba.winning_client_id, "a");
}

#[test]
fn accepts_matches_apply_update() {
    let d = doc(3, 2, "bob");
    assert!(d.accepts(3, &"zed".to_string()));
    assert!(d.accepts(2, &"alice".to_string()));
    assert!(!d.accepts(2, &"carol".to_string()));
    assert!(!d.accepts(1, &"alice".to_string()));
}

#[test]
fn simple_document_starts_empty() {
    let d = documents::Document::new("N".to_string());
    assert_eq!(d.name, "N");
    assert_eq!(d.content, "");
    assert_eq!(d.version, 0);
    assert_eq!(d.id.len(), 36);
}

#[test]
fn simple_document_takes_write_on_current_version() {
    let mut d = documents::Document { id: "i".to_string(), name: "N".to_string(), content: String::new(), version: 2 };
    assert_eq!(d.update("c".to_string(), 2), Ok(3));
    assert_eq!(d.content, "c");
    assert_eq!(d.version, 3);
}

#[test]
fn simple_document_refuses_other_versions() {
    let mut d = documents::Document { id: "i".to_string(), name: "N".to_string(), content: "x".to_string(), version: 2 };
    assert_eq!(
        d.update("c".to_string(), 1),
        Err("Conflit de version : Le document a été modifié par un autre utilisateur.".to_string())
    );
    assert_eq!(d.content, "x");
    assert_eq!(d.version, 2);
    assert!(d.update("c".to_string(), 3).is_err());
}

#[test]
fn simple_repository_starts_empty() {
    let _r = documents::Repository::new();
}

#[test]
fn simple_document_with_id_is_empty() {
    let d = documents::Document::with_id("abc".to_string(), "N".to_string());
    assert_eq!(d.id, "abc");
    assert_eq!(d.name, "N");
    assert_eq!(d.content, "");
    assert_eq!(d.version, 0);
}
