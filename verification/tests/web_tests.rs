use distributed_doc_system::node::DocMessage;
use distributed_doc_system::web::{creation_message, version_label_text, WebDocs, WebUpdate};

#[test]
fn demo_document_is_shown_at_start() {
    let w = WebDocs::with_demo();
    let d = w.get(&"Doc_Demo".to_string()).unwrap();
    assert_eq!(d.name, "Document de Démo");
    assert_eq!(d.content, "Si tu vois ce texte, l'interface est bien connectée !");
    assert_eq!(d.version, 0);
    assert_eq!(w.listing(), vec![("Doc_Demo".to_string(), "Document de Démo".to_string())]);
}

#[test]
fn creation_message_uses_name_as_id() {
    match creation_message("Rapport".to_string()) {
        DocMessage::Create { client_id, doc_id, content } => {
            assert_eq!(client_id, "Interface_Web");
            assert_eq!(doc_id, "Rapport");
            assert_eq!(content, "");
        }
        other => panic!("{:?}", other),
    }
}

#[test]
fn update_of_unknown_document_is_not_found() {
    let w = WebDocs::new();
    assert!(matches!(w.plan_update(&"x".to_string(), "c".to_string(), 0), WebUpdate::NotFound));
}

#[test]
fn update_from_version_zero_names_the_id() {
    let w = WebDocs::with_demo();
    match w.plan_update(&"Doc_Demo".to_string(), "txt".to_string(), 0) {
        WebUpdate::Send { message: DocMessage::Update { client_id, old_version, new_version, content }, new_version: v } => {
            assert_eq!(client_id, "Interface_Web");
            assert_eq!(old_version, "Doc_Demo");
            assert_eq!(new_version, "Doc_Demo.1");
            assert_eq!(content, "txt");
            assert_eq!(v, 1);
        }
        other => panic!("{:?}", other),
    }
}

#[test]
fn notification_updates_base_and_history() {
    let mut w = WebDocs::with_demo();
    w.apply_notification("Doc_Demo.3".to_string(), "v3".to_string());
    let base = w.get(&"Doc_Demo".to_string()).unwrap();
    assert_eq!(base.version, 3);
    assert_eq!(base.content, "v3");
    assert_eq!(base.name, "Doc_Demo");
    let hist = w.get(&"Doc_Demo.3".to_string()).unwrap();
    assert_eq!(hist.name, "📜 Doc_Demo.3");
    assert_eq!(hist.version, 3);
    assert_eq!(hist.doc_id, "Doc_Demo.3");
    match w.plan_update(&"Doc_Demo".to_string(), "old".to_string(), 2) {
        WebUpdate::Conflict { reason } => {
            assert_eq!(reason, "Conflit ! Quelqu'un d'autre a modifié ce document.")
        }
        other => panic!("{:?}", other),
    }
    match w.plan_update(&"Doc_Demo".to_string(), "new".to_string(), 3) {
        WebUpdate::Send { message: DocMessage::Update { old_version, new_version, .. }, new_version: v } => {
            assert_eq!(old_version, "Doc_Demo.3");
            assert_eq!(new_version, "Doc_Demo.4");
            assert_eq!(v, 4);
        }
        other => panic!("{:?}", other),
    }
}

#[test]
fn notification_without_version_keeps_no_history() {
    let mut w = WebDocs::new();
    w.apply_notification("Plan".to_string(), "p".to_string());
    assert_eq!(w.get(&"Plan".to_string()).unwrap().version, 0);
    assert_eq!(w.listing().len(), 1);
    w.apply_notification("Plan.x".to_string(), "q".to_string());
    assert_eq!(w.get(&"Plan".to_string()).unwrap().content, "q");
    assert_eq!(w.get(&"Plan".to_string()).unwrap().version, 0);
    assert!(w.get(&"Plan.x".to_string()).is_none());
    w.apply_notification("Plan.+2.9".to_string(), "r".to_string());
    assert_eq!(w.get(&"Plan".to_string()).unwrap().version, 2);
    assert_eq!(w.get(&"Plan.+2.9".to_string()).unwrap().version, 2);
}

#[test]
fn web_listing_is_ordered_by_name() {
    let mut w = WebDocs::with_demo();
    w.apply_notification("Doc1.1".to_string(), "a".to_string());
    w.apply_notification("Alpha".to_string(), "b".to_string());
    let names: Vec<String> = w.listing().into_iter().map(|(_, n)| n).collect();
    assert_eq!(names, vec!["Alpha", "Doc1", "Document de Démo", "📜 Doc1.1"]);
}

#[test]
fn version_label_roundtrip() {
    for v in [1usize, 9, 10, 4096, usize::MAX] {
        let mut w = WebDocs::new();
        let label = version_label_text(&"Doc".to_string(), v);
        assert_eq!(label, format!("Doc.{}", v));
        w.apply_notification(label, "c".to_string());
        assert_eq!(w.get(&"Doc".to_string()).unwrap().version, v);
    }
    assert_eq!(version_label_text(&"Doc".to_string(), 0), "Doc");
}
