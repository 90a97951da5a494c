use distributed_doc_system::node::{DocMessage, NodeOutcome, StorageNode};

fn create(node: &mut StorageNode, client: &str, id: &str, content: &str) -> NodeOutcome {
    node.handle(DocMessage::Create {
        client_id: client.to_string(),
        doc_id: id.to_string(),
        content: content.to_string(),
    })
}

fn update(node: &mut StorageNode, client: &str, old: &str, new: &str, content: &str) -> NodeOutcome {
    node.handle(DocMessage::Update {
        client_id: client.to_string(),
        old_version: old.to_string(),
        new_version: new.to_string(),
        content: content.to_string(),
    })
}

fn notified(o: &NodeOutcome) -> (String, String) {
    match o {
        NodeOutcome::Created { notification: DocMessage::Notify { doc_id, content } }
        | NodeOutcome::Advanced { notification: DocMessage::Notify { doc_id, content } }
        | NodeOutcome::Overridden { notification: DocMessage::Notify { doc_id, content }, .. } => {
            (doc_id.clone(), content.clone())
        }
        other => panic!("no notification in {:?}", other),
    }
}

#[test]
fn create_is_announced() {
    let mut n = StorageNode::new();
    let o = create(&mut n, "c1", "1", "hello");
    assert_eq!(notified(&o), ("1".to_string(), "hello".to_string()));
}

#[test]
fn sequential_updates_are_taken() {
    let mut n = StorageNode::new();
    create(&mut n, "c1", "1", "a");
    let o = update(&mut n, "c2", "1", "1.1", "b");
    assert!(matches!(o, NodeOutcome::Advanced { .. }));
    assert_eq!(notified(&o), ("1.1".to_string(), "b".to_string()));
    let o = update(&mut n, "c1", "1.1", "1.2", "c");
    assert_eq!(notified(&o), ("1.2".to_string(), "c".to_string()));
}

#[test]
fn concurrent_update_from_lower_id_overrides() {
    let mut n = StorageNode::new();
    create(&mut n, "c0", "1", "a");
    update(&mut n, "c2", "1", "1.1", "from c2");
    let o = update(&mut n, "c1", "1", "1.1", "from c1");
    match &o {
        NodeOutcome::Overridden { previous_winner, .. } => assert_eq!(previous_winner, "c2"),
        other => panic!("{:?}", other),
    }
    assert_eq!(notified(&o), ("1.1".to_string(), "from c1".to_string()));
    let o = update(&mut n, "c3", "1", "1.1", "from c3");
    match o {
        NodeOutcome::LostPriority { winner } => assert_eq!(winner, "c1"),
        other => panic!("{:?}", other),
    }
}

#[test]
fn concurrent_update_from_higher_id_is_refused() {
    let mut n = StorageNode::new();
    create(&mut n, "c0", "1", "a");
    update(&mut n, "c1", "1", "1.1", "x");
    match update(&mut n, "c2", "1", "1.1", "y") {
        NodeOutcome::LostPriority { winner } => assert_eq!(winner, "c1"),
        other => panic!("{:?}", other),
    }
}

#[test]
fn outdated_update_is_refused() {
    let mut n = StorageNode::new();
    create(&mut n, "c0", "1", "a");
    update(&mut n, "c1", "1", "1.1", "x");
    update(&mut n, "c1", "1.1", "1.2", "y");
    match update(&mut n, "c2", "1", "1.1", "z") {
        NodeOutcome::Outdated { current_version } => assert_eq!(current_version, "1.2"),
        other => panic!("{:?}", other),
    }
}

#[test]
fn update_of_unknown_document_is_refused() {
    let mut n = StorageNode::new();
    match update(&mut n, "c1", "7.3", "7.4", "x") {
        NodeOutcome::UnknownDocument { base_doc_id } => assert_eq!(base_doc_id, "7"),
        other => panic!("{:?}", other),
    }
}

#[test]
fn notify_is_ignored() {
    let mut n = StorageNode::new();
    let o = n.handle(DocMessage::Notify { doc_id: "1".to_string(), content: "x".to_string() });
    assert!(matches!(o, NodeOutcome::Ignored));
    assert!(matches!(update(&mut n, "c", "1", "1.1", "y"), NodeOutcome::UnknownDocument { .. }));
}

#[test]
fn concurrent_updates_commute() {
    let mut ab = StorageNode::new();
    let mut ba = StorageNode::new();
    create(&mut ab, "c0", "d", "start");
    create(&mut ba, "c0", "d", "start");
    update(&mut ab, "alice", "d", "d.1", "A");
    update(&mut ab, "bob", "d", "d.1b", "B");
    update(&mut ba, "bob", "d", "d.1b", "B");
    update(&mut ba, "alice", "d", "d.1", "A");
    for node in [&mut ab, &mut ba] {
        match update(node, "zed", "d.1", "d.2", "next") {
            NodeOutcome::Advanced { .. } => {}
            other => panic!("{:?}", other),
        }
    }
}
