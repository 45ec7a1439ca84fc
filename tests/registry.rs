use searchine::{Collection, CollectionEntry, InvertedCollection, Timestamp};

fn at(secs: u64) -> Timestamp {
    Timestamp::new(secs, 0)
}

fn docs(paths: &[(&str, u64)]) -> Vec<(String, Timestamp)> {
    paths.iter().map(|(p, t)| (p.to_string(), at(*t))).collect()
}

#[test]
fn distinct_paths_get_ids_in_order() {
    let c = Collection::from_paths(docs(&[("a.txt", 10), ("b.txt", 20), ("c.txt", 30)]));
    assert_eq!(c.get_document_id(&"a.txt".to_string()), Some(0));
    assert_eq!(c.get_document_id(&"b.txt".to_string()), Some(1));
    assert_eq!(c.get_document_id(&"c.txt".to_string()), Some(2));
    assert_eq!(c.get_last_modified(&"b.txt".to_string()), Some(at(20)));
    assert_eq!(c.next_document_id(), 3);
}

#[test]
fn repeated_path_in_from_paths_keeps_first() {
    let c = Collection::from_paths(docs(&[("a", 1), ("b", 2), ("a", 3)]));
    assert_eq!(c.get_document_id(&"a".to_string()), Some(0));
    assert_eq!(c.get_last_modified(&"a".to_string()), Some(at(1)));
    assert_eq!(c.entries().len(), 2);
}

#[test]
fn reinsert_keeps_first_modified_time() {
    let mut c = Collection::default();
    c.insert("doc".to_string(), Timestamp::new(100, 5));
    c.insert("doc".to_string(), Timestamp::new(200, 7));
    assert_eq!(c.get_last_modified(&"doc".to_string()), Some(Timestamp::new(100, 5)));
    assert_eq!(c.get_modified(&"doc".to_string()), Some(Timestamp::new(100, 5)));
    assert_eq!(c.get_document_id(&"doc".to_string()), Some(0));
    assert_eq!(c.next_document_id(), 1);
}

#[test]
fn remove_forgets_path_and_returns_entry() {
    let mut c = Collection::from_paths(docs(&[("x", 1), ("y", 2)]));
    let removed = c.remove(&"y".to_string()).unwrap();
    assert_eq!(removed.document_id(), 1);
    assert_eq!(removed.modified(), at(2));
    assert_eq!(c.get_document_id(&"y".to_string()), None);
    assert!(!c.contains_path(&"y".to_string()));
    assert!(c.contains_path(&"x".to_string()));
    assert!(c.remove(&"y".to_string()).is_none());
}

#[test]
fn ids_are_not_reused_after_removal() {
    let mut c = Collection::from_paths(docs(&[("p", 1), ("q", 2)]));
    c.remove(&"p".to_string());
    c.insert("r".to_string(), at(3));
    assert_eq!(c.get_document_id(&"r".to_string()), Some(2));
    assert_eq!(c.get_document_id(&"q".to_string()), Some(1));
}

#[test]
fn unknown_path_lookups_are_absent() {
    let c = Collection::default();
    assert!(!c.contains_path(&"none".to_string()));
    assert_eq!(c.get_document_id(&"none".to_string()), None);
    assert_eq!(c.get_last_modified(&"none".to_string()), None);
    assert_eq!(c.get_modified(&"none".to_string()), None);
    assert_eq!(c.root_dir(), "");
}

#[test]
fn stored_parts_rebuild_same_registry() {
    let mut c = Collection::from_paths(docs(&[("one", 11), ("two", 22), ("three", 33)]));
    c.remove(&"two".to_string());
    let rebuilt =
        Collection::from_parts(c.root_dir().clone(), c.entries(), c.next_document_id()).unwrap();
    assert_eq!(rebuilt.get_document_id(&"one".to_string()), Some(0));
    assert_eq!(rebuilt.get_document_id(&"three".to_string()), Some(2));
    assert_eq!(rebuilt.get_last_modified(&"three".to_string()), Some(at(33)));
    assert!(!rebuilt.contains_path(&"two".to_string()));
    assert_eq!(rebuilt.next_document_id(), 3);
    assert_eq!(rebuilt.entries().len(), 2);
}

#[test]
fn parts_with_duplicate_path_are_refused() {
    let entries = vec![
        ("a".to_string(), CollectionEntry::new(0, at(1))),
        ("a".to_string(), CollectionEntry::new(1, at(2))),
    ];
    assert!(Collection::from_parts("root".to_string(), entries, 2).is_none());
}

#[test]
fn parts_with_duplicate_id_are_refused() {
    let entries = vec![
        ("a".to_string(), CollectionEntry::new(0, at(1))),
        ("b".to_string(), CollectionEntry::new(0, at(2))),
    ];
    assert!(Collection::from_parts("root".to_string(), entries, 2).is_none());
}

#[test]
fn parts_with_id_past_counter_are_refused() {
    let entries = vec![("a".to_string(), CollectionEntry::new(5, at(1)))];
    assert!(Collection::from_parts("root".to_string(), entries, 5).is_none());
}

#[test]
fn parts_keep_root_dir() {
    let entries = vec![("a".to_string(), CollectionEntry::new(4, at(1)))];
    let c = Collection::from_parts("/home/docs".to_string(), entries, 5).unwrap();
    assert_eq!(c.root_dir(), "/home/docs");
    assert_eq!(c.get_document_id(&"a".to_string()), Some(4));
}

#[test]
fn reverse_registry_maps_ids_to_paths() {
    let c = Collection::from_paths(docs(&[("p1", 1), ("p2", 2), ("p3", 3)]));
    let inv = InvertedCollection::from_collection(&c);
    assert_eq!(inv.get_path(1), Some(&"p2".to_string()));
    assert_eq!(inv.get_path(0), Some(&"p1".to_string()));
    assert_eq!(inv.get_path(2), Some(&"p3".to_string()));
    assert_eq!(inv.get_path(99), None);
}

#[test]
fn entries_compare_by_document_id() {
    let a = CollectionEntry::new(1, at(5));
    let b = CollectionEntry::new(1, at(9));
    let c = CollectionEntry::new(2, at(0));
    assert!(a == b);
    assert!(a != c);
    assert!(a < c);
    assert!(c > b);
    assert_eq!(a.document_id(), 1);
    assert_eq!(b.modified(), at(9));
}
