use dispatchers::registry::Registry;

#[test]
fn a_new_registry_is_empty() {
    let registry = Registry::<u32>::new();
    assert_eq!(registry.count("update"), 0);
    assert!(registry.bucket("update").is_none());
}

#[test]
fn insert_files_under_discriminant_and_tag() {
    let mut registry = Registry::new();
    registry.insert("update", "tag1", 1u32);
    registry.insert("update", "tag2", 2u32);
    registry.insert("print", "tag1", 3u32);
    assert_eq!(registry.count("update"), 2);
    assert_eq!(registry.count("print"), 1);
    assert_eq!(registry.count("exit"), 0);

    let slots = registry.bucket("update").unwrap();
    assert_eq!(slots.len(), 2);
    let mut held: Vec<(String, u32)> = Vec::new();
    for slot in slots {
        held.push((slot.tag.clone(), slot.value));
    }
    held.sort();
    assert_eq!(held, vec![("tag1".to_owned(), 1), ("tag2".to_owned(), 2)]);
}

#[test]
fn insert_on_a_taken_key_replaces_the_value() {
    let mut registry = Registry::new();
    registry.insert("update", "tag1", 1u32);
    registry.insert("update", "tag2", 2u32);
    registry.insert("update", "tag1", 7u32);
    assert_eq!(registry.count("update"), 2);
    let slots = registry.bucket("update").unwrap();
    let mut held: Vec<(String, u32)> = Vec::new();
    for slot in slots {
        held.push((slot.tag.clone(), slot.value));
    }
    held.sort();
    assert_eq!(held, vec![("tag1".to_owned(), 7), ("tag2".to_owned(), 2)]);
}

#[test]
fn remove_takes_out_one_key_only() {
    let mut registry = Registry::new();
    registry.insert("update", "tag1", 1u32);
    registry.insert("update", "tag2", 2u32);
    registry.insert("update", "tag3", 3u32);
    registry.insert("print", "tag2", 4u32);
    registry.remove("update", "tag2");
    assert_eq!(registry.count("update"), 2);
    assert_eq!(registry.count("print"), 1);
    let slots = registry.bucket("update").unwrap();
    let mut held: Vec<(String, u32)> = Vec::new();
    for slot in slots {
        held.push((slot.tag.clone(), slot.value));
    }
    held.sort();
    assert_eq!(held, vec![("tag1".to_owned(), 1), ("tag3".to_owned(), 3)]);
}

#[test]
fn remove_of_an_absent_key_changes_nothing() {
    let mut registry = Registry::new();
    registry.remove("update", "tag1");
    registry.insert("update", "tag1", 1u32);
    registry.remove("update", "tag2");
    registry.remove("print", "tag1");
    assert_eq!(registry.count("update"), 1);
    assert_eq!(registry.bucket("update").unwrap()[0].value, 1);
}

#[test]
fn a_bucket_emptied_lists_nothing() {
    let mut registry = Registry::new();
    registry.insert("update", "tag1", 1u32);
    registry.remove("update", "tag1");
    assert_eq!(registry.count("update"), 0);
    match registry.bucket("update") {
        Some(slots) => assert!(slots.is_empty()),
        None => {}
    }
    registry.insert("update", "tag1", 5u32);
    assert_eq!(registry.count("update"), 1);
}

#[test]
fn keys_are_compared_as_whole_texts() {
    let mut registry = Registry::new();
    registry.insert("größe", "一", 1u32);
    registry.insert("grösse", "一", 2u32);
    registry.insert("größe", "二", 3u32);
    registry.insert("größ", "一", 4u32);
    registry.insert("größe!", "一", 5u32);
    registry.insert("größe", "一", 6u32);
    assert_eq!(registry.count("größe"), 2);
    assert_eq!(registry.count("grösse"), 1);
    assert_eq!(registry.count("größ"), 1);
    assert_eq!(registry.count("größe!"), 1);
    assert_eq!(registry.count("gr"), 0);
    let slots = registry.bucket("größe").unwrap();
    let mut held: Vec<(String, u32)> = Vec::new();
    for slot in slots {
        held.push((slot.tag.clone(), slot.value));
    }
    held.sort();
    assert_eq!(held, vec![("一".to_owned(), 6), ("二".to_owned(), 3)]);
    registry.remove("größe", "三");
    registry.remove("größe", "一");
    assert_eq!(registry.count("größe"), 1);
    assert_eq!(registry.bucket("größe").unwrap()[0].value, 3);
}
