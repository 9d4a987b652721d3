use draca::jupiter::{FragIsRelative, FragIsRoot, Namespace, NamespaceFrags, PathRules};

fn path(parts: &[&str]) -> Vec<String> {
    parts.iter().map(|p| p.to_string()).collect()
}

fn sample() -> Namespace<u32> {
    let mut namespace = Namespace::new("::");
    namespace.insert_at_module(&path(&["std", "fns", "hello"]), 1);
    namespace.insert_in_module(&path(&["std", "fns"]), "adios", 2);
    namespace.insert_in_module(&path(&["std", "math", "fns"]), "add", 3);
    namespace
}

#[test]
fn a_new_namespace_is_empty() {
    let namespace: Namespace<u32> = Namespace::new("::");
    assert_eq!(namespace.split(), "::");
    assert!(namespace.root().name().is_none());
    assert!(namespace.root().extract_value().is_none());
    assert!(namespace.root().children().is_empty());
    assert!(namespace.all_items().is_empty());
    assert_eq!(namespace.get_item(&path(&["std"])), None);
}

#[test]
fn values_are_found_at_their_paths() {
    let namespace = sample();
    assert_eq!(namespace.get_item(&path(&["std", "fns", "hello"])), Some(&1));
    assert_eq!(namespace.get_item(&path(&["std", "fns", "adios"])), Some(&2));
    assert_eq!(namespace.get_item(&path(&["std", "math", "fns", "add"])), Some(&3));
    assert_eq!(namespace.get_item(&path(&["std", "fns"])), None);
    assert_eq!(namespace.get_item(&path(&["std", "nothing"])), None);
    assert_eq!(namespace.get_item(&path(&[])), None);
}

#[test]
fn find_gives_every_fragment_of_a_name() {
    let namespace = sample();
    let fns = namespace.find("fns");
    assert_eq!(fns.len(), 2);
    assert!(fns.iter().all(|n| n.name().map(String::as_str) == Some("fns")));
    assert_eq!(fns[0].children().len(), 2);
    assert_eq!(fns[1].children().len(), 1);
    assert_eq!(namespace.find("hello").len(), 1);
    assert_eq!(namespace.find("nothing").len(), 0);
}

#[test]
fn all_items_come_in_the_order_of_their_names() {
    let namespace = sample();
    let items: Vec<(String, u32)> =
        namespace.all_items().iter().map(|i| (i.name().clone(), *i.value())).collect();
    assert_eq!(
        items,
        [(String::from("adios"), 2), (String::from("hello"), 1), (String::from("add"), 3)]
    );
}

#[test]
fn insert_at_module_replaces_what_was_below() {
    let mut namespace = sample();
    namespace.insert_at_module(&path(&["std", "fns"]), 9);
    assert_eq!(namespace.get_item(&path(&["std", "fns"])), Some(&9));
    assert_eq!(namespace.get_item(&path(&["std", "fns", "hello"])), None);
    assert_eq!(namespace.get_item(&path(&["std", "math", "fns", "add"])), Some(&3));
}

#[test]
fn inserting_again_overwrites() {
    let mut namespace = sample();
    namespace.insert_in_module(&path(&["std", "fns"]), "hello", 7);
    assert_eq!(namespace.get_item(&path(&["std", "fns", "hello"])), Some(&7));
    assert_eq!(namespace.get_item(&path(&["std", "fns", "adios"])), Some(&2));
}

#[test]
fn new_module_makes_fragments_without_values() {
    let mut namespace: Namespace<u32> = Namespace::new("/");
    namespace.new_module(&path(&["a", "b"]));
    assert!(namespace.get_namespace(&path(&["a", "b"])).is_some());
    assert!(namespace.get_namespace(&path(&["a"])).is_some());
    assert!(namespace.get_namespace(&path(&["b"])).is_none());
    assert_eq!(namespace.get_item(&path(&["a", "b"])), None);
    let b = namespace.get_namespace(&path(&["a", "b"])).unwrap();
    assert_eq!(b.name().map(String::as_str), Some("b"));
    assert!(b.extract_value().is_none());
    assert_eq!(b.separator(), "/");
    namespace.new_module(&path(&["a", "b"]));
    assert_eq!(namespace.get_namespace(&path(&["a"])).unwrap().children().len(), 1);
    assert!(namespace.get_namespace(&path(&[])).unwrap().name().is_none());
}

#[test]
fn children_stand_in_the_order_of_their_names() {
    let mut namespace: Namespace<u32> = Namespace::new("::");
    for name in ["m", "z", "a", "k", "b"] {
        namespace.new_module(&path(&[name]));
    }
    let names: Vec<&str> =
        namespace.root().children().iter().filter_map(|c| c.name()).map(String::as_str).collect();
    assert_eq!(names, ["a", "b", "k", "m", "z"]);
}

#[test]
fn paths_are_written_with_the_separator() {
    let absolute: NamespaceFrags<FragIsRoot> =
        NamespaceFrags::from_vec_split(path(&["std", "fns"]), "::");
    assert_eq!(absolute.as_absolute_path(PathRules::Default), "std::fns");
    assert_eq!(absolute.as_absolute_path(PathRules::SepPreceedsRoot), "::std::fns");
    assert_eq!(absolute.frags(), &path(&["std", "fns"]));
    let relative: NamespaceFrags<FragIsRelative> =
        NamespaceFrags::from_vec_split(path(&["fns", "add"]), "/");
    assert_eq!(relative.as_relative_path(), "fns/add");
    assert_eq!(PathRules::default(), PathRules::Default);
}
