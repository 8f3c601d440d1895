use iref::IriBuf;
use ld_node::properties::PropertyMap;
use ld_node::{Key, Node, Object, ObjectSet, Objects};

fn value(text: &str) -> Object<IriBuf> {
    Object::Value(text.to_string())
}

fn blank(label: &str) -> Key<IriBuf> {
    Key::Blank(label.to_string())
}

fn collect(mut objects: Objects<IriBuf>) -> Vec<String> {
    let mut found = Vec::new();
    while let Some(object) = objects.next() {
        match object {
            Object::Value(text) => found.push(text.clone()),
            Object::Node(_) => found.push("<node>".to_string()),
        }
    }
    found.sort();
    found
}

#[test]
fn an_empty_set() {
    let set: ObjectSet<IriBuf> = ObjectSet::new();
    assert!(set.is_empty());
    assert_eq!(set.len(), 0);
    assert!(!set.contains(&value("a")));
    assert!(collect(set.iter()).is_empty());
}

#[test]
fn a_set_takes_an_object_once() {
    let mut set: ObjectSet<IriBuf> = ObjectSet::new();
    assert!(set.insert(value("a")));
    assert!(!set.insert(value("a")));
    assert!(set.insert(value("b")));
    assert!(set.insert(Object::Node(Node::new())));
    assert!(!set.insert(Object::Node(Node::new())));
    assert_eq!(set.len(), 3);
    assert!(!set.is_empty());
    assert!(set.contains(&value("a")));
    assert!(set.contains(&value("b")));
    assert!(set.contains(&Object::Node(Node::new())));
    assert!(!set.contains(&value("c")));
    assert_eq!(collect(set.iter()), vec!["<node>", "a", "b"]);
}

#[test]
fn extending_a_set_skips_what_it_has() {
    let mut set: ObjectSet<IriBuf> = ObjectSet::new();
    set.extend(Vec::new());
    assert!(set.is_empty());
    set.extend(vec![value("a"), value("b"), value("a")]);
    assert_eq!(set.len(), 2);
    set.extend(vec![value("b"), value("c")]);
    assert_eq!(collect(set.iter()), vec!["a", "b", "c"]);
}

#[test]
fn sets_are_compared_by_members() {
    let mut first: ObjectSet<IriBuf> = ObjectSet::new();
    first.extend(vec![value("a"), value("b"), value("c")]);
    let mut second: ObjectSet<IriBuf> = ObjectSet::new();
    second.extend(vec![value("c"), value("b"), value("a")]);
    assert!(first.same(&second));
    assert!(first == second);
    assert_eq!(first.digest(), second.digest());

    let mut smaller: ObjectSet<IriBuf> = ObjectSet::new();
    smaller.extend(vec![value("a"), value("b")]);
    assert!(!first.same(&smaller));
    assert!(!smaller.same(&first));

    let mut other: ObjectSet<IriBuf> = ObjectSet::new();
    other.extend(vec![value("a"), value("b"), value("d")]);
    assert!(!first.same(&other));
    assert!(first != other);
}

#[test]
fn no_objects() {
    let mut objects: Objects<IriBuf> = Objects::none();
    assert!(objects.next().is_none());
    assert!(objects.next().is_none());
}

#[test]
fn a_property_map() {
    let mut map: PropertyMap<IriBuf> = PropertyMap::new();
    assert!(map.is_empty());
    assert!(map.get(&blank("p")).is_none());
    assert_eq!(map.digest(), 0);

    map.insert(blank("p"), value("1"));
    map.insert(blank("q"), value("2"));
    map.insert(blank("p"), value("3"));
    map.insert(blank("p"), value("1"));
    assert!(!map.is_empty());
    assert_eq!(collect(map.get(&blank("p")).unwrap().iter()), vec!["1", "3"]);
    assert_eq!(collect(map.get(&blank("q")).unwrap().iter()), vec!["2"]);
    assert!(map.get(&blank("r")).is_none());

    map.insert_all(blank("r"), Vec::new());
    assert!(map.get(&blank("r")).is_none());
    map.insert_all(blank("r"), vec![value("x"), value("x")]);
    assert_eq!(map.get(&blank("r")).unwrap().len(), 1);
    map.insert_all(blank("q"), vec![value("2"), value("4")]);
    assert_eq!(collect(map.get(&blank("q")).unwrap().iter()), vec!["2", "4"]);

    let mut other: PropertyMap<IriBuf> = PropertyMap::new();
    other.insert_all(blank("q"), vec![value("4"), value("2")]);
    other.insert(blank("r"), value("x"));
    other.insert_all(blank("p"), vec![value("3"), value("1")]);
    assert!(map.same(&other));
    assert!(other.same(&map));
    assert_eq!(map.digest(), other.digest());

    other.insert(blank("s"), value("1"));
    assert!(!map.same(&other));
    assert!(!other.same(&map));
}

#[test]
fn maps_with_the_same_keys_and_other_values_differ() {
    let mut first: PropertyMap<IriBuf> = PropertyMap::new();
    first.insert(blank("p"), value("1"));
    let mut second: PropertyMap<IriBuf> = PropertyMap::new();
    second.insert(blank("p"), value("2"));
    assert!(!first.same(&second));
    let mut third: PropertyMap<IriBuf> = PropertyMap::new();
    third.insert(blank("q"), value("1"));
    assert!(!first.same(&third));
}
