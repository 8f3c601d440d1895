use iref::IriBuf;
use ld_node::digest::{mix, ABSENT, MULTIPLIER, PRESENT};
use ld_node::key::{BLANK, IDENTIFIER};
use ld_node::object::{NODE, VALUE};
use ld_node::text::{bytes_equal, digest_bytes, digest_str, str_equal, text_of_bytes};
use ld_node::{Direction, Id, Key, Node, Object, ObjectSet};
use std::collections::hash_map::DefaultHasher;
use std::hash::Hasher;

fn hashed(text: &str) -> u64 {
    let mut hasher = DefaultHasher::new();
    hasher.write(text.as_bytes());
    hasher.finish()
}

fn mixed(seed: u64, digest: u64) -> u64 {
    seed.wrapping_mul(0x0000_0100_0000_01b3).wrapping_add(digest)
}

fn present(digest: u64) -> u64 {
    mixed(1, digest)
}

fn value(text: &str) -> Object<IriBuf> {
    Object::Value(text.to_string())
}

#[test]
fn the_constants_of_mixing() {
    assert_eq!(ABSENT, 0);
    assert_eq!(PRESENT, 1);
    assert_eq!(MULTIPLIER, 1_099_511_628_211);
    assert_eq!(IDENTIFIER, 1);
    assert_eq!(BLANK, 2);
    assert_eq!(VALUE, 1);
    assert_eq!(NODE, 2);
}

#[test]
fn mixing_multiplies_and_adds() {
    assert_eq!(mix(0, 0), 0);
    assert_eq!(mix(0, 7), 7);
    assert_eq!(mix(1, 0), 1_099_511_628_211);
    assert_eq!(mix(2, 3), 2_199_023_256_425);
    assert_eq!(mix(u64::MAX, 0), 0u64.wrapping_sub(1_099_511_628_211));
    assert_eq!(mix(u64::MAX, u64::MAX), 0u64.wrapping_sub(1_099_511_628_212));
    assert_ne!(mix(2, 3), mix(3, 2));
}

#[test]
fn the_digest_of_a_text_is_the_hash_of_its_bytes() {
    assert_eq!(digest_str("Alice"), hashed("Alice"));
    assert_eq!(digest_str(""), hashed(""));
    assert_eq!(digest_str("héllo ünïcode"), hashed("héllo ünïcode"));
    assert_ne!(digest_str("Alice"), digest_str("Alicia"));
}

#[test]
fn texts_are_equal_byte_for_byte() {
    assert!(str_equal("", ""));
    assert!(str_equal("ltr", "ltr"));
    assert!(str_equal("héllo", "héllo"));
    assert!(!str_equal("ltr", "rtl"));
    assert!(!str_equal("ltr", "ltr "));
    assert!(!str_equal("ltr", "lt"));
    assert!(!str_equal("", "a"));
    assert!(!str_equal("e\u{301}", "\u{e9}"));
}

#[test]
fn bytes_are_equal_one_for_one() {
    assert!(bytes_equal(&[], &[]));
    assert!(bytes_equal(&[1, 2, 3], &[1, 2, 3]));
    assert!(!bytes_equal(&[1, 2, 3], &[1, 2]));
    assert!(!bytes_equal(&[1, 2], &[1, 2, 3]));
    assert!(!bytes_equal(&[1, 2, 3], &[1, 2, 4]));
    assert!(!bytes_equal(&[0xC3, 0x28], &[0xC3, 0xA8]));
}

#[test]
fn the_digest_of_bytes_is_their_hash() {
    assert_eq!(digest_bytes("Alice".as_bytes()), hashed("Alice"));
    assert_eq!(digest_bytes(&[]), hashed(""));
    let mut hasher = DefaultHasher::new();
    hasher.write(&[0x61, 0x3A, 0xC3, 0x28]);
    assert_eq!(digest_bytes(&[0x61, 0x3A, 0xC3, 0x28]), hasher.finish());
    assert_eq!(digest_str("héllo"), digest_bytes("héllo".as_bytes()));
}

#[test]
fn bytes_are_a_text_only_where_they_are_utf8() {
    assert_eq!(text_of_bytes("héllo".as_bytes()), Some("héllo"));
    assert_eq!(text_of_bytes(&[]), Some(""));
    assert_eq!(text_of_bytes(&[0x61, 0x3A, 0xC3, 0xA8]), Some("a:\u{e8}"));
    assert_eq!(text_of_bytes(&[0x61, 0x3A, 0xC3, 0x28]), None);
    assert_eq!(text_of_bytes(&[0xFF]), None);
    assert_eq!(text_of_bytes(&[0xE2, 0x82]), None);
}

#[test]
fn the_digest_of_a_direction() {
    assert_eq!(Direction::Ltr.digest(), 1);
    assert_eq!(Direction::Rtl.digest(), 2);
}

#[test]
fn the_digest_of_an_identifier_is_that_of_its_text() {
    let id = IriBuf::new("http://example.org/a").unwrap();
    assert_eq!(id.digest(), hashed("http://example.org/a"));
}

#[test]
fn identifiers_are_the_same_when_their_texts_are() {
    let a = IriBuf::new("http://example.org/a").unwrap();
    let again = IriBuf::new("http://example.org/a").unwrap();
    let b = IriBuf::new("http://example.org/b").unwrap();
    let dotted = IriBuf::new("http://example.org/x/../a").unwrap();
    assert!(a.same(&again));
    assert!(!a.same(&b));
    assert!(!a.same(&dotted));
    assert_eq!(a.iri().into_ref(), "http://example.org/a".as_bytes());
    assert_eq!(dotted.iri().into_ref(), "http://example.org/x/../a".as_bytes());
}

#[test]
fn the_digest_of_a_key() {
    let key: Key<IriBuf> = Key::Id(IriBuf::new("http://example.org/a").unwrap());
    assert_eq!(key.digest(), mixed(1, hashed("http://example.org/a")));
    let key: Key<IriBuf> = Key::Blank("b0".to_string());
    assert_eq!(key.digest(), mixed(2, hashed("b0")));
}

#[test]
fn keys_of_two_kinds_are_never_the_same() {
    let id: Key<IriBuf> = Key::Id(IriBuf::new("http://example.org/a").unwrap());
    let label: Key<IriBuf> = Key::Blank("http://example.org/a".to_string());
    assert!(!id.same(&label));
    assert!(!label.same(&id));
    assert!(id != label);
    assert_ne!(id.digest(), label.digest());
    assert!(id.same(&Key::Id(IriBuf::new("http://example.org/a").unwrap())));
    assert!(label.same(&Key::Blank("http://example.org/a".to_string())));
    assert!(!label.same(&Key::Blank("http://example.org/b".to_string())));
}

#[test]
fn the_iri_of_a_key() {
    let id: Key<IriBuf> = Key::Id(IriBuf::new("http://example.org/a").unwrap());
    assert_eq!(id.iri().unwrap().into_ref(), "http://example.org/a".as_bytes());
    let label: Key<IriBuf> = Key::Blank("b0".to_string());
    assert!(label.iri().is_none());
}

#[test]
fn the_digest_of_an_object() {
    assert_eq!(value("Alice").digest(), mixed(1, hashed("Alice")));
    let node: Node<IriBuf> = Node::new();
    assert_eq!(Object::Node(node).digest(), mixed(2, 0));
}

#[test]
fn the_digest_of_a_set_is_a_sum() {
    let mut set: ObjectSet<IriBuf> = ObjectSet::new();
    assert_eq!(set.digest(), 0);
    set.insert(value("a"));
    assert_eq!(set.digest(), mixed(1, hashed("a")));
    set.insert(value("b"));
    set.insert(value("c"));
    let sum = mixed(1, hashed("a"))
        .wrapping_add(mixed(1, hashed("b")))
        .wrapping_add(mixed(1, hashed("c")));
    assert_eq!(set.digest(), sum);
    let mut other: ObjectSet<IriBuf> = ObjectSet::new();
    other.extend(vec![value("c"), value("a"), value("b"), value("a")]);
    assert_eq!(other.digest(), sum);
    assert!(set == other);
}

#[test]
fn the_digest_of_an_empty_node_is_zero() {
    let node: Node<IriBuf> = Node::new();
    assert_eq!(node.digest(), 0);
}

fn node_digest(parts: [u64; 9]) -> u64 {
    let mut digest = parts[0];
    for part in &parts[1..] {
        digest = mixed(digest, *part);
    }
    digest
}

#[test]
fn the_digest_of_a_node_mixes_its_fields_in_order() {
    let mut node: Node<IriBuf> = Node::new();
    node.set_id(Key::Blank("b0".to_string()));
    let id = present(mixed(2, hashed("b0")));
    assert_eq!(node.digest(), node_digest([id, 0, 0, 0, 0, 0, 0, 0, 0]));

    node.add_type(Key::Blank("t1".to_string()));
    node.add_type(Key::Blank("t2".to_string()));
    let types = mixed(mixed(0, mixed(2, hashed("t1"))), mixed(2, hashed("t2")));
    assert_eq!(node.digest(), node_digest([id, types, 0, 0, 0, 0, 0, 0, 0]));

    let mut graph = ObjectSet::new();
    graph.insert(value("g"));
    node.set_graph(graph);
    let graph = present(mixed(1, hashed("g")));
    assert_eq!(node.digest(), node_digest([id, types, graph, 0, 0, 0, 0, 0, 0]));

    node.set_included(ObjectSet::new());
    let included = present(0);
    assert_eq!(node.digest(), node_digest([id, types, graph, included, 0, 0, 0, 0, 0]));

    node.set_language("en".to_string());
    let language = present(hashed("en"));
    assert_eq!(node.digest(), node_digest([id, types, graph, included, language, 0, 0, 0, 0]));

    node.set_direction(Direction::Rtl);
    let direction = present(2);
    assert_eq!(
        node.digest(),
        node_digest([id, types, graph, included, language, direction, 0, 0, 0])
    );

    node.set_expanded_property(Key::Id(IriBuf::new("http://example.org/p").unwrap()));
    let expanded = present(mixed(1, hashed("http://example.org/p")));
    assert_eq!(
        node.digest(),
        node_digest([id, types, graph, included, language, direction, expanded, 0, 0])
    );

    node.insert(Key::Blank("p".to_string()), value("1"));
    node.insert(Key::Blank("p".to_string()), value("2"));
    node.insert(Key::Blank("q".to_string()), value("1"));
    let p = mixed(
        mixed(2, hashed("p")),
        mixed(1, hashed("1")).wrapping_add(mixed(1, hashed("2"))),
    );
    let q = mixed(mixed(2, hashed("q")), mixed(1, hashed("1")));
    let properties = p.wrapping_add(q);
    assert_eq!(
        node.digest(),
        node_digest([id, types, graph, included, language, direction, expanded, properties, 0])
    );

    node.insert_reverse(Key::Blank("r".to_string()), value("3"));
    let reverse = mixed(mixed(2, hashed("r")), mixed(1, hashed("3")));
    assert_eq!(
        node.digest(),
        node_digest([
            id, types, graph, included, language, direction, expanded, properties, reverse
        ])
    );
}
