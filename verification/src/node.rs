//! Node objects.
//!
//! A node has an optional key, a list of types, an optional graph, an
//! optional set of included nodes, a language, a base direction, the
//! property that it was expanded from, and the values of its properties,
//! forward and reverse. Two nodes are equal when they are the same
//! [`NodeView`], and then they have the same digest.

use crate::digest::{mix, mixed, optional, ordered, write_digest, ABSENT, PRESENT};
use crate::direction::Direction;
use crate::id::{iri_bytes, iri_into_bytes, Id};
use crate::key::{Key, KeyView};
use crate::object::{object_views, Object, ObjectSet, Objects};
use crate::properties::PropertyMap;
use crate::text::{digest_str, str_view, text_digest, text_of_bytes};
use crate::view::NodeView;
use core::hash::{Hash, Hasher};
use iref::Iri;
use vstd::prelude::*;
use vstd::std_specs::cmp::PartialEqSpecImpl;
use vstd::string::StringSliceAdditionalSpecFns;

verus! {

/// A node of a document graph. Its sets are sets and none of its properties
/// is without a value, whatever was done to it.
#[derive(Debug)]
pub struct Node<T: Id> {
    pub(crate) id: Option<Key<T>>,
    pub(crate) types: Vec<Key<T>>,
    pub(crate) graph: Option<ObjectSet<T>>,
    pub(crate) included: Option<ObjectSet<T>>,
    pub(crate) language: Option<String>,
    pub(crate) direction: Option<Direction>,
    pub(crate) expanded_property: Option<Key<T>>,
    pub(crate) properties: PropertyMap<T>,
    pub(crate) reverse_properties: PropertyMap<T>,
}

/// What an optional key is.
pub open spec fn key_view<T: Id>(key: Option<Key<T>>) -> Option<KeyView> {
    match key {
        Some(key) => Some(key@),
        None => None,
    }
}

/// What an optional text is.
pub open spec fn text_view(text: Option<String>) -> Option<Seq<char>> {
    match text {
        Some(text) => Some(text@),
        None => None,
    }
}

/// What a list of keys is.
pub open spec fn keys_view<T: Id>(keys: Vec<Key<T>>) -> Seq<KeyView> {
    Seq::new(keys.len() as nat, |i: int| keys[i]@)
}

/// The digest of an optional key.
pub open spec fn optional_key_digest<T: Id>(key: Option<KeyView>) -> u64 {
    match key {
        Some(key) => optional(Some(Key::<T>::digest_of(key))),
        None => optional(None),
    }
}

/// The digest of an optional text.
pub open spec fn optional_text_digest(text: Option<Seq<char>>) -> u64 {
    match text {
        Some(text) => optional(Some(text_digest(text))),
        None => optional(None),
    }
}

/// The digest of an optional direction.
pub open spec fn optional_direction_digest(direction: Option<Direction>) -> u64 {
    match direction {
        Some(direction) => optional(Some(direction.digest_of())),
        None => optional(None),
    }
}

/// The digest of a list of keys, which depends on their order.
pub open spec fn keys_digest<T: Id>(keys: Seq<KeyView>) -> u64 {
    ordered(keys.map_values(|key: KeyView| Key::<T>::digest_of(key)))
}

/// The digest of a node, given what the node is and the digests of its two
/// sets, where it has them, and of its two maps. The parts are mixed in the
/// order of the fields.
pub open spec fn node_digest<T: Id>(
    node: NodeView,
    graph: Option<u64>,
    included: Option<u64>,
    properties: u64,
    reverse_properties: u64,
) -> u64 {
    let digest = optional_key_digest::<T>(node.id);
    let digest = mixed(digest, keys_digest::<T>(node.types));
    let digest = mixed(digest, optional(graph));
    let digest = mixed(digest, optional(included));
    let digest = mixed(digest, optional_text_digest(node.language));
    let digest = mixed(digest, optional_direction_digest(node.direction));
    let digest = mixed(digest, optional_key_digest::<T>(node.expanded_property));
    let digest = mixed(digest, properties);
    mixed(digest, reverse_properties)
}

impl<T: Id> Node<T> {
    /// What this node is.
    pub closed spec fn view(&self) -> NodeView
        decreases self, 0nat,
    {
        NodeView {
            id: key_view(self.id),
            types: keys_view(self.types),
            graph: match self.graph {
                Some(set) => Some(set.view()),
                None => None,
            },
            included: match self.included {
                Some(set) => Some(set.view()),
                None => None,
            },
            language: text_view(self.language),
            direction: self.direction,
            expanded_property: key_view(self.expanded_property),
            properties: self.properties.view(),
            reverse_properties: self.reverse_properties.view(),
        }
    }

    /// Whether the node is well formed: its sets and maps are.
    #[verifier::type_invariant]
    pub closed spec fn wf(&self) -> bool
        decreases self, 0nat,
    {
        &&& match self.graph {
            Some(set) => set.wf(),
            None => true,
        }
        &&& match self.included {
            Some(set) => set.wf(),
            None => true,
        }
        &&& self.properties.wf()
        &&& self.reverse_properties.wf()
    }

    /// The digest of the node, as it is computed from its parts.
    pub closed spec fn spec_digest(&self) -> u64
        decreases self, 0nat,
    {
        node_digest::<T>(
            self.view(),
            match self.graph {
                Some(set) => Some(set.spec_digest()),
                None => None,
            },
            match self.included {
                Some(set) => Some(set.spec_digest()),
                None => None,
            },
            self.properties.spec_digest(),
            self.reverse_properties.spec_digest(),
        )
    }

    /// The digest of every node that is a given node.
    pub closed spec fn digest_of(view: NodeView) -> u64 {
        let node = choose|node: Node<T>| node.wf() && node@ == view;
        node.spec_digest()
    }

    /// A node without anything.
    pub fn new() -> (node: Node<T>)
        ensures
            node@ == NodeView::empty(),
    {
        let properties = PropertyMap::new();
        let reverse_properties = PropertyMap::new();
        proof {
            use_type_invariant(&properties);
            use_type_invariant(&reverse_properties);
        }
        let node = Node {
            id: None,
            types: Vec::new(),
            graph: None,
            included: None,
            language: None,
            direction: None,
            expanded_property: None,
            properties,
            reverse_properties,
        };
        assert(node@.types =~= Seq::<KeyView>::empty());
        node
    }

    /// Whether the node holds nothing but, perhaps, its key.
    pub fn is_empty(&self) -> (empty: bool)
        ensures
            empty == self@.is_empty(),
    {
        self.types.len() == 0 && self.graph.is_none() && self.included.is_none()
            && self.language.is_none() && self.direction.is_none()
            && self.expanded_property.is_none() && self.properties.is_empty()
            && self.reverse_properties.is_empty()
    }

    /// The IRI of the node's key, where the node has a key and the key
    /// stands for an IRI.
    pub fn as_iri(&self) -> (iri: Option<Iri<'_>>)
        ensures
            match self@.iri() {
                Some(name) => iri is Some && iri_bytes(iri.unwrap()) == name,
                None => iri is None,
            },
    {
        match &self.id {
            Some(key) => key.iri(),
            None => None,
        }
    }

    /// The text of the node's IRI, where the node has one and its bytes
    /// are UTF-8; the text then has exactly those bytes.
    pub fn as_str(&self) -> (text: Option<&str>)
        ensures
            str_view(text) == self@.text(),
            text matches Some(text) ==> Some(text.spec_bytes()) == self@.iri(),
    {
        match self.as_iri() {
            Some(iri) => text_of_bytes(iri_into_bytes(iri)),
            None => None,
        }
    }

    /// Turns a node that is a graph and nothing else into that graph. Any
    /// other node is handed back as it was.
    pub fn into_unnamed_graph(self) -> (result: Result<ObjectSet<T>, Node<T>>)
        ensures
            match result {
                Ok(graph) => self@.is_unnamed_graph() && self@.graph == Some(graph@),
                Err(node) => !self@.is_unnamed_graph() && node == self,
            },
    {
        if self.id.is_none() && self.types.len() == 0 && self.graph.is_some()
            && self.included.is_none() && self.language.is_none() && self.direction.is_none()
            && self.expanded_property.is_none() && self.properties.is_empty()
            && self.reverse_properties.is_empty() {
            Ok(self.graph.unwrap())
        } else {
            Err(self)
        }
    }

    /// The values of a property: none where the node does not have it.
    pub fn get<'a>(&'a self, property: &Key<T>) -> (objects: Objects<'a, T>)
        ensures
            object_views(objects.remaining()).no_duplicates(),
            object_views(objects.remaining()).to_multiset() == self@.values(property@),
    {
        match self.properties.get(property) {
            Some(set) => set.iter(),
            None => Objects::none(),
        }
    }

    /// The values of a reverse property: none where the node does not have
    /// it.
    pub fn get_reverse<'a>(&'a self, property: &Key<T>) -> (objects: Objects<'a, T>)
        ensures
            object_views(objects.remaining()).no_duplicates(),
            object_views(objects.remaining()).to_multiset() == self@.reverse_values(property@),
    {
        match self.reverse_properties.get(property) {
            Some(set) => set.iter(),
            None => Objects::none(),
        }
    }

    /// Adds a value of a property.
    pub fn insert(&mut self, property: Key<T>, value: Object<T>)
        ensures
            final(self)@ == old(self)@.insert(property@, value@),
    {
        proof {
            use_type_invariant(&*self);
        }
        let mut properties = PropertyMap::new();
        proof {
            use_type_invariant(&properties);
        }
        core::mem::swap(&mut properties, &mut self.properties);
        properties.insert(property, value);
        proof {
            use_type_invariant(&properties);
        }
        self.properties = properties;
    }

    /// Adds the values of a list to a property, first to last. With an
    /// empty list nothing changes: the property is not created.
    pub fn insert_all(&mut self, property: Key<T>, values: Vec<Object<T>>)
        ensures
            final(self)@ == old(self)@.insert_all(property@, object_views(values@)),
            values@.len() == 0 ==> final(self)@ == old(self)@,
    {
        proof {
            use_type_invariant(&*self);
        }
        let mut properties = PropertyMap::new();
        proof {
            use_type_invariant(&properties);
        }
        core::mem::swap(&mut properties, &mut self.properties);
        properties.insert_all(property, values);
        proof {
            use_type_invariant(&properties);
        }
        self.properties = properties;
    }

    /// Adds a value of a reverse property. It goes to the reverse
    /// properties: the forward properties do not change.
    pub fn insert_reverse(&mut self, reverse_property: Key<T>, reverse_value: Object<T>)
        ensures
            final(self)@ == old(self)@.insert_reverse(reverse_property@, reverse_value@),
    {
        proof {
            use_type_invariant(&*self);
        }
        let mut properties = PropertyMap::new();
        proof {
            use_type_invariant(&properties);
        }
        core::mem::swap(&mut properties, &mut self.reverse_properties);
        properties.insert(reverse_property, reverse_value);
        proof {
            use_type_invariant(&properties);
        }
        self.reverse_properties = properties;
    }

    /// Adds the values of a list to a reverse property, first to last. They
    /// go to the reverse properties: the forward properties do not change.
    /// With an empty list nothing changes: the property is not created.
    pub fn insert_all_reverse(&mut self, reverse_property: Key<T>, reverse_values: Vec<Object<T>>)
        ensures
            final(self)@ == old(self)@.insert_all_reverse(
                reverse_property@,
                object_views(reverse_values@),
            ),
            reverse_values@.len() == 0 ==> final(self)@ == old(self)@,
    {
        proof {
            use_type_invariant(&*self);
        }
        let mut properties = PropertyMap::new();
        proof {
            use_type_invariant(&properties);
        }
        core::mem::swap(&mut properties, &mut self.reverse_properties);
        properties.insert_all(reverse_property, reverse_values);
        proof {
            use_type_invariant(&properties);
        }
        self.reverse_properties = properties;
    }

    /// Gives the node its key.
    pub fn set_id(&mut self, id: Key<T>)
        ensures
            final(self)@ == (NodeView { id: Some(id@), ..old(self)@ }),
    {
        proof {
            use_type_invariant(&*self);
        }
        self.id = Some(id);
    }

    /// Adds a type after the types that the node has.
    pub fn add_type(&mut self, ty: Key<T>)
        ensures
            final(self)@ == (NodeView { types: old(self)@.types.push(ty@), ..old(self)@ }),
    {
        proof {
            use_type_invariant(&*self);
        }
        let mut types = Vec::new();
        core::mem::swap(&mut types, &mut self.types);
        types.push(ty);
        assert(keys_view(types) =~= old(self)@.types.push(ty@));
        self.types = types;
    }

    /// Gives the node a graph.
    pub fn set_graph(&mut self, graph: ObjectSet<T>)
        ensures
            final(self)@ == (NodeView { graph: Some(graph@), ..old(self)@ }),
    {
        proof {
            use_type_invariant(&*self);
            use_type_invariant(&graph);
        }
        self.graph = Some(graph);
    }

    /// Gives the node a set of included nodes.
    pub fn set_included(&mut self, included: ObjectSet<T>)
        ensures
            final(self)@ == (NodeView { included: Some(included@), ..old(self)@ }),
    {
        proof {
            use_type_invariant(&*self);
            use_type_invariant(&included);
        }
        self.included = Some(included);
    }

    /// Gives the node a language.
    pub fn set_language(&mut self, language: String)
        ensures
            final(self)@ == (NodeView { language: Some(language@), ..old(self)@ }),
    {
        proof {
            use_type_invariant(&*self);
        }
        self.language = Some(language);
    }

    /// Gives the node a base direction.
    pub fn set_direction(&mut self, direction: Direction)
        ensures
            final(self)@ == (NodeView { direction: Some(direction), ..old(self)@ }),
    {
        proof {
            use_type_invariant(&*self);
        }
        self.direction = Some(direction);
    }

    /// Marks the node as expanded from a property.
    pub fn set_expanded_property(&mut self, property: Key<T>)
        ensures
            final(self)@ == (NodeView { expanded_property: Some(property@), ..old(self)@ }),
    {
        proof {
            use_type_invariant(&*self);
        }
        self.expanded_property = Some(property);
    }

    /// The node's key.
    pub fn id(&self) -> (id: Option<&Key<T>>)
        ensures
            match id {
                Some(key) => self@.id == Some(key@),
                None => self@.id is None,
            },
    {
        self.id.as_ref()
    }

    /// The node's types, in the order in which they were added.
    pub fn types(&self) -> (types: &Vec<Key<T>>)
        ensures
            keys_view(*types) == self@.types,
    {
        &self.types
    }

    /// The node's graph.
    pub fn graph(&self) -> (graph: Option<&ObjectSet<T>>)
        ensures
            match graph {
                Some(set) => self@.graph == Some(set@),
                None => self@.graph is None,
            },
    {
        self.graph.as_ref()
    }

    /// The node's included nodes.
    pub fn included(&self) -> (included: Option<&ObjectSet<T>>)
        ensures
            match included {
                Some(set) => self@.included == Some(set@),
                None => self@.included is None,
            },
    {
        self.included.as_ref()
    }

    /// The node's language.
    pub fn language(&self) -> (language: Option<&String>)
        ensures
            match language {
                Some(tag) => self@.language == Some(tag@),
                None => self@.language is None,
            },
    {
        self.language.as_ref()
    }

    /// The node's base direction.
    pub fn direction(&self) -> (direction: Option<Direction>)
        ensures
            direction == self@.direction,
    {
        self.direction
    }

    /// The property that the node was expanded from.
    pub fn expanded_property(&self) -> (property: Option<&Key<T>>)
        ensures
            match property {
                Some(key) => self@.expanded_property == Some(key@),
                None => self@.expanded_property is None,
            },
    {
        self.expanded_property.as_ref()
    }

    /// Whether two nodes are the same node.
    pub fn same(&self, other: &Self) -> (same: bool)
        ensures
            same == (self@ == other@),
        decreases self, 0nat,
    {
        if !same_key(&self.id, &other.id) {
            return false;
        }
        if !same_keys(&self.types, &other.types) {
            return false;
        }
        let graphs = match (&self.graph, &other.graph) {
            (Some(left), Some(right)) => left.same(right),
            (None, None) => true,
            _ => false,
        };
        if !graphs {
            return false;
        }
        let included = match (&self.included, &other.included) {
            (Some(left), Some(right)) => left.same(right),
            (None, None) => true,
            _ => false,
        };
        if !included {
            return false;
        }
        if !same_text(&self.language, &other.language) {
            return false;
        }
        if self.direction != other.direction {
            return false;
        }
        if !same_key(&self.expanded_property, &other.expanded_property) {
            return false;
        }
        if !self.properties.same(&other.properties) {
            return false;
        }
        self.reverse_properties.same(&other.reverse_properties)
    }
    /// A digest of the node, the same for nodes that are the same.
    pub fn digest(&self) -> (digest: u64)
        ensures
            digest == Self::digest_of(self@),
            digest == self.spec_digest(),
        decreases self, 0nat,
    {
        proof {
            use_type_invariant(self);
            self.lemma_digest_of_view();
        }
        let graph = match &self.graph {
            Some(set) => Some(set.digest()),
            None => None,
        };
        let included = match &self.included {
            Some(set) => Some(set.digest()),
            None => None,
        };
        let digest = digest_key(&self.id);
        let digest = mix(digest, digest_keys(&self.types));
        let digest = mix(digest, digest_optional(graph));
        let digest = mix(digest, digest_optional(included));
        let digest = mix(digest, digest_text(&self.language));
        let digest = mix(digest, digest_direction(&self.direction));
        let digest = mix(digest, digest_key(&self.expanded_property));
        let digest = mix(digest, self.properties.digest());
        mix(digest, self.reverse_properties.digest())
    }

    /// A well-formed node holds sets, and no property without a value.
    pub proof fn lemma_view_wf(&self)
        requires
            self.wf(),
        ensures
            self@.wf(),
    {
        match self.graph {
            Some(set) => {
                set.lemma_is_set();
            },
            None => {},
        }
        match self.included {
            Some(set) => {
                set.lemma_is_set();
            },
            None => {},
        }
        self.properties.lemma_is_property_map();
        self.reverse_properties.lemma_is_property_map();
    }

    /// Two nodes that are the same node have the same digest, in whatever
    /// order the values of each were inserted.
    pub proof fn lemma_digest_of_same(&self, other: &Self)
        requires
            self.wf(),
            other.wf(),
            self@ == other@,
        ensures
            self.spec_digest() == other.spec_digest(),
        decreases self, 0nat,
    {
        match (self.graph, other.graph) {
            (Some(left), Some(right)) => {
                left.lemma_digest_of_same(&right);
            },
            _ => {},
        }
        match (self.included, other.included) {
            (Some(left), Some(right)) => {
                left.lemma_digest_of_same(&right);
            },
            _ => {},
        }
        self.properties.lemma_digest_of_same(&other.properties);
        self.reverse_properties.lemma_digest_of_same(&other.reverse_properties);
    }

    /// The digest of a well-formed node is the digest of what it is.
    pub proof fn lemma_digest_of_view(&self)
        requires
            self.wf(),
        ensures
            self.spec_digest() == Self::digest_of(self@),
    {
        let node = choose|node: Node<T>| node.wf() && node@ == self@;
        node.lemma_digest_of_same(self);
    }

    /// The digest of a node mixes, in the order of the fields, the digests
    /// of its key, its types, its graph, its included nodes, its language,
    /// its direction, the property that it was expanded from, its
    /// properties and its reverse properties.
    pub proof fn lemma_digest_of_parts(&self)
        requires
            self.wf(),
        ensures
            Self::digest_of(self@) == node_digest::<T>(
                self@,
                match self@.graph {
                    Some(graph) => Some(ObjectSet::<T>::digest_of(graph)),
                    None => None,
                },
                match self@.included {
                    Some(included) => Some(ObjectSet::<T>::digest_of(included)),
                    None => None,
                },
                PropertyMap::<T>::digest_of(self@.properties),
                PropertyMap::<T>::digest_of(self@.reverse_properties),
            ),
    {
        self.lemma_digest_of_view();
        match self.graph {
            Some(set) => {
                set.lemma_digest_of_view();
            },
            None => {},
        }
        match self.included {
            Some(set) => {
                set.lemma_digest_of_view();
            },
            None => {},
        }
        self.properties.lemma_digest_of_view();
        self.reverse_properties.lemma_digest_of_view();
    }
}

impl<T: Id> PartialEq for Node<T> {
    fn eq(&self, other: &Self) -> (same: bool) {
        self.same(other)
    }
}

impl<T: Id> PartialEqSpecImpl for Node<T> {
    open spec fn obeys_eq_spec() -> bool {
        true
    }

    open spec fn eq_spec(&self, other: &Self) -> bool {
        self@ == other@
    }
}

impl<T: Id> Eq for Node<T> {

}

impl<T: Id> Hash for Node<T> {
    fn hash<H: Hasher>(&self, state: &mut H) {
        write_digest(state, self.digest())
    }
}

/// Whether two optional keys are the same.
fn same_key<T: Id>(left: &Option<Key<T>>, right: &Option<Key<T>>) -> (same: bool)
    ensures
        same == (key_view(*left) == key_view(*right)),
{
    match (left, right) {
        (Some(left), Some(right)) => left.same(right),
        (None, None) => true,
        _ => false,
    }
}

/// Whether two optional texts are the same.
fn same_text(left: &Option<String>, right: &Option<String>) -> (same: bool)
    ensures
        same == (text_view(*left) == text_view(*right)),
{
    match (left, right) {
        (Some(left), Some(right)) => *left == *right,
        (None, None) => true,
        _ => false,
    }
}

/// Whether two lists of keys hold the same keys in the same order.
fn same_keys<T: Id>(left: &Vec<Key<T>>, right: &Vec<Key<T>>) -> (same: bool)
    ensures
        same == (keys_view(*left) == keys_view(*right)),
{
    if left.len() != right.len() {
        assert(keys_view(*left).len() != keys_view(*right).len());
        return false;
    }
    let mut i: usize = 0;
    while i < left.len()
        invariant
            i <= left.len(),
            left.len() == right.len(),
            forall|j: int| 0 <= j < i ==> left[j]@ == right[j]@,
        decreases left.len() - i,
    {
        if !left[i].same(&right[i]) {
            assert(keys_view(*left)[i as int] != keys_view(*right)[i as int]);
            return false;
        }
        i += 1;
    }
    assert(keys_view(*left) =~= keys_view(*right));
    true
}

/// A digest of an optional digest.
fn digest_optional(digest: Option<u64>) -> (folded: u64)
    ensures
        folded == optional(digest),
{
    match digest {
        Some(digest) => mix(PRESENT, digest),
        None => ABSENT,
    }
}

/// A digest of an optional key.
fn digest_key<T: Id>(key: &Option<Key<T>>) -> (digest: u64)
    ensures
        digest == optional_key_digest::<T>(key_view(*key)),
{
    match key {
        Some(key) => digest_optional(Some(key.digest())),
        None => digest_optional(None),
    }
}

/// A digest of an optional text.
fn digest_text(text: &Option<String>) -> (digest: u64)
    ensures
        digest == optional_text_digest(text_view(*text)),
{
    match text {
        Some(text) => digest_optional(Some(digest_str(text.as_str()))),
        None => digest_optional(None),
    }
}

/// A digest of an optional direction.
fn digest_direction(direction: &Option<Direction>) -> (digest: u64)
    ensures
        digest == optional_direction_digest(*direction),
{
    match direction {
        Some(direction) => digest_optional(Some(direction.digest())),
        None => digest_optional(None),
    }
}

/// A digest of a list of keys.
fn digest_keys<T: Id>(keys: &Vec<Key<T>>) -> (digest: u64)
    ensures
        digest == keys_digest::<T>(keys_view(*keys)),
{
    let ghost digests = keys_view(*keys).map_values(|key: KeyView| Key::<T>::digest_of(key));
    let mut digest: u64 = ABSENT;
    let mut i: usize = 0;
    assert(digests.take(0) =~= Seq::<u64>::empty());
    while i < keys.len()
        invariant
            i <= keys.len(),
            digests == keys_view(*keys).map_values(|key: KeyView| Key::<T>::digest_of(key)),
            digest == ordered(digests.take(i as int)),
        decreases keys.len() - i,
    {
        assert(digests.take(i + 1).drop_last() =~= digests.take(i as int));
        digest = mix(digest, keys[i].digest());
        i += 1;
    }
    assert(digests.take(i as int) =~= digests);
    digest
}

} // verus!
