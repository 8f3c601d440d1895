//! What nodes and objects are, apart from how they are stored.
//!
//! A set of objects is a multiset in which nothing occurs twice; a
//! property map is a map from keys to such sets. Two nodes are equal when
//! they are the same [`NodeView`].

use crate::direction::Direction;
use crate::key::KeyView;
use crate::text::text_of;
use vstd::multiset::Multiset;
use vstd::prelude::*;

verus! {

/// What an object is.
pub enum ObjectView {
    /// A literal of this text.
    Value(Seq<char>),
    /// A node.
    Node(NodeView),
}

/// What a node is.
pub struct NodeView {
    /// The node's own key.
    pub id: Option<KeyView>,
    /// The node's types, in the order in which they were added.
    pub types: Seq<KeyView>,
    /// The graph that the node holds.
    pub graph: Option<Multiset<ObjectView>>,
    /// The nodes that the node includes.
    pub included: Option<Multiset<ObjectView>>,
    /// The language of the node's text.
    pub language: Option<Seq<char>>,
    /// The base direction of the node's text.
    pub direction: Option<Direction>,
    /// The property that the node was expanded from.
    pub expanded_property: Option<KeyView>,
    /// The values of the node's properties.
    pub properties: Map<KeyView, Multiset<ObjectView>>,
    /// The values of the node's reverse properties.
    pub reverse_properties: Map<KeyView, Multiset<ObjectView>>,
}

/// Whether nothing occurs twice in a collection of objects.
pub open spec fn is_set(objects: Multiset<ObjectView>) -> bool {
    forall|object: ObjectView| objects.count(object) <= 1
}

/// A set of objects with one more object, unless it is there already.
pub open spec fn with_object(objects: Multiset<ObjectView>, object: ObjectView) -> Multiset<
    ObjectView,
> {
    if objects.contains(object) {
        objects
    } else {
        objects.insert(object)
    }
}

/// A set of objects with each object of a sequence put in, first to last.
pub open spec fn with_objects(objects: Multiset<ObjectView>, more: Seq<ObjectView>) -> Multiset<
    ObjectView,
>
    decreases more.len(),
{
    if more.len() == 0 {
        objects
    } else {
        with_object(with_objects(objects, more.drop_last()), more.last())
    }
}

/// The values under a key: none where the key is absent.
pub open spec fn values_of(
    properties: Map<KeyView, Multiset<ObjectView>>,
    key: KeyView,
) -> Multiset<ObjectView> {
    if properties.dom().contains(key) {
        properties[key]
    } else {
        Multiset::empty()
    }
}

/// A property map with one more value under a key.
pub open spec fn with_value(
    properties: Map<KeyView, Multiset<ObjectView>>,
    key: KeyView,
    object: ObjectView,
) -> Map<KeyView, Multiset<ObjectView>> {
    properties.insert(key, with_object(values_of(properties, key), object))
}

/// A property map with each object of a sequence put under a key. With no
/// object the map is unchanged: the key is not created.
pub open spec fn with_values(
    properties: Map<KeyView, Multiset<ObjectView>>,
    key: KeyView,
    objects: Seq<ObjectView>,
) -> Map<KeyView, Multiset<ObjectView>> {
    if objects.len() == 0 {
        properties
    } else {
        properties.insert(key, with_objects(values_of(properties, key), objects))
    }
}

/// Whether every key of a property map has a value, and none twice.
pub open spec fn is_property_map(properties: Map<KeyView, Multiset<ObjectView>>) -> bool {
    &&& properties.dom().finite()
    &&& forall|key: KeyView| #[trigger]
        properties.dom().contains(key) ==> is_set(properties[key]) && properties[key].len() > 0
}

impl NodeView {
    /// The node without anything.
    pub open spec fn empty() -> NodeView {
        NodeView {
            id: None,
            types: Seq::empty(),
            graph: None,
            included: None,
            language: None,
            direction: None,
            expanded_property: None,
            properties: Map::empty(),
            reverse_properties: Map::empty(),
        }
    }

    /// Whether the node holds nothing but, perhaps, its key.
    pub open spec fn is_empty(self) -> bool {
        &&& self.types.len() == 0
        &&& self.graph is None
        &&& self.included is None
        &&& self.language is None
        &&& self.direction is None
        &&& self.expanded_property is None
        &&& self.properties.dom().is_empty()
        &&& self.reverse_properties.dom().is_empty()
    }

    /// Whether the node is a graph and nothing else: it has no key.
    pub open spec fn is_unnamed_graph(self) -> bool {
        &&& self.id is None
        &&& self.types.len() == 0
        &&& self.graph is Some
        &&& self.included is None
        &&& self.language is None
        &&& self.direction is None
        &&& self.expanded_property is None
        &&& self.properties.dom().is_empty()
        &&& self.reverse_properties.dom().is_empty()
    }

    /// Whether the node's graph and included nodes are sets, and each of
    /// its properties, forward and reverse, has a set of values that is not
    /// empty.
    pub open spec fn wf(self) -> bool {
        &&& self.graph matches Some(graph) ==> is_set(graph)
        &&& self.included matches Some(included) ==> is_set(included)
        &&& is_property_map(self.properties)
        &&& is_property_map(self.reverse_properties)
    }

    /// The bytes of the IRI of the node's key, where the node has a key and
    /// the key stands for an IRI.
    pub open spec fn iri(self) -> Option<Seq<u8>> {
        match self.id {
            Some(key) => key.iri(),
            None => None,
        }
    }

    /// The text of the node's IRI, where the node has one and its bytes are
    /// UTF-8.
    pub open spec fn text(self) -> Option<Seq<char>> {
        match self.iri() {
            Some(bytes) => text_of(bytes),
            None => None,
        }
    }

    /// The values of a property: none where the node has no such property.
    pub open spec fn values(self, key: KeyView) -> Multiset<ObjectView> {
        values_of(self.properties, key)
    }

    /// The values of a reverse property.
    pub open spec fn reverse_values(self, key: KeyView) -> Multiset<ObjectView> {
        values_of(self.reverse_properties, key)
    }

    /// The node with one more value of a property.
    pub open spec fn insert(self, key: KeyView, object: ObjectView) -> NodeView {
        NodeView { properties: with_value(self.properties, key, object), ..self }
    }

    /// The node with more values of a property.
    pub open spec fn insert_all(self, key: KeyView, objects: Seq<ObjectView>) -> NodeView {
        NodeView { properties: with_values(self.properties, key, objects), ..self }
    }

    /// The node with one more value of a reverse property.
    pub open spec fn insert_reverse(self, key: KeyView, object: ObjectView) -> NodeView {
        NodeView { reverse_properties: with_value(self.reverse_properties, key, object), ..self }
    }

    /// The node with more values of a reverse property.
    pub open spec fn insert_all_reverse(self, key: KeyView, objects: Seq<ObjectView>) -> NodeView {
        NodeView {
            reverse_properties: with_values(self.reverse_properties, key, objects),
            ..self
        }
    }
}

} // verus!
