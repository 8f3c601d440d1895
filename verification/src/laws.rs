//! What holds of nodes whatever their values and the order of insertion.

use crate::key::KeyView;
use crate::view::{
    is_property_map, is_set, values_of, with_object, with_objects, with_value, with_values,
    NodeView, ObjectView,
};
use vstd::multiset::Multiset;
use vstd::prelude::*;

verus! {

/// A node with each pair of a property and a value inserted, first to last.
pub open spec fn insert_each(node: NodeView, pairs: Seq<(KeyView, ObjectView)>) -> NodeView
    decreases pairs.len(),
{
    if pairs.len() == 0 {
        node
    } else {
        insert_each(node, pairs.drop_last()).insert(pairs.last().0, pairs.last().1)
    }
}

/// Whether a property occurs among pairs of a property and a value.
pub open spec fn has_key(pairs: Seq<(KeyView, ObjectView)>, key: KeyView) -> bool {
    exists|i: int| 0 <= i < pairs.len() && (#[trigger] pairs[i]).0 == key
}

/// Inserting pairs changes the properties of a node and nothing else.
pub proof fn lemma_insert_each_keeps(node: NodeView, pairs: Seq<(KeyView, ObjectView)>)
    ensures
        insert_each(node, pairs) == (NodeView {
            properties: insert_each(node, pairs).properties,
            ..node
        }),
    decreases pairs.len(),
{
    if pairs.len() > 0 {
        lemma_insert_each_keeps(node, pairs.drop_last());
    }
}

/// After pairs were inserted a node has the properties that it had and
/// those of the pairs.
pub proof fn lemma_insert_each_keys(
    node: NodeView,
    pairs: Seq<(KeyView, ObjectView)>,
    key: KeyView,
)
    ensures
        insert_each(node, pairs).properties.dom().contains(key) <==> node.properties.dom().contains(
            key,
        ) || has_key(pairs, key),
    decreases pairs.len(),
{
    if pairs.len() > 0 {
        let front = pairs.drop_last();
        let last = pairs.last();
        lemma_insert_each_keys(node, front, key);
        if has_key(front, key) {
            let i = choose|i: int| 0 <= i < front.len() && (#[trigger] front[i]).0 == key;
            assert(pairs[i].0 == key);
        }
        if last.0 == key {
            assert(pairs[pairs.len() - 1].0 == key);
        }
        if has_key(pairs, key) {
            let i = choose|i: int| 0 <= i < pairs.len() && (#[trigger] pairs[i]).0 == key;
            if i < front.len() {
                assert(front[i].0 == key);
            }
        }
    }
}

/// After pairs were inserted a property has the values that it had, as
/// often as it had them, and the values of the pairs, each once.
pub proof fn lemma_insert_each_values(
    node: NodeView,
    pairs: Seq<(KeyView, ObjectView)>,
    key: KeyView,
    object: ObjectView,
)
    ensures
        insert_each(node, pairs).values(key).count(object) == if node.values(key).contains(
            object,
        ) {
            node.values(key).count(object)
        } else if pairs.contains((key, object)) {
            1nat
        } else {
            0nat
        },
    decreases pairs.len(),
{
    if pairs.len() > 0 {
        let front = pairs.drop_last();
        let last = pairs.last();
        lemma_insert_each_values(node, front, key, object);
        if front.contains((key, object)) {
            let i = choose|i: int| 0 <= i < front.len() && front[i] == (key, object);
            assert(pairs[i] == (key, object));
        }
        if last == (key, object) {
            assert(pairs[pairs.len() - 1] == (key, object));
        }
        if pairs.contains((key, object)) {
            let i = choose|i: int| 0 <= i < pairs.len() && pairs[i] == (key, object);
            if i < front.len() {
                assert(front[i] == (key, object));
            }
        }
    }
}

/// Inserting the same pairs of a property and a value in another order
/// gives the same node.
pub proof fn lemma_insertion_order(
    node: NodeView,
    first: Seq<(KeyView, ObjectView)>,
    second: Seq<(KeyView, ObjectView)>,
)
    requires
        first.to_multiset() == second.to_multiset(),
    ensures
        insert_each(node, first) == insert_each(node, second),
{
    let left = insert_each(node, first);
    let right = insert_each(node, second);
    assert forall|pair: (KeyView, ObjectView)| first.contains(pair) == second.contains(pair) by {
        vstd::seq_lib::to_multiset_contains(first, pair);
        vstd::seq_lib::to_multiset_contains(second, pair);
    }
    assert forall|key: KeyView| has_key(first, key) == has_key(second, key) by {
        if has_key(first, key) {
            let i = choose|i: int| 0 <= i < first.len() && (#[trigger] first[i]).0 == key;
            assert(first.contains(first[i]));
            let j = choose|j: int| 0 <= j < second.len() && second[j] == first[i];
            assert(second[j].0 == key);
        }
        if has_key(second, key) {
            let i = choose|i: int| 0 <= i < second.len() && (#[trigger] second[i]).0 == key;
            assert(second.contains(second[i]));
            let j = choose|j: int| 0 <= j < first.len() && first[j] == second[i];
            assert(first[j].0 == key);
        }
    }
    assert forall|key: KeyView|
        left.properties.dom().contains(key) == right.properties.dom().contains(key) by {
        lemma_insert_each_keys(node, first, key);
        lemma_insert_each_keys(node, second, key);
    }
    assert forall|key: KeyView| left.properties.dom().contains(key) implies left.properties[key]
        == right.properties[key] by {
        assert forall|object: ObjectView|
            left.properties[key].count(object) == right.properties[key].count(object) by {
            lemma_insert_each_values(node, first, key, object);
            lemma_insert_each_values(node, second, key, object);
        }
        assert(left.properties[key] =~= right.properties[key]);
    }
    lemma_insert_each_keeps(node, first);
    lemma_insert_each_keeps(node, second);
    assert(left.properties =~= right.properties);
}

/// Inserting a value that a property has changes nothing: after the same
/// pair was inserted twice the node is as after the first time.
pub proof fn lemma_insert_twice(node: NodeView, key: KeyView, object: ObjectView)
    ensures
        node.insert(key, object).insert(key, object) == node.insert(key, object),
        node.insert(key, object).values(key).contains(object),
        !node.properties.dom().contains(key) ==> node.insert(key, object).insert(
            key,
            object,
        ).values(key).len() == 1,
{
    let once = node.insert(key, object);
    assert(once.insert(key, object).properties =~= once.properties);
    if !node.properties.dom().contains(key) {
        assert(once.values(key) =~= Multiset::singleton(object));
    }
}

/// Inserting no value changes nothing: the property is not created where
/// the node did not have it, and keeps its values where it had it.
pub proof fn lemma_insert_nothing(node: NodeView, key: KeyView)
    ensures
        node.insert_all(key, Seq::empty()) == node,
        node.insert_all_reverse(key, Seq::empty()) == node,
{
}

/// Putting values into a set all at once is putting them in one by one.
pub proof fn lemma_with_objects_push(
    objects: Multiset<ObjectView>,
    more: Seq<ObjectView>,
    object: ObjectView,
)
    ensures
        with_objects(objects, more.push(object)) == with_object(
            with_objects(objects, more),
            object,
        ),
{
    assert(more.push(object).drop_last() =~= more);
}

/// Inserting values all at once is inserting them one by one.
pub proof fn lemma_insert_all_push(
    node: NodeView,
    key: KeyView,
    objects: Seq<ObjectView>,
    object: ObjectView,
)
    ensures
        node.insert_all(key, objects.push(object)) == node.insert_all(key, objects).insert(
            key,
            object,
        ),
        node.insert_all_reverse(key, objects.push(object)) == node.insert_all_reverse(
            key,
            objects,
        ).insert_reverse(key, object),
{
    lemma_with_objects_push(values_of(node.properties, key), objects, object);
    lemma_with_objects_push(values_of(node.reverse_properties, key), objects, object);
    assert(with_values(node.properties, key, objects.push(object)) =~= with_value(
        with_values(node.properties, key, objects),
        key,
        object,
    ));
    assert(with_values(node.reverse_properties, key, objects.push(object)) =~= with_value(
        with_values(node.reverse_properties, key, objects),
        key,
        object,
    ));
}

/// A set with one more object is a set.
pub proof fn lemma_with_object_is_set(objects: Multiset<ObjectView>, object: ObjectView)
    requires
        is_set(objects),
    ensures
        is_set(with_object(objects, object)),
        with_object(objects, object).contains(object),
        with_object(objects, object).len() > 0,
{
    let after = with_object(objects, object);
    assert(after.count(object) > 0);
}

/// Inserting a value keeps every property with a set of values that is
/// not empty.
pub proof fn lemma_insert_keeps_property_map(
    properties: Map<KeyView, Multiset<ObjectView>>,
    key: KeyView,
    object: ObjectView,
)
    requires
        is_property_map(properties),
    ensures
        is_property_map(with_value(properties, key, object)),
{
    assert(is_set(values_of(properties, key)));
    lemma_with_object_is_set(values_of(properties, key), object);
}

/// A node is empty when it holds nothing but, perhaps, its key: the key
/// does not count, and anything else does.
pub proof fn lemma_is_empty(node: NodeView)
    ensures
        node.is_empty() <==> node == (NodeView { id: node.id, ..NodeView::empty() }),
        NodeView::empty().is_empty(),
        forall|id: Option<KeyView>| (NodeView { id, ..node }).is_empty() == node.is_empty(),
        node.types.len() > 0 ==> !node.is_empty(),
        node.graph is Some ==> !node.is_empty(),
        node.included is Some ==> !node.is_empty(),
        node.language is Some ==> !node.is_empty(),
        node.direction is Some ==> !node.is_empty(),
        node.expanded_property is Some ==> !node.is_empty(),
        forall|key: KeyView| node.properties.dom().contains(key) ==> !node.is_empty(),
        forall|key: KeyView| node.reverse_properties.dom().contains(key) ==> !node.is_empty(),
{
    if node.is_empty() {
        assert(node.types =~= Seq::empty());
        assert(node.properties =~= Map::empty());
        assert(node.reverse_properties =~= Map::empty());
    }
}

/// A node with a value inserted is not empty, whatever it was.
pub proof fn lemma_insert_fills(node: NodeView, key: KeyView, object: ObjectView)
    ensures
        !node.insert(key, object).is_empty(),
        !node.insert_reverse(key, object).is_empty(),
{
    assert(node.insert(key, object).properties.dom().contains(key));
    assert(node.insert_reverse(key, object).reverse_properties.dom().contains(key));
}

/// A node is a graph and nothing else when it is empty but for its graph
/// and has no key.
pub proof fn lemma_is_unnamed_graph(node: NodeView)
    ensures
        node.is_unnamed_graph() <==> node.graph is Some && node == (NodeView {
            graph: node.graph,
            ..NodeView::empty()
        }),
{
    if node.is_unnamed_graph() {
        assert(node.types =~= Seq::empty());
        assert(node.properties =~= Map::empty());
        assert(node.reverse_properties =~= Map::empty());
    }
}

} // verus!
