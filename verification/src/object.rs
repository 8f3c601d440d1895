//! Objects and sets of objects.
//!
//! A set is stored as a list in which no object occurs twice, in the order
//! in which the objects came. What the set is, its equality and its digest
//! do not depend on that order.

use crate::digest::{
    lemma_total_of_images, lemma_unordered_push, mix, mixed, unordered, write_digest,
};
use crate::id::Id;
use crate::node::Node;
use crate::sequences::lemma_same_members;
use crate::text::{digest_str, text_digest};
use crate::view::{is_set, with_object, with_objects, ObjectView};
use core::hash::{Hash, Hasher};
use vstd::multiset::Multiset;
use vstd::prelude::*;
use vstd::std_specs::cmp::PartialEqSpecImpl;

verus! {

/// The seed of a literal's digest.
pub const VALUE: u64 = 1;

/// The seed of a node's digest, where the node is an object.
pub const NODE: u64 = 2;

/// A value of a property or a member of a graph.
#[derive(Debug)]
pub enum Object<T: Id> {
    /// A literal.
    Value(String),
    /// A node.
    Node(Node<T>),
}

/// A set of objects. What it holds does not depend on the order in which
/// the objects came.
#[derive(Debug)]
pub struct ObjectSet<T: Id> {
    pub(crate) items: Vec<Object<T>>,
}

impl<T: Id> Object<T> {
    /// What this object is.
    pub closed spec fn view(&self) -> ObjectView
        decreases self, 0nat,
    {
        match self {
            Object::Value(text) => ObjectView::Value(text@),
            Object::Node(node) => ObjectView::Node(node.view()),
        }
    }

    /// Whether the object is well formed: a node is, in all its parts.
    pub closed spec fn wf(&self) -> bool
        decreases self, 0nat,
    {
        match self {
            Object::Value(_) => true,
            Object::Node(node) => node.wf(),
        }
    }

    /// The digest of the object, as it is computed from its parts.
    pub closed spec fn spec_digest(&self) -> u64
        decreases self, 0nat,
    {
        match self {
            Object::Value(text) => mixed(VALUE, text_digest(text@)),
            Object::Node(node) => mixed(NODE, node.spec_digest()),
        }
    }

    /// The digest of every object that is a given object.
    pub closed spec fn digest_of(view: ObjectView) -> u64 {
        let object = choose|object: Object<T>| object.wf() && object@ == view;
        object.spec_digest()
    }

    /// Whether two objects are the same object.
    pub fn same(&self, other: &Self) -> (same: bool)
        ensures
            same == (self@ == other@),
        decreases self, 0nat,
    {
        match (self, other) {
            (Object::Value(left), Object::Value(right)) => *left == *right,
            (Object::Node(left), Object::Node(right)) => left.same(right),
            _ => false,
        }
    }

    /// A digest of the object, the same for objects that are the same.
    pub fn digest(&self) -> (digest: u64)
        ensures
            digest == Self::digest_of(self@),
            digest == self.spec_digest(),
        decreases self, 0nat,
    {
        self.confirm();
        proof {
            self.lemma_digest_of_view();
        }
        match self {
            Object::Value(text) => mix(VALUE, digest_str(text.as_str())),
            Object::Node(node) => mix(NODE, node.digest()),
        }
    }

    /// Every object that a program holds is well formed: its nodes were
    /// built by the functions of this library. This does nothing when run;
    /// it is called for the fact.
    pub(crate) fn confirm(&self)
        ensures
            self.wf(),
    {
        match self {
            Object::Value(_) => {},
            Object::Node(node) => {
                proof {
                    use_type_invariant(node);
                }
            },
        }
    }

    /// What an object is: a literal is its text, a node is what the node
    /// is.
    pub proof fn lemma_view(&self)
        ensures
            match self {
                Object::Value(text) => self@ == ObjectView::Value(text@),
                Object::Node(node) => self@ == ObjectView::Node(node@),
            },
    {
    }

    /// A literal is well formed; a node, as an object, is when the node is.
    pub proof fn lemma_wf(&self)
        ensures
            match self {
                Object::Value(_) => self.wf(),
                Object::Node(node) => self.wf() == node.wf(),
            },
    {
    }

    /// Two objects that are the same object have the same digest.
    pub proof fn lemma_digest_of_same(&self, other: &Self)
        requires
            self.wf(),
            other.wf(),
            self@ == other@,
        ensures
            self.spec_digest() == other.spec_digest(),
        decreases self, 0nat,
    {
        match (self, other) {
            (Object::Node(left), Object::Node(right)) => {
                left.lemma_digest_of_same(right);
            },
            _ => {},
        }
    }

    /// The digest of a well-formed object is the digest of what it is.
    pub proof fn lemma_digest_of_view(&self)
        requires
            self.wf(),
        ensures
            self.spec_digest() == Self::digest_of(self@),
    {
        let object = choose|object: Object<T>| object.wf() && object@ == self@;
        object.lemma_digest_of_same(self);
    }

    /// The digest of a literal mixes the digest of its text; the digest of a
    /// node, as an object, mixes the node's digest.
    pub proof fn lemma_digest_of_parts(&self)
        requires
            self.wf(),
        ensures
            match self {
                Object::Value(text) => Self::digest_of(self@) == mixed(VALUE, text_digest(text@)),
                Object::Node(node) => Self::digest_of(self@) == mixed(
                    NODE,
                    Node::<T>::digest_of(node@),
                ),
            },
    {
        self.lemma_digest_of_view();
        match self {
            Object::Value(_) => {},
            Object::Node(node) => {
                node.lemma_digest_of_view();
            },
        }
    }
}

/// What each object of a sequence is.
pub open spec fn object_views<T: Id>(objects: Seq<Object<T>>) -> Seq<ObjectView> {
    objects.map_values(|object: Object<T>| object@)
}

impl<T: Id> ObjectSet<T> {
    /// What the stored objects are, in the order in which they are stored.
    spec fn views(&self) -> Seq<ObjectView>
        decreases self, 0nat,
    {
        Seq::new(
            self.items.len() as nat,
            |i: int|
                if 0 <= i < self.items.len() {
                    self.items[i].view()
                } else {
                    arbitrary()
                },
        )
    }

    /// The objects of the set.
    pub closed spec fn view(&self) -> Multiset<ObjectView>
        decreases self, 1nat,
    {
        self.views().to_multiset()
    }

    /// Whether the set is well formed: its objects are, and no two of them
    /// are the same object.
    #[verifier::type_invariant]
    pub closed spec fn wf(&self) -> bool
        decreases self, 1nat,
    {
        &&& forall|i: int| 0 <= i < self.items.len() ==> (#[trigger] self.items[i]).wf()
        &&& self.views().no_duplicates()
    }

    /// The digests of the stored objects, in the order in which they are
    /// stored.
    spec fn digests(&self) -> Seq<u64>
        decreases self, 0nat,
    {
        Seq::new(
            self.items.len() as nat,
            |i: int|
                if 0 <= i < self.items.len() {
                    self.items[i].spec_digest()
                } else {
                    arbitrary()
                },
        )
    }

    /// The digest of the set, as it is computed from its parts: the sum of
    /// its objects' digests, modulo 2^64.
    pub closed spec fn spec_digest(&self) -> u64
        decreases self, 1nat,
    {
        unordered(self.digests())
    }

    /// The digest of every set that holds given objects.
    pub closed spec fn digest_of(view: Multiset<ObjectView>) -> u64 {
        let set = choose|set: ObjectSet<T>| set.wf() && set@ == view;
        set.spec_digest()
    }

    /// The empty set.
    pub fn new() -> (set: Self)
        ensures
            set@ == Multiset::<ObjectView>::empty(),
    {
        let set = ObjectSet { items: Vec::new() };
        proof {
            set.views().to_multiset_ensures();
            assert(set@.len() == 0);
            assert(set@ =~= Multiset::<ObjectView>::empty());
        }
        set
    }

    /// The number of objects in the set.
    pub fn len(&self) -> (len: usize)
        ensures
            len == self@.len(),
    {
        proof {
            self.views().to_multiset_ensures();
        }
        self.items.len()
    }

    /// Whether the set has no object.
    pub fn is_empty(&self) -> (empty: bool)
        ensures
            empty == (self@.len() == 0),
    {
        proof {
            self.views().to_multiset_ensures();
        }
        self.items.len() == 0
    }

    /// Whether an object is in the set.
    pub fn contains(&self, object: &Object<T>) -> (found: bool)
        ensures
            found == self@.contains(object@),
        decreases object, 1nat,
    {
        proof {
            self.views().to_multiset_ensures();
        }
        let mut i: usize = 0;
        while i < self.items.len()
            invariant
                i <= self.items.len(),
                forall|j: int| 0 <= j < i ==> self.views()[j] != object@,
                forall|v: ObjectView|
                    self.views().contains(v) <==> #[trigger] self.views().to_multiset().count(v)
                        > 0,
            decreases self.items.len() - i,
        {
            if object.same(&self.items[i]) {
                assert(self.views()[i as int] == object@);
                return true;
            }
            i += 1;
        }
        false
    }

    /// Puts an object into the set, unless it is there already, and says
    /// whether it was put in.
    pub fn insert(&mut self, object: Object<T>) -> (added: bool)
        ensures
            final(self)@ == with_object(old(self)@, object@),
            added == !old(self)@.contains(object@),
    {
        proof {
            use_type_invariant(&*self);
        }
        if self.contains(&object) {
            false
        } else {
            object.confirm();
            let ghost before = self.views();
            let mut items = Vec::new();
            core::mem::swap(&mut items, &mut self.items);
            items.push(object);
            proof {
                let after = ObjectSet { items };
                before.to_multiset_ensures();
                assert(after.views() =~= before.push(object@));
            }
            self.items = items;
            true
        }
    }

    /// Puts each object of a list into the set, first to last.
    pub fn extend(&mut self, objects: Vec<Object<T>>)
        ensures
            final(self)@ == with_objects(old(self)@, object_views(objects@)),
    {
        let ghost given = object_views(objects@);
        let ghost before = self@;
        for object in it: objects
            invariant
                given == object_views(it.seq()),
                self@ == with_objects(before, given.take(it.index() as int)),
        {
            assert(given.take(it.index() + 1).drop_last() =~= given.take(it.index() as int));
            self.insert(object);
        }
        assert(given.take(given.len() as int) =~= given);
    }

    /// The objects of the set, one at a time.
    pub fn iter(&self) -> (objects: Objects<'_, T>)
        ensures
            objects.remaining().len() == self@.len(),
            object_views(objects.remaining()).no_duplicates(),
            object_views(objects.remaining()).to_multiset() == self@,
    {
        proof {
            use_type_invariant(self);
            self.lemma_items();
            self.lemma_len();
            assert(self.items@.subrange(0, self.items.len() as int) =~= self.items@);
        }
        Objects { set: Some(self), next: 0 }
    }

    /// Whether two sets hold the same objects.
    pub fn same(&self, other: &Self) -> (same: bool)
        ensures
            same == (self@ == other@),
        decreases self, 1nat,
    {
        proof {
            use_type_invariant(self);
            use_type_invariant(other);
            self.views().to_multiset_ensures();
            other.views().to_multiset_ensures();
        }
        if self.items.len() != other.items.len() {
            return false;
        }
        let mut i: usize = 0;
        while i < self.items.len()
            invariant
                self.wf(),
                other.wf(),
                i <= self.items.len(),
                self.items.len() == other.items.len(),
                forall|j: int| 0 <= j < i ==> other@.contains(#[trigger] self.views()[j]),
                forall|v: ObjectView|
                    self.views().contains(v) <==> #[trigger] self.views().to_multiset().count(v)
                        > 0,
                forall|v: ObjectView|
                    other.views().contains(v) <==> #[trigger] other.views().to_multiset().count(v)
                        > 0,
            decreases self.items.len() - i,
        {
            if !other.contains(&self.items[i]) {
                assert(self.views()[i as int] == self.items[i as int]@);
                assert(self.views().contains(self.items[i as int]@));
                return false;
            }
            assert(self.views()[i as int] == self.items[i as int]@);
            i += 1;
        }
        proof {
            assert forall|j: int| 0 <= j < self.views().len() implies other.views().contains(
                #[trigger] self.views()[j],
            ) by {
                assert(other@.contains(self.views()[j]));
            }
            lemma_same_members(self.views(), other.views());
        }
        true
    }

    /// A digest of the set, the same for sets that hold the same objects.
    pub fn digest(&self) -> (digest: u64)
        ensures
            digest == Self::digest_of(self@),
            digest == self.spec_digest(),
        decreases self, 1nat,
    {
        proof {
            use_type_invariant(self);
            self.lemma_digest_of_view();
        }
        let mut sum: u64 = 0;
        let mut i: usize = 0;
        assert(self.digests().take(0) =~= Seq::<u64>::empty());
        while i < self.items.len()
            invariant
                i <= self.items.len(),
                sum == unordered(self.digests().take(i as int)),
            decreases self.items.len() - i,
        {
            let digest = self.items[i].digest();
            proof {
                lemma_unordered_push(self.digests().take(i as int), digest);
                assert(self.digests().take(i as int).push(digest) =~= self.digests().take(
                    i + 1,
                ));
            }
            sum = sum.wrapping_add(digest);
            i += 1;
        }
        assert(self.digests().take(i as int) =~= self.digests());
        sum
    }

    /// In a well-formed set nothing occurs twice.
    pub proof fn lemma_is_set(&self)
        requires
            self.wf(),
        ensures
            is_set(self@),
    {
        self.views().to_multiset_ensures();
        self.views().lemma_multiset_has_no_duplicates();
    }

    /// The stored objects are the objects of the set, each stored once.
    pub(crate) proof fn lemma_items(&self)
        requires
            self.wf(),
        ensures
            object_views(self.items@).no_duplicates(),
            object_views(self.items@).to_multiset() == self@,
    {
        assert(object_views(self.items@) =~= self.views());
    }

    /// The set has as many objects as are stored.
    pub(crate) proof fn lemma_len(&self)
        ensures
            self@.len() == self.items.len(),
    {
        self.views().to_multiset_ensures();
    }

    /// Two sets that hold the same objects have the same digest, in
    /// whatever order each stores them.
    pub proof fn lemma_digest_of_same(&self, other: &Self)
        requires
            self.wf(),
            other.wf(),
            self@ == other@,
        ensures
            self.spec_digest() == other.spec_digest(),
        decreases self, 1nat,
    {
        let weight = |v: ObjectView|
            {
                let i = self.views().index_of(v);
                if 0 <= i < self.items.len() {
                    self.items[i].spec_digest()
                } else {
                    0
                }
            };
        self.views().to_multiset_ensures();
        other.views().to_multiset_ensures();
        assert forall|i: int| 0 <= i < self.views().len() implies self.digests()[i] == weight(
            #[trigger] self.views()[i],
        ) by {
            let at = self.views().index_of(self.views()[i]);
            assert(self.views()[at] == self.views()[i]);
        }
        assert forall|j: int| 0 <= j < other.views().len() implies other.digests()[j] == weight(
            #[trigger] other.views()[j],
        ) by {
            let v = other.views()[j];
            assert(other.views().contains(v));
            assert(self.views().to_multiset().count(v) > 0);
            assert(self.views().contains(v));
            let at = self.views().index_of(v);
            assert(self.views()[at] == v);
            self.items[at].lemma_digest_of_same(&other.items[j]);
        }
        lemma_total_of_images(self.views(), self.digests(), other.views(), other.digests(), weight);
    }

    /// The digest of a well-formed set is the digest of what it holds.
    pub proof fn lemma_digest_of_view(&self)
        requires
            self.wf(),
        ensures
            self.spec_digest() == Self::digest_of(self@),
    {
        let set = choose|set: ObjectSet<T>| set.wf() && set@ == self@;
        set.lemma_digest_of_same(self);
    }

    /// The digest of a set is the sum, modulo 2^64, of the digests of its
    /// members, in whatever order they are counted.
    pub proof fn lemma_digest_is_sum(&self, members: Seq<ObjectView>)
        requires
            self.wf(),
            members.to_multiset() == self@,
        ensures
            Self::digest_of(self@) == unordered(
                members.map_values(|member: ObjectView| Object::<T>::digest_of(member)),
            ),
    {
        let weight = |member: ObjectView| Object::<T>::digest_of(member);
        self.lemma_digest_of_view();
        assert forall|i: int| 0 <= i < self.views().len() implies self.digests()[i] == weight(
            #[trigger] self.views()[i],
        ) by {
            self.items[i].lemma_digest_of_view();
        }
        lemma_total_of_images(
            self.views(),
            self.digests(),
            members,
            members.map_values(weight),
            weight,
        );
    }
}

/// The objects of a set, handed out one at a time, each once, in no order
/// that a caller may rely on.
#[derive(Debug)]
pub struct Objects<'a, T: Id> {
    set: Option<&'a ObjectSet<T>>,
    next: usize,
}

impl<'a, T: Id> Objects<'a, T> {
    /// Whether the place is within the set.
    #[verifier::type_invariant]
    closed spec fn wf(&self) -> bool {
        match self.set {
            Some(set) => self.next <= set.items.len(),
            None => true,
        }
    }

    /// The objects that are still to come, in the order in which they come.
    pub closed spec fn remaining(&self) -> Seq<Object<T>> {
        match self.set {
            Some(set) => set.items@.subrange(self.next as int, set.items.len() as int),
            None => Seq::empty(),
        }
    }

    /// No objects.
    pub fn none() -> (objects: Objects<'a, T>)
        ensures
            objects.remaining() == Seq::<Object<T>>::empty(),
            object_views(objects.remaining()).to_multiset() == Multiset::<ObjectView>::empty(),
    {
        proof {
            let none = object_views(Seq::<Object<T>>::empty());
            none.to_multiset_ensures();
            assert(none.to_multiset() =~= Multiset::<ObjectView>::empty());
        }
        Objects { set: None, next: 0 }
    }

    /// The next object, or `None` when all have been handed out.
    pub fn next(&mut self) -> (object: Option<&'a Object<T>>)
        ensures
            match object {
                Some(object) => old(self).remaining().len() > 0 && *object == old(
                    self,
                ).remaining()[0] && final(self).remaining() == old(self).remaining().drop_first(),
                None => old(self).remaining().len() == 0 && final(self).remaining() == old(
                    self,
                ).remaining(),
            },
    {
        proof {
            use_type_invariant(&*self);
        }
        match self.set {
            None => None,
            Some(set) => {
                if self.next < set.items.len() {
                    let object = &set.items[self.next];
                    self.next = self.next + 1;
                    assert(self.remaining() =~= old(self).remaining().drop_first());
                    Some(object)
                } else {
                    None
                }
            },
        }
    }
}

impl<T: Id> PartialEq for Object<T> {
    fn eq(&self, other: &Self) -> (same: bool) {
        self.same(other)
    }
}

impl<T: Id> PartialEqSpecImpl for Object<T> {
    open spec fn obeys_eq_spec() -> bool {
        true
    }

    open spec fn eq_spec(&self, other: &Self) -> bool {
        self@ == other@
    }
}

impl<T: Id> Eq for Object<T> {

}

impl<T: Id> Hash for Object<T> {
    fn hash<H: Hasher>(&self, state: &mut H) {
        write_digest(state, self.digest())
    }
}

impl<T: Id> PartialEq for ObjectSet<T> {
    fn eq(&self, other: &Self) -> (same: bool) {
        self.same(other)
    }
}

impl<T: Id> PartialEqSpecImpl for ObjectSet<T> {
    open spec fn obeys_eq_spec() -> bool {
        true
    }

    open spec fn eq_spec(&self, other: &Self) -> bool {
        self@ == other@
    }
}

impl<T: Id> Eq for ObjectSet<T> {

}

impl<T: Id> Hash for ObjectSet<T> {
    fn hash<H: Hasher>(&self, state: &mut H) {
        write_digest(state, self.digest())
    }
}

} // verus!
