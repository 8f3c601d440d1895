//! Property maps: the values of each property of a node.
//!
//! A map is stored as a list of entries, one for each property, in the
//! order in which the properties came. What the map is, its equality and its
//! digest do not depend on that order.

use crate::digest::{lemma_total_of_images, lemma_unordered_push, mix, mixed, unordered};
use crate::id::Id;
use crate::key::{Key, KeyView};
use crate::object::{object_views, Object, ObjectSet};
use crate::sequences::lemma_same_members;
use crate::view::{is_property_map, is_set, with_value, with_values, ObjectView};
use vstd::multiset::Multiset;
use vstd::prelude::*;

verus! {

/// A property with its values.
#[derive(Debug)]
pub(crate) struct Entry<T: Id> {
    pub(crate) key: Key<T>,
    pub(crate) values: ObjectSet<T>,
}

/// A map from properties to sets of values. No property is there without a
/// value.
#[derive(Debug)]
pub struct PropertyMap<T: Id> {
    pub(crate) entries: Vec<Entry<T>>,
}

impl<T: Id> PropertyMap<T> {
    /// The stored keys, in the order in which they are stored.
    spec fn keys(&self) -> Seq<KeyView> {
        Seq::new(self.entries.len() as nat, |i: int| self.entries[i].key@)
    }

    /// The values of each property.
    pub closed spec fn view(&self) -> Map<KeyView, Multiset<ObjectView>>
        decreases self, 1nat,
    {
        Map::new(
            |key: KeyView| self.keys().contains(key),
            |key: KeyView|
                {
                    let i = self.keys().index_of(key);
                    if 0 <= i < self.entries.len() {
                        self.entries[i].values.view()
                    } else {
                        Multiset::empty()
                    }
                },
        )
    }

    /// Whether the map is well formed: no key is stored twice, and each has
    /// a well-formed set of values that is not empty.
    #[verifier::type_invariant]
    pub closed spec fn wf(&self) -> bool
        decreases self, 1nat,
    {
        &&& forall|i: int|
            0 <= i < self.entries.len() ==> (#[trigger] self.entries[i]).values.wf()
                && self.entries[i].values@.len() > 0
        &&& self.keys().no_duplicates()
    }

    /// The digests of the stored entries, in the order in which they are
    /// stored: each mixes its key's digest with its set's.
    spec fn digests(&self) -> Seq<u64>
        decreases self, 0nat,
    {
        Seq::new(
            self.entries.len() as nat,
            |i: int|
                if 0 <= i < self.entries.len() {
                    mixed(
                        Key::<T>::digest_of(self.entries[i].key@),
                        self.entries[i].values.spec_digest(),
                    )
                } else {
                    arbitrary()
                },
        )
    }

    /// The digest of the map, as it is computed from its parts: the sum of
    /// its entries' digests, modulo 2^64.
    pub closed spec fn spec_digest(&self) -> u64
        decreases self, 1nat,
    {
        unordered(self.digests())
    }

    /// The digest of every map that gives given values to given properties.
    pub closed spec fn digest_of(view: Map<KeyView, Multiset<ObjectView>>) -> u64 {
        let map = choose|map: PropertyMap<T>| map.wf() && map@ == view;
        map.spec_digest()
    }

    /// A map without properties.
    pub fn new() -> (map: Self)
        ensures
            map@ == Map::<KeyView, Multiset<ObjectView>>::empty(),
    {
        let map = PropertyMap { entries: Vec::new() };
        assert(map@ =~= Map::<KeyView, Multiset<ObjectView>>::empty());
        map
    }

    /// Whether the map has no property.
    pub fn is_empty(&self) -> (empty: bool)
        ensures
            empty == self@.dom().is_empty(),
    {
        proof {
            use_type_invariant(self);
            self.lemma_dom();
            if self.entries.len() > 0 {
                self.lemma_entry(0);
            }
        }
        self.entries.len() == 0
    }

    /// The values of a property, if the map has it.
    pub fn get(&self, key: &Key<T>) -> (values: Option<&ObjectSet<T>>)
        ensures
            match values {
                Some(set) => self@.dom().contains(key@) && set@ == self@[key@] && set.wf(),
                None => !self@.dom().contains(key@),
            },
    {
        proof {
            use_type_invariant(self);
        }
        match self.position(key) {
            Some(i) => {
                proof {
                    self.lemma_entry(i as int);
                }
                Some(&self.entries[i].values)
            },
            None => None,
        }
    }

    /// Puts a value under a property; the property is created if the map
    /// does not have it.
    pub fn insert(&mut self, key: Key<T>, object: Object<T>)
        ensures
            final(self)@ == with_value(old(self)@, key@, object@),
    {
        proof {
            use_type_invariant(&*self);
        }
        let ghost before = *self;
        let place = self.position(&key);
        let mut entries = Vec::new();
        core::mem::swap(&mut entries, &mut self.entries);
        match place {
            Some(i) => {
                let mut entry = entries.remove(i);
                entry.values.insert(object);
                proof {
                    use_type_invariant(&entry.values);
                    before.lemma_entry(i as int);
                }
                entries.insert(i, entry);
                proof {
                    before.lemma_replaced(&PropertyMap { entries }, i as int);
                }
            },
            None => {
                let mut values = ObjectSet::new();
                values.insert(object);
                let entry = Entry { key, values };
                proof {
                    use_type_invariant(&entry.values);
                }
                entries.push(entry);
                proof {
                    before.lemma_pushed(&PropertyMap { entries }, entry);
                }
            },
        }
        self.entries = entries;
    }

    /// Puts each object of a list under a property, first to last. With an
    /// empty list nothing changes: the property is not created.
    pub fn insert_all(&mut self, key: Key<T>, objects: Vec<Object<T>>)
        ensures
            final(self)@ == with_values(old(self)@, key@, object_views(objects@)),
    {
        proof {
            use_type_invariant(&*self);
        }
        if objects.len() == 0 {
            return ;
        }
        let ghost before = *self;
        let place = self.position(&key);
        let mut entries = Vec::new();
        core::mem::swap(&mut entries, &mut self.entries);
        match place {
            Some(i) => {
                let mut entry = entries.remove(i);
                entry.values.extend(objects);
                proof {
                    use_type_invariant(&entry.values);
                    before.lemma_entry(i as int);
                }
                entries.insert(i, entry);
                proof {
                    before.lemma_replaced(&PropertyMap { entries }, i as int);
                }
            },
            None => {
                let mut values = ObjectSet::new();
                values.extend(objects);
                let entry = Entry { key, values };
                proof {
                    use_type_invariant(&entry.values);
                }
                entries.push(entry);
                proof {
                    before.lemma_pushed(&PropertyMap { entries }, entry);
                }
            },
        }
        self.entries = entries;
    }

    /// Whether two maps give the same values to the same properties.
    pub fn same(&self, other: &Self) -> (same: bool)
        ensures
            same == (self@ == other@),
        decreases self, 1nat,
    {
        proof {
            use_type_invariant(self);
            use_type_invariant(other);
            self.lemma_dom();
            other.lemma_dom();
        }
        if self.entries.len() != other.entries.len() {
            return false;
        }
        let mut i: usize = 0;
        while i < self.entries.len()
            invariant
                self.wf(),
                other.wf(),
                i <= self.entries.len(),
                self.entries.len() == other.entries.len(),
                forall|j: int|
                    0 <= j < i ==> other@.dom().contains(#[trigger] self.entries[j].key@)
                        && other@[self.entries[j].key@] == self.entries[j].values@,
            decreases self.entries.len() - i,
        {
            proof {
                self.lemma_entry(i as int);
            }
            match other.get(&self.entries[i].key) {
                None => {
                    return false;
                },
                Some(values) => {
                    if !self.entries[i].values.same(values) {
                        return false;
                    }
                },
            }
            i += 1;
        }
        proof {
            assert forall|j: int| 0 <= j < self.keys().len() implies other.keys().contains(
                #[trigger] self.keys()[j],
            ) by {
                assert(other@.dom().contains(self.entries[j].key@));
            }
            lemma_same_members(self.keys(), other.keys());
            self.keys().to_multiset_ensures();
            other.keys().to_multiset_ensures();
            assert forall|key: KeyView| self@.dom().contains(key) == other@.dom().contains(
                key,
            ) by {
                assert(self.keys().to_multiset().count(key) == other.keys().to_multiset().count(
                    key,
                ));
            }
            assert(self@.dom() =~= other@.dom());
            assert forall|key: KeyView| self@.dom().contains(key) implies self@[key]
                == other@[key] by {
                let j = self.keys().index_of(key);
                assert(self.keys()[j] == key);
                self.lemma_entry(j);
            }
            assert(self@ =~= other@);
        }
        true
    }

    /// A digest of the map, the same for maps that give the same values to
    /// the same properties.
    pub fn digest(&self) -> (digest: u64)
        ensures
            digest == Self::digest_of(self@),
            digest == self.spec_digest(),
        decreases self, 1nat,
    {
        proof {
            use_type_invariant(self);
            self.lemma_digest_of_view();
        }
        let mut sum: u64 = 0;
        let mut i: usize = 0;
        assert(self.digests().take(0) =~= Seq::<u64>::empty());
        while i < self.entries.len()
            invariant
                i <= self.entries.len(),
                sum == unordered(self.digests().take(i as int)),
            decreases self.entries.len() - i,
        {
            let digest = mix(self.entries[i].key.digest(), self.entries[i].values.digest());
            proof {
                lemma_unordered_push(self.digests().take(i as int), digest);
                assert(self.digests().take(i as int).push(digest) =~= self.digests().take(
                    i + 1,
                ));
            }
            sum = sum.wrapping_add(digest);
            i += 1;
        }
        assert(self.digests().take(i as int) =~= self.digests());
        sum
    }

    /// Where a key is stored, if it is.
    fn position(&self, key: &Key<T>) -> (place: Option<usize>)
        ensures
            match place {
                Some(i) => i < self.entries.len() && self.entries[i as int].key@ == key@,
                None => !self.keys().contains(key@),
            },
    {
        let mut i: usize = 0;
        while i < self.entries.len()
            invariant
                i <= self.entries.len(),
                forall|j: int| 0 <= j < i ==> self.entries[j].key@ != key@,
            decreases self.entries.len() - i,
        {
            if self.entries[i].key.same(key) {
                return Some(i);
            }
            i += 1;
        }
        None
    }

    /// In a well-formed map every property has a set of values that is not
    /// empty.
    pub proof fn lemma_is_property_map(&self)
        requires
            self.wf(),
        ensures
            is_property_map(self@),
    {
        self.lemma_dom();
        assert forall|key: KeyView| #[trigger] self@.dom().contains(key) implies is_set(self@[key])
            && self@[key].len() > 0 by {
            let i = self.keys().index_of(key);
            assert(self.keys()[i] == key);
            self.lemma_entry(i);
            self.entries[i].values.lemma_is_set();
        }
    }

    /// Two maps that give the same values to the same properties have the
    /// same digest, in whatever order each stores them.
    pub proof fn lemma_digest_of_same(&self, other: &Self)
        requires
            self.wf(),
            other.wf(),
            self@ == other@,
        ensures
            self.spec_digest() == other.spec_digest(),
        decreases self, 1nat,
    {
        let weight = |key: KeyView|
            {
                let i = self.keys().index_of(key);
                if 0 <= i < self.entries.len() {
                    mixed(
                        Key::<T>::digest_of(self.entries[i].key@),
                        self.entries[i].values.spec_digest(),
                    )
                } else {
                    0
                }
            };
        self.lemma_dom();
        other.lemma_dom();
        assert forall|i: int| 0 <= i < self.keys().len() implies self.digests()[i] == weight(
            #[trigger] self.keys()[i],
        ) by {
            let at = self.keys().index_of(self.keys()[i]);
            assert(self.keys()[at] == self.keys()[i]);
        }
        assert forall|j: int| 0 <= j < other.keys().len() implies other.digests()[j] == weight(
            #[trigger] other.keys()[j],
        ) && self.keys().contains(other.keys()[j]) by {
            let key = other.keys()[j];
            other.lemma_entry(j);
            assert(self@.dom().contains(key));
            let at = self.keys().index_of(key);
            assert(self.keys()[at] == key);
            self.lemma_entry(at);
            self.entries[at].values.lemma_digest_of_same(&other.entries[j].values);
        }
        lemma_same_members(other.keys(), self.keys());
        lemma_total_of_images(self.keys(), self.digests(), other.keys(), other.digests(), weight);
    }

    /// The digest of a well-formed map is the digest of what it holds.
    pub proof fn lemma_digest_of_view(&self)
        requires
            self.wf(),
        ensures
            self.spec_digest() == Self::digest_of(self@),
    {
        let map = choose|map: PropertyMap<T>| map.wf() && map@ == self@;
        map.lemma_digest_of_same(self);
    }

    /// The digest of a map is the sum, modulo 2^64, over its properties, in
    /// whatever order they are counted, of the digest of the property
    /// mixed with the digest of its values.
    pub proof fn lemma_digest_is_sum(&self, properties: Seq<KeyView>)
        requires
            self.wf(),
            properties.no_duplicates(),
            properties.to_set() == self@.dom(),
        ensures
            Self::digest_of(self@) == unordered(
                properties.map_values(
                    |key: KeyView|
                        mixed(Key::<T>::digest_of(key), ObjectSet::<T>::digest_of(self@[key])),
                ),
            ),
    {
        let weight = |key: KeyView|
            mixed(Key::<T>::digest_of(key), ObjectSet::<T>::digest_of(self@[key]));
        self.lemma_digest_of_view();
        self.lemma_dom();
        assert forall|i: int| 0 <= i < self.keys().len() implies self.digests()[i] == weight(
            #[trigger] self.keys()[i],
        ) by {
            self.lemma_entry(i);
            self.entries[i].values.lemma_digest_of_view();
        }
        properties.unique_seq_to_set();
        assert forall|i: int| 0 <= i < properties.len() implies self.keys().contains(
            #[trigger] properties[i],
        ) by {
            assert(properties.to_set().contains(properties[i]));
        }
        lemma_same_members(properties, self.keys());
        lemma_total_of_images(
            self.keys(),
            self.digests(),
            properties,
            properties.map_values(weight),
            weight,
        );
    }

    /// The entry stored at a place is the map's entry for its key.
    proof fn lemma_entry(&self, i: int)
        requires
            self.wf(),
            0 <= i < self.entries.len(),
        ensures
            self@.dom().contains(self.entries[i].key@),
            self@[self.entries[i].key@] == self.entries[i].values@,
    {
        let key = self.entries[i].key@;
        assert(self.keys()[i] == key);
        let at = self.keys().index_of(key);
        assert(self.keys()[at] == key);
    }

    /// The map's keys are the stored keys.
    proof fn lemma_dom(&self)
        requires
            self.wf(),
        ensures
            self@.dom() == self.keys().to_set(),
            self@.dom().finite(),
            self@.dom().len() == self.entries.len(),
            self.keys().len() == self.entries.len(),
    {
        assert(self@.dom() =~= self.keys().to_set());
        self.keys().unique_seq_to_set();
        vstd::seq_lib::seq_to_set_is_finite(self.keys());
    }

    /// A well-formed map with one entry replaced by an entry of the same
    /// key, the set of which is well formed and not empty, is well formed,
    /// and differs from it in the values of that key only.
    proof fn lemma_replaced(&self, after: &Self, i: int)
        requires
            self.wf(),
            0 <= i < self.entries.len(),
            after.entries.len() == self.entries.len(),
            forall|j: int|
                0 <= j < self.entries.len() && j != i ==> after.entries[j] == self.entries[j],
            after.entries[i].key@ == self.entries[i].key@,
            after.entries[i].values.wf(),
            after.entries[i].values@.len() > 0,
        ensures
            after.wf(),
            after@ == self@.insert(self.entries[i].key@, after.entries[i].values@),
    {
        assert(after.keys() =~= self.keys());
        assert forall|j: int| 0 <= j < after.entries.len() implies (#[trigger] after.entries[j])
            .values.wf() && after.entries[j].values@.len() > 0 by {
            if j != i {
                assert(after.entries[j] == self.entries[j]);
            }
        }
        assert(after.wf());
        assert forall|key: KeyView| after@.dom().contains(key) implies #[trigger] after@[key]
            == self@.insert(self.entries[i].key@, after.entries[i].values@)[key] by {
            let j = after.keys().index_of(key);
            assert(after.keys()[j] == key);
            after.lemma_entry(j);
            self.lemma_entry(j);
            assert(self.keys()[j] == key);
            assert(self.keys()[i] == self.entries[i].key@);
            if j != i {
                assert(after.entries[j] == self.entries[j]);
            }
        }
        self.lemma_entry(i);
        assert(after@ =~= self@.insert(self.entries[i].key@, after.entries[i].values@));
    }

    /// A well-formed map with one more entry, of a key that it did not
    /// have, is well formed, and has that key with that entry's values.
    proof fn lemma_pushed(&self, after: &Self, entry: Entry<T>)
        requires
            self.wf(),
            after.entries@ == self.entries@.push(entry),
            !self@.dom().contains(entry.key@),
            entry.values.wf(),
            entry.values@.len() > 0,
        ensures
            after.wf(),
            after@ == self@.insert(entry.key@, entry.values@),
    {
        let last = self.entries.len() as int;
        assert(after.keys() =~= self.keys().push(entry.key@));
        assert forall|j: int| 0 <= j < after.entries.len() implies (#[trigger] after.entries[j])
            .values.wf() && after.entries[j].values@.len() > 0 by {
            if j < last {
                assert(after.entries[j] == self.entries[j]);
            }
        }
        assert(after.wf());
        assert forall|key: KeyView| after@.dom().contains(key) implies #[trigger] after@[key]
            == self@.insert(entry.key@, entry.values@)[key] by {
            let j = after.keys().index_of(key);
            assert(after.keys()[j] == key);
            after.lemma_entry(j);
            if j < last {
                self.lemma_entry(j);
            }
        }
        assert forall|key: KeyView|
            after@.dom().contains(key) == self@.insert(entry.key@, entry.values@).dom().contains(
                key,
            ) by {
            if self.keys().contains(key) {
                let j = self.keys().index_of(key);
                assert(after.keys()[j] == key);
            }
            if key == entry.key@ {
                assert(after.keys()[last] == key);
            }
        }
        assert(after@ =~= self@.insert(entry.key@, entry.values@));
    }
}

} // verus!
