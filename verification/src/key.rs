//! Keys: the identity of a node, a type or a property.

use crate::digest::{mix, mixed, write_digest};
use crate::id::{iri_bytes, Id};
use crate::text::{digest_str, text_digest};
use core::hash::{Hash, Hasher};
use iref::Iri;
use vstd::prelude::*;
use vstd::std_specs::cmp::PartialEqSpecImpl;

verus! {

/// The seed of an identifier's digest.
pub const IDENTIFIER: u64 = 1;

/// The seed of a blank label's digest.
pub const BLANK: u64 = 2;

/// A key: an identifier, or the label of a blank node, which stands for no
/// IRI.
#[derive(Debug)]
pub enum Key<T: Id> {
    /// An identifier.
    Id(T),
    /// The label of a blank node.
    Blank(String),
}

/// A key names a property as it names a node.
pub type Property<T> = Key<T>;

/// What a key is: the name of its identifier, or its blank label.
pub enum KeyView {
    /// An identifier of this name: the bytes of its IRI.
    Id(Seq<u8>),
    /// A blank node of this label.
    Blank(Seq<char>),
}

impl KeyView {
    /// The bytes of the IRI of a key, where it has one.
    pub open spec fn iri(self) -> Option<Seq<u8>> {
        match self {
            KeyView::Id(name) => Some(name),
            KeyView::Blank(_) => None,
        }
    }
}

impl<T: Id> Key<T> {
    /// What this key is.
    pub open spec fn view(&self) -> KeyView {
        match self {
            Key::Id(id) => KeyView::Id(id.name()),
            Key::Blank(label) => KeyView::Blank(label@),
        }
    }

    /// The digest of a key.
    pub open spec fn digest_of(key: KeyView) -> u64 {
        match key {
            KeyView::Id(name) => mixed(IDENTIFIER, T::digest_of(name)),
            KeyView::Blank(label) => mixed(BLANK, text_digest(label)),
        }
    }

    /// Whether two keys are the same key.
    pub fn same(&self, other: &Self) -> (same: bool)
        ensures
            same == (self@ == other@),
    {
        match (self, other) {
            (Key::Id(left), Key::Id(right)) => left.same(right),
            (Key::Blank(left), Key::Blank(right)) => *left == *right,
            _ => false,
        }
    }

    /// A digest of the key, the same for keys that are the same.
    pub fn digest(&self) -> (digest: u64)
        ensures
            digest == Self::digest_of(self@),
    {
        match self {
            Key::Id(id) => mix(IDENTIFIER, id.digest()),
            Key::Blank(label) => mix(BLANK, digest_str(label.as_str())),
        }
    }

    /// The IRI of the key, where it has one.
    pub fn iri(&self) -> (iri: Option<Iri<'_>>)
        ensures
            match self@.iri() {
                Some(name) => iri is Some && iri_bytes(iri.unwrap()) == name,
                None => iri is None,
            },
    {
        match self {
            Key::Id(id) => Some(id.iri()),
            Key::Blank(_) => None,
        }
    }
}

impl<T: Id> PartialEq for Key<T> {
    fn eq(&self, other: &Self) -> (same: bool) {
        self.same(other)
    }
}

impl<T: Id> PartialEqSpecImpl for Key<T> {
    open spec fn obeys_eq_spec() -> bool {
        true
    }

    open spec fn eq_spec(&self, other: &Self) -> bool {
        self@ == other@
    }
}

impl<T: Id> Eq for Key<T> {

}

impl<T: Id> Hash for Key<T> {
    fn hash<H: Hasher>(&self, state: &mut H) {
        write_digest(state, self.digest())
    }
}

} // verus!
