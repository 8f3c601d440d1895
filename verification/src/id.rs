//! Identifiers: what a document's keys are made of.
//!
//! An identifier stands for an IRI. Two identifiers are the same when they
//! stand for the same bytes; nothing here checks those bytes or brings them
//! to a normal form.

use crate::text::{bytes_digest, bytes_equal, digest_bytes};
use iref::{Iri, IriBuf};
use vstd::prelude::*;

verus! {

/// `iref::Iri`, a borrowed IRI. Nothing is known of its fields.
#[verifier::external_type_specification]
#[verifier::external_body]
pub struct ExIri<'a>(Iri<'a>);

/// `iref::IriBuf`, an owned IRI. Nothing is known of its fields.
#[verifier::external_type_specification]
#[verifier::external_body]
pub struct ExIriBuf(IriBuf);

/// The bytes that a borrowed IRI holds.
pub uninterp spec fn iri_bytes(iri: Iri) -> Seq<u8>;

/// The bytes that an owned IRI holds.
pub uninterp spec fn iri_buf_bytes(iri: IriBuf) -> Seq<u8>;

/// `iref::IriRef::into_ref`, which an `Iri` reaches by dereferencing: the
/// slice of bytes that the IRI borrows. Assumed: those are the bytes of the
/// IRI. Nothing is assumed of their encoding.
#[verifier::external_body]
pub(crate) fn iri_into_bytes<'a>(iri: Iri<'a>) -> (bytes: &'a [u8])
    ensures
        bytes@ == iri_bytes(iri),
{
    iri.into_ref()
}

/// `iref::IriBuf::as_iri`: a borrowed IRI over the buffer's own bytes.
/// Assumed: it holds the bytes that the buffer holds.
#[verifier::external_body]
pub(crate) fn iri_buf_as_iri<'a>(buffer: &'a IriBuf) -> (iri: Iri<'a>)
    ensures
        iri_bytes(iri) == iri_buf_bytes(*buffer),
{
    buffer.as_iri()
}

/// What a type must offer to identify nodes, types and properties.
pub trait Id: Sized {
    /// The bytes of the IRI that the identifier stands for. They are the
    /// identifier's whole identity.
    spec fn name(&self) -> Seq<u8>;

    /// The digest that this type gives to an identifier of a given name.
    spec fn digest_of(name: Seq<u8>) -> u64;

    /// Whether two identifiers stand for the same IRI.
    fn same(&self, other: &Self) -> (same: bool)
        ensures
            same == (self.name() == other.name()),
    ;

    /// A digest of the identifier, the same for identifiers that are the same.
    fn digest(&self) -> (digest: u64)
        ensures
            digest == Self::digest_of(self.name()),
    ;

    /// The IRI that the identifier stands for.
    fn iri(&self) -> (iri: Iri<'_>)
        ensures
            iri_bytes(iri) == self.name(),
    ;
}

/// An owned IRI identifies by its bytes, one for one.
impl Id for IriBuf {
    open spec fn name(&self) -> Seq<u8> {
        iri_buf_bytes(*self)
    }

    open spec fn digest_of(name: Seq<u8>) -> u64 {
        bytes_digest(name)
    }

    fn same(&self, other: &Self) -> (same: bool) {
        bytes_equal(iri_into_bytes(iri_buf_as_iri(self)), iri_into_bytes(iri_buf_as_iri(other)))
    }

    fn digest(&self) -> (digest: u64) {
        digest_bytes(iri_into_bytes(iri_buf_as_iri(self)))
    }

    fn iri(&self) -> (iri: Iri<'_>) {
        iri_buf_as_iri(self)
    }
}

} // verus!
