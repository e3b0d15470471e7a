//! Deterministic per-post UUIDs: a value derived from a fixed namespace
//! UUID and the identifier string by the name-based (SHA-1, version 5)
//! derivation, stable across re-renders of the same identifier.

use vstd::prelude::*;

verus! {

/// The version-5 UUID derived from a namespace and a name. The
/// derivation is a pure function of its two arguments; its value is
/// computed only by the outside primitive behind [`Uuid::new_v5`].
pub uninterp spec fn uuid_v5_of(namespace: u128, name: Seq<char>) -> u128;

/// A UUID as its 128-bit value.
#[derive(Clone, Copy, PartialEq, Eq, Structural, Debug, Hash)]
pub struct Uuid {
    pub value: u128,
}

impl Uuid {
    /// The raw 128-bit value.
    pub fn as_inner(&self) -> (r: u128)
        ensures
            r == self.value,
    {
        self.value
    }

    /// The UUID with the given 128-bit value.
    pub fn from_u128(value: u128) -> (r: Uuid)
        ensures
            r.value == value,
    {
        Uuid { value }
    }

    /// Relies on `uuid::Uuid::new_v5`: the name-based SHA-1 UUID of
    /// `(namespace, name)`, a deterministic function of its arguments.
    #[verifier::external_body]
    pub(crate) fn new_v5(namespace: Uuid, name: &str) -> (r: Uuid)
        ensures
            r.value == uuid_v5_of(namespace.value, name@),
    {
        let ns = uuid::Uuid::from_u128(namespace.value);
        Uuid { value: uuid::Uuid::new_v5(&ns, name.as_bytes()).as_u128() }
    }
}

} // verus!
