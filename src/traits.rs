use vstd::prelude::*;

verus! {

/// Capability of an identifier type: comparable for equality, hashable,
/// printable and cloneable. Its own comparison and duplication agree with
/// mathematical equality, which is what the graph's proofs rely on.
pub trait Identifier: Sized + Eq + core::hash::Hash + core::fmt::Debug + Clone {
    /// Equality test.
    fn id_eq(&self, other: &Self) -> (r: bool)
        ensures
            r == (*self == *other),
    ;

    /// A duplicate of the identifier, equal to it.
    fn id_clone(&self) -> (r: Self)
        ensures
            r == *self,
    ;
}

/// Identifier-only entity: declares the identifier type of the vertices of a
/// graph, which are represented by their identifiers alone.
pub trait NodeID {
    #[allow(non_camel_case_types)]
    type ID_TYPE: Identifier;
}

/// Self-identifying entity: a value that exposes its own identifier.
pub trait HasID {
    #[allow(non_camel_case_types)]
    type ID_TYPE: Identifier;

    /// The identifier of the value.
    spec fn id_of(&self) -> Self::ID_TYPE;

    fn get_id(&self) -> (r: &Self::ID_TYPE)
        ensures
            *r == self.id_of(),
    ;
}

impl Identifier for u32 {
    fn id_eq(&self, other: &Self) -> (r: bool) {
        *self == *other
    }

    fn id_clone(&self) -> (r: Self) {
        *self
    }
}

impl Identifier for u64 {
    fn id_eq(&self, other: &Self) -> (r: bool) {
        *self == *other
    }

    fn id_clone(&self) -> (r: Self) {
        *self
    }
}

impl Identifier for usize {
    fn id_eq(&self, other: &Self) -> (r: bool) {
        *self == *other
    }

    fn id_clone(&self) -> (r: Self) {
        *self
    }
}

impl Identifier for i32 {
    fn id_eq(&self, other: &Self) -> (r: bool) {
        *self == *other
    }

    fn id_clone(&self) -> (r: Self) {
        *self
    }
}

impl Identifier for i64 {
    fn id_eq(&self, other: &Self) -> (r: bool) {
        *self == *other
    }

    fn id_clone(&self) -> (r: Self) {
        *self
    }
}

} // verus!
