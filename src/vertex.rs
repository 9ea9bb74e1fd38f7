use vstd::prelude::*;

use crate::traits::HasID;

verus! {

/// A vertex identified by a `usize`.
#[derive(Debug, Clone, Copy)]
pub struct Vertex {
    pub id: usize,
}

impl HasID for Vertex {
    type ID_TYPE = usize;

    open spec fn id_of(&self) -> usize {
        self.id
    }

    fn get_id(&self) -> (r: &usize) {
        &self.id
    }
}

impl Vertex {
    pub fn new(id: usize) -> (r: Vertex)
        ensures
            r.id == id,
    {
        Vertex { id }
    }
}

} // verus!
