//! Entities of the world: an id paired with what kind of thing it is.

use vstd::prelude::*;

verus! {

/// What kind of thing an entity is.
#[allow(non_camel_case_types)]
#[derive(Copy, Clone, Debug, PartialEq, Eq, Structural)]
pub enum Types {
    PLAYER,
    ENVIRONMENT,
}

/// One thing in the world.
pub struct Entity {
    pub id: usize,
    pub kind: Types,
}

impl Entity {
    /// An entity with the given id and kind.
    pub fn new(id: usize, kind: Types) -> (r: Self)
        ensures
            r.id == id,
            r.kind == kind,
    {
        Self { id, kind }
    }
}

} // verus!
