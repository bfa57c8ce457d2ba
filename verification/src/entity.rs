//! Entity identifiers.

use vstd::prelude::*;

verus! {

/// Identifies an entity.
#[derive(Debug, Clone, Copy, PartialEq, Eq, Hash, Structural)]
pub struct EntityId(pub usize);

/// Hands out entity ids, counting up from zero.
pub struct EntityIds {
    next: usize,
}

impl EntityIds {
    /// The id that is handed out next.
    pub closed spec fn spec_next(&self) -> usize {
        self.next
    }

    /// A source whose first id is 0.
    pub fn new() -> (ids: Self)
        ensures
            ids.spec_next() == 0,
    {
        EntityIds { next: 0 }
    }
}

impl EntityId {
    /// Takes the next id from `ids`. Ids come in ascending order, so no id
    /// comes twice before the counter has run through all of `usize`, after
    /// which it starts again at 0.
    pub fn new(ids: &mut EntityIds) -> (id: Self)
        ensures
            id.0 == old(ids).spec_next(),
            final(ids).spec_next() == (if old(ids).spec_next() == usize::MAX {
                0
            } else {
                old(ids).spec_next() + 1
            }),
    {
        let id = ids.next;
        ids.next = if id == usize::MAX {
            0
        } else {
            id + 1
        };
        EntityId(id)
    }
}

} // verus!
