use vstd::prelude::*;
use uuid::Uuid;

verus! {

#[verifier::external_type_specification]
#[verifier::external_body]
pub struct ExUuid(Uuid);

/// Relies on uuid::Uuid::new_v4: a fresh random identifier. Nothing is known
/// of its value.
pub assume_specification[ Uuid::new_v4 ]() -> Uuid;

/// Something that exists in the game world, known by a random identifier.
#[derive(Clone, Copy, PartialEq, Eq, Hash)]
pub struct Entity {
    pub id: Uuid,
}

impl Entity {
    /// An entity with a fresh random identifier.
    pub fn new() -> Entity {
        Entity { id: Uuid::new_v4() }
    }
}

} // verus!
