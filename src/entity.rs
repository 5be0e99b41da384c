use vstd::prelude::*;
use crate::color::Rgb;

verus! {

/// Handle naming the bundle of components that make up one entity.
#[derive(Clone, Copy, Debug, PartialEq, Eq, Structural)]
pub struct EntityID(pub u16);

/// A row of some component kind, tagged with the entity that owns it.
pub trait Component {
    /// The entity this row belongs to.
    fn get_entity_id(&self) -> EntityID;
}

/// Draws a translucent rectangle over the entity's box.
///
/// Expects the entity to carry a box as well; without one nothing is drawn.
#[derive(Clone, Copy, Debug, PartialEq, Eq, Structural)]
pub struct CompDebugDraw {
    pub entity_id: EntityID,
    pub color: Rgb,
}

impl Component for CompDebugDraw {
    fn get_entity_id(&self) -> EntityID {
        self.entity_id
    }
}

} // verus!
