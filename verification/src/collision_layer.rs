//! Common collision layer constants and the group/mask filter.

use vstd::prelude::*;

verus! {

/// Default layer (all bodies).
pub const DEFAULT: u16 = 1;
/// Player layer.
pub const PLAYER: u16 = 2;
/// Enemy layer.
pub const ENEMY: u16 = 4;
/// Static geometry layer.
pub const STATIC: u16 = 8;
/// Trigger/sensor layer.
pub const TRIGGER: u16 = 16;
/// Projectile layer.
pub const PROJECTILE: u16 = 32;
/// Debris/particle layer.
pub const DEBRIS: u16 = 64;
/// All layers.
pub const ALL: u16 = 0xffff;

/// Whether a body with `group_a`/`mask_a` and one with `group_b`/`mask_b` may collide:
/// each one's mask must include the other's group.
pub open spec fn layers_collide(group_a: u16, mask_a: u16, group_b: u16, mask_b: u16) -> bool {
    (mask_a & group_b) != 0 && (mask_b & group_a) != 0
}

/// Collision layer configuration for filtering collisions.
///
/// Bodies can belong to multiple layers (group) and can collide with
/// specific layers (mask).
#[derive(Clone, Copy, Debug)]
pub struct CollisionLayers {
    /// Which layer(s) this body belongs to (bit flags).
    pub group: u16,
    /// Which layer(s) this body can collide with (bit flags).
    pub mask: u16,
}

impl CollisionLayers {
    /// Create collision layers with the given group and mask.
    pub fn new(group: u16, mask: u16) -> (r: Self)
        ensures
            r.group == group,
            r.mask == mask,
    {
        CollisionLayers { group, mask }
    }

    /// Create a body in a single layer that collides with everything.
    pub fn in_layer(layer: u16) -> (r: Self)
        ensures
            r.group == layer,
            r.mask == u16::MAX,
    {
        CollisionLayers { group: layer, mask: u16::MAX }
    }

    /// Create a body that only collides with specific layers.
    pub fn collides_with(self, mask: u16) -> (r: Self)
        ensures
            r.group == self.group,
            r.mask == mask,
    {
        CollisionLayers { group: self.group, mask }
    }

    /// Check if this body can collide with another based on their layers.
    pub fn can_collide_with(&self, other: &CollisionLayers) -> (r: bool)
        ensures
            r == layers_collide(self.group, self.mask, other.group, other.mask),
    {
        (self.mask & other.group) != 0 && (other.mask & self.group) != 0
    }
}

impl Default for CollisionLayers {
    /// Belong to layer 0 and collide with everything.
    fn default() -> (r: Self)
        ensures
            r.group == DEFAULT,
            r.mask == ALL,
    {
        CollisionLayers { group: DEFAULT, mask: ALL }
    }
}

/// The collision filter is symmetric: A may collide with B exactly when B may collide with A.
pub proof fn lemma_can_collide_symmetric(a: CollisionLayers, b: CollisionLayers)
    ensures
        layers_collide(a.group, a.mask, b.group, b.mask) == layers_collide(
            b.group,
            b.mask,
            a.group,
            a.mask,
        ),
{
}

/// A body that collides with everything collides with any body whose group is non-empty
/// and whose mask reaches its own group.
pub proof fn lemma_default_layers_collide(a: CollisionLayers)
    requires
        a.group != 0,
        a.mask & DEFAULT != 0,
    ensures
        layers_collide(DEFAULT, ALL, a.group, a.mask),
{
    let g = a.group;
    assert(g != 0 ==> 0xffffu16 & g != 0) by (bit_vector);
}

} // verus!
