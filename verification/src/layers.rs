//! Render layers: the 32-bit masks that decide which cameras draw which
//! renderables.

use vstd::prelude::*;

verus! {

/// Whether bit `layer` is set in a 32-bit render mask.
pub open spec fn render_mask_has(mask: u32, layer: u8) -> bool {
    mask & (1u32 << layer) != 0
}

/// Camera/renderable layer mask used by the automatic scene renderer.
#[derive(Clone, Copy, Debug, PartialEq, Eq, Structural)]
pub struct RenderLayers {
    mask: u32,
}

impl View for RenderLayers {
    type V = u32;

    closed spec fn view(&self) -> u32 {
        self.mask
    }
}

/// Maximum number of renderer layers addressable by the bit mask.
pub const MAX_RENDER_LAYERS: u8 = 32;

impl RenderLayers {
    /// Maximum number of renderer layers addressable by the bit mask.
    pub const MAX_LAYERS: u8 = 32;

    /// Creates a mask containing a single layer.
    pub fn layer(layer: u8) -> (r: Self)
        requires
            layer < 32,
        ensures
            r@ == 1u32 << layer,
    {
        RenderLayers { mask: 1u32 << layer }
    }

    /// Creates a layer mask from raw authored bits.
    pub fn from_mask(mask: u32) -> (r: Self)
        ensures
            r@ == mask,
    {
        RenderLayers { mask }
    }

    /// Creates a mask that intersects every layer.
    pub fn all() -> (r: Self)
        ensures
            r@ == u32::MAX,
    {
        RenderLayers { mask: u32::MAX }
    }

    /// Creates an empty mask that does not render through any camera.
    pub fn none() -> (r: Self)
        ensures
            r@ == 0,
    {
        RenderLayers { mask: 0 }
    }

    /// The default mask: layer 0 only.
    pub fn default_layers() -> (r: Self)
        ensures
            r@ == 1,
    {
        assert(1u32 << 0u8 == 1u32) by (bit_vector);
        Self::layer(0)
    }

    /// Returns the raw bit mask for serialization or diagnostics.
    pub fn mask(self) -> (r: u32)
        ensures
            r == self@,
    {
        self.mask
    }

    /// Returns this mask with `layer` included.
    pub fn with_layer(self, layer: u8) -> (r: Self)
        requires
            layer < 32,
        ensures
            r@ == self@ | (1u32 << layer),
    {
        RenderLayers { mask: self.mask | (1u32 << layer) }
    }

    /// Returns this mask with `layer` removed.
    pub fn without_layer(self, layer: u8) -> (r: Self)
        requires
            layer < 32,
        ensures
            r@ == self@ & !(1u32 << layer),
    {
        RenderLayers { mask: self.mask & !(1u32 << layer) }
    }

    /// Returns true when this mask contains `layer`.
    pub fn contains(self, layer: u8) -> (r: bool)
        requires
            layer < 32,
        ensures
            r == render_mask_has(self@, layer),
    {
        self.mask & (1u32 << layer) != 0
    }

    /// Returns true when the two masks share at least one layer.
    pub fn intersects(self, other: Self) -> (r: bool)
        ensures
            r == (self@ & other@ != 0),
    {
        self.mask & other.mask != 0
    }
}

impl Default for RenderLayers {
    fn default() -> (r: Self)
        ensures
            r@ == 1,
    {
        Self::default_layers()
    }
}

/// A single-layer mask contains exactly that layer.
pub proof fn lemma_layer_contains_only_itself(layer: u8, other: u8)
    requires
        layer < 32,
        other < 32,
    ensures
        render_mask_has(1u32 << layer, other) <==> layer == other,
{
    assert(layer < 32 && other < 32 ==> ((1u32 << layer) & (1u32 << other) != 0 <==> layer == other))
        by (bit_vector);
}

/// Adding a layer makes it present and leaves every other layer as it was.
pub proof fn lemma_with_layer_contains(mask: u32, layer: u8, other: u8)
    requires
        layer < 32,
        other < 32,
    ensures
        render_mask_has(mask | (1u32 << layer), other) <==> (other == layer || render_mask_has(mask, other)),
{
    assert(layer < 32 && other < 32 ==> ((mask | (1u32 << layer)) & (1u32 << other) != 0 <==> (
    other == layer || mask & (1u32 << other) != 0))) by (bit_vector);
}

/// Removing a layer makes it absent and leaves every other layer as it was.
pub proof fn lemma_without_layer_contains(mask: u32, layer: u8, other: u8)
    requires
        layer < 32,
        other < 32,
    ensures
        render_mask_has(mask & !(1u32 << layer), other) <==> (other != layer && render_mask_has(mask, other)),
{
    assert(layer < 32 && other < 32 ==> ((mask & !(1u32 << layer)) & (1u32 << other) != 0 <==> (
    other != layer && mask & (1u32 << other) != 0))) by (bit_vector);
}

/// The full mask contains every layer and the empty mask contains none.
pub proof fn lemma_all_and_none(layer: u8)
    requires
        layer < 32,
    ensures
        render_mask_has(u32::MAX, layer),
        !render_mask_has(0u32, layer),
{
    assert(layer < 32 ==> (0xffff_ffffu32 & (1u32 << layer) != 0)) by (bit_vector);
    assert(layer < 32 ==> !(0u32 & (1u32 << layer) != 0)) by (bit_vector);
}

/// Two masks intersect exactly when some layer lies in both; intersection is symmetric.
pub proof fn lemma_intersects_iff_shared_layer(a: u32, b: u32)
    ensures
        (a & b != 0) <==> (exists|l: u8| l < 32 && #[trigger] render_mask_has(a, l) && render_mask_has(b, l)),
        (a & b != 0) <==> (b & a != 0),
{
    assert(a & b == b & a) by (bit_vector);
    if a & b != 0 {
        let l = lowest_shared_layer(a, b);
        assert(render_mask_has(a, l) && render_mask_has(b, l));
    } else {
        assert forall|l: u8| l < 32 implies !(#[trigger] render_mask_has(a, l) && render_mask_has(b, l)) by {
            assert(a & b == 0 && l < 32 ==> !((a & (1u32 << l) != 0) && (b & (1u32 << l) != 0)))
                by (bit_vector);
        }
    }
}

proof fn lowest_shared_layer(a: u32, b: u32) -> (l: u8)
    requires
        a & b != 0,
    ensures
        l < 32,
        render_mask_has(a, l),
        render_mask_has(b, l),
{
    if exists|j: u8| j < 32 && #[trigger] render_mask_has(a, j) && render_mask_has(b, j) {
        choose|j: u8| j < 32 && #[trigger] render_mask_has(a, j) && render_mask_has(b, j)
    } else {
        no_shared_layer_means_disjoint(a, b);
        0
    }
}

proof fn no_shared_layer_means_disjoint(a: u32, b: u32)
    requires
        forall|j: u8| j < 32 ==> !(#[trigger] render_mask_has(a, j) && render_mask_has(b, j)),
    ensures
        a & b == 0,
{
    assert(!(render_mask_has(a, 0u8) && render_mask_has(b, 0u8)));
    assert(!(render_mask_has(a, 1u8) && render_mask_has(b, 1u8)));
    assert(!(render_mask_has(a, 2u8) && render_mask_has(b, 2u8)));
    assert(!(render_mask_has(a, 3u8) && render_mask_has(b, 3u8)));
    assert(!(render_mask_has(a, 4u8) && render_mask_has(b, 4u8)));
    assert(!(render_mask_has(a, 5u8) && render_mask_has(b, 5u8)));
    assert(!(render_mask_has(a, 6u8) && render_mask_has(b, 6u8)));
    assert(!(render_mask_has(a, 7u8) && render_mask_has(b, 7u8)));
    assert(!(render_mask_has(a, 8u8) && render_mask_has(b, 8u8)));
    assert(!(render_mask_has(a, 9u8) && render_mask_has(b, 9u8)));
    assert(!(render_mask_has(a, 10u8) && render_mask_has(b, 10u8)));
    assert(!(render_mask_has(a, 11u8) && render_mask_has(b, 11u8)));
    assert(!(render_mask_has(a, 12u8) && render_mask_has(b, 12u8)));
    assert(!(render_mask_has(a, 13u8) && render_mask_has(b, 13u8)));
    assert(!(render_mask_has(a, 14u8) && render_mask_has(b, 14u8)));
    assert(!(render_mask_has(a, 15u8) && render_mask_has(b, 15u8)));
    assert(!(render_mask_has(a, 16u8) && render_mask_has(b, 16u8)));
    assert(!(render_mask_has(a, 17u8) && render_mask_has(b, 17u8)));
    assert(!(render_mask_has(a, 18u8) && render_mask_has(b, 18u8)));
    assert(!(render_mask_has(a, 19u8) && render_mask_has(b, 19u8)));
    assert(!(render_mask_has(a, 20u8) && render_mask_has(b, 20u8)));
    assert(!(render_mask_has(a, 21u8) && render_mask_has(b, 21u8)));
    assert(!(render_mask_has(a, 22u8) && render_mask_has(b, 22u8)));
    assert(!(render_mask_has(a, 23u8) && render_mask_has(b, 23u8)));
    assert(!(render_mask_has(a, 24u8) && render_mask_has(b, 24u8)));
    assert(!(render_mask_has(a, 25u8) && render_mask_has(b, 25u8)));
    assert(!(render_mask_has(a, 26u8) && render_mask_has(b, 26u8)));
    assert(!(render_mask_has(a, 27u8) && render_mask_has(b, 27u8)));
    assert(!(render_mask_has(a, 28u8) && render_mask_has(b, 28u8)));
    assert(!(render_mask_has(a, 29u8) && render_mask_has(b, 29u8)));
    assert(!(render_mask_has(a, 30u8) && render_mask_has(b, 30u8)));
    assert(!(render_mask_has(a, 31u8) && render_mask_has(b, 31u8)));
    assert(a & b == 0) by (bit_vector)
        requires
        !((a & (1u32 << 0u8)) != 0 && (b & (1u32 << 0u8)) != 0),
        !((a & (1u32 << 1u8)) != 0 && (b & (1u32 << 1u8)) != 0),
        !((a & (1u32 << 2u8)) != 0 && (b & (1u32 << 2u8)) != 0),
        !((a & (1u32 << 3u8)) != 0 && (b & (1u32 << 3u8)) != 0),
        !((a & (1u32 << 4u8)) != 0 && (b & (1u32 << 4u8)) != 0),
        !((a & (1u32 << 5u8)) != 0 && (b & (1u32 << 5u8)) != 0),
        !((a & (1u32 << 6u8)) != 0 && (b & (1u32 << 6u8)) != 0),
        !((a & (1u32 << 7u8)) != 0 && (b & (1u32 << 7u8)) != 0),
        !((a & (1u32 << 8u8)) != 0 && (b & (1u32 << 8u8)) != 0),
        !((a & (1u32 << 9u8)) != 0 && (b & (1u32 << 9u8)) != 0),
        !((a & (1u32 << 10u8)) != 0 && (b & (1u32 << 10u8)) != 0),
        !((a & (1u32 << 11u8)) != 0 && (b & (1u32 << 11u8)) != 0),
        !((a & (1u32 << 12u8)) != 0 && (b & (1u32 << 12u8)) != 0),
        !((a & (1u32 << 13u8)) != 0 && (b & (1u32 << 13u8)) != 0),
        !((a & (1u32 << 14u8)) != 0 && (b & (1u32 << 14u8)) != 0),
        !((a & (1u32 << 15u8)) != 0 && (b & (1u32 << 15u8)) != 0),
        !((a & (1u32 << 16u8)) != 0 && (b & (1u32 << 16u8)) != 0),
        !((a & (1u32 << 17u8)) != 0 && (b & (1u32 << 17u8)) != 0),
        !((a & (1u32 << 18u8)) != 0 && (b & (1u32 << 18u8)) != 0),
        !((a & (1u32 << 19u8)) != 0 && (b & (1u32 << 19u8)) != 0),
        !((a & (1u32 << 20u8)) != 0 && (b & (1u32 << 20u8)) != 0),
        !((a & (1u32 << 21u8)) != 0 && (b & (1u32 << 21u8)) != 0),
        !((a & (1u32 << 22u8)) != 0 && (b & (1u32 << 22u8)) != 0),
        !((a & (1u32 << 23u8)) != 0 && (b & (1u32 << 23u8)) != 0),
        !((a & (1u32 << 24u8)) != 0 && (b & (1u32 << 24u8)) != 0),
        !((a & (1u32 << 25u8)) != 0 && (b & (1u32 << 25u8)) != 0),
        !((a & (1u32 << 26u8)) != 0 && (b & (1u32 << 26u8)) != 0),
        !((a & (1u32 << 27u8)) != 0 && (b & (1u32 << 27u8)) != 0),
        !((a & (1u32 << 28u8)) != 0 && (b & (1u32 << 28u8)) != 0),
        !((a & (1u32 << 29u8)) != 0 && (b & (1u32 << 29u8)) != 0),
        !((a & (1u32 << 30u8)) != 0 && (b & (1u32 << 30u8)) != 0),
        !((a & (1u32 << 31u8)) != 0 && (b & (1u32 << 31u8)) != 0);
}

} // verus!
