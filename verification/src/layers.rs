//! Collision-layer bit masks. A player of type `t` (counted from 1) is a
//! member of layer bit `t`; the arena walls are members of bit 0.

use vstd::prelude::*;

verus! {

/// Membership mask of the four arena walls.
pub const WALL_MEMBERSHIP: u32 = 1;

/// Whether bit `i` of `mask` is set.
pub open spec fn has_bit(mask: u32, i: int) -> bool {
    mask & (1u32 << (i as u32)) != 0
}

/// The first layer bit of `mask` among `i..=len`, or 0 where there is none.
/// A mask has 32 bits, so no bit above 31 is looked at.
pub open spec fn layer_from(mask: u32, i: int, len: int) -> int
    decreases len - i + 1,
{
    if i > len || i < 1 || i > 31 {
        0
    } else if has_bit(mask, i) {
        i
    } else {
        layer_from(mask, i + 1, len)
    }
}

/// The player type that a membership mask stands for: the lowest bit among
/// `1..=len` (and at most 31) that is set, or 0 where none of them is.
pub open spec fn layer_of(mask: u32, len: int) -> int {
    layer_from(mask, 1, len)
}

/// The collision layers of a body: the layers it belongs to and the layers
/// it collides with.
#[derive(Debug, Clone, Copy, PartialEq, Eq)]
pub struct Layers {
    pub memberships: u32,
    pub filters: u32,
}

/// Whether `get_layer` can read a mask for a roster of `len` types: bit
/// `i` is tested for `i` from 1 up, and a test of bit 32 or higher does not
/// fit a 32-bit mask, so for more than 31 types one of the bits `1..=31`
/// must be set.
pub open spec fn readable(mask: u32, len: int) -> bool {
    len <= 31 || layer_of(mask, len) != 0
}

/// Lowest set layer bit among `1..=len` of a membership mask, 0 where there
/// is none.
pub fn get_layer(layer_mask: u32, len: i32) -> (r: i32)
    requires
        readable(layer_mask, len as int),
    ensures
        r == layer_of(layer_mask, len as int),
{
    let mut i: i32 = 1;
    while i <= len
        invariant
            1 <= i,
            i <= len + 1 || len < 1,
            readable(layer_mask, len as int),
            layer_of(layer_mask, len as int) == layer_from(layer_mask, i as int, len as int),
        decreases len + 1 - i,
    {
        assert(i <= 31);
        if layer_mask & (1u32 << (i as u32)) != 0 {
            assert(has_bit(layer_mask, i as int));
            return i;
        }
        assert(!has_bit(layer_mask, i as int));
        i = i + 1;
    }
    0
}

proof fn lemma_layer_from_capped(mask: u32, i: int, len: int)
    requires
        1 <= i,
        31 <= len,
    ensures
        layer_from(mask, i, len) == layer_from(mask, i, 31),
    decreases 32 - i,
{
    if i <= 31 && !has_bit(mask, i) {
        lemma_layer_from_capped(mask, i + 1, len);
    }
}

/// The type of a mask for a roster of `len` types where `get_layer` can read
/// it, and `None` where it cannot.
pub fn try_get_layer(layer_mask: u32, len: i32) -> (r: Option<i32>)
    ensures
        r is None <==> !readable(layer_mask, len as int),
        r matches Some(t) ==> t == layer_of(layer_mask, len as int),
{
    if len <= 31 {
        Some(get_layer(layer_mask, len))
    } else {
        proof {
            lemma_layer_from_capped(layer_mask, 1, len as int);
        }
        let t = get_layer(layer_mask, 31);
        if t == 0 {
            None
        } else {
            Some(t)
        }
    }
}

/// The type a mask stands for is 0 exactly when no bit among `1..=len` (and
/// at most 31) is set; otherwise it is the lowest set bit among them.
pub proof fn lemma_layer_of(mask: u32, len: int)
    ensures
        layer_of(mask, len) == 0 <==> (forall|j: int| 1 <= j <= len && j <= 31 ==> !has_bit(mask, j)),
        layer_of(mask, len) != 0 ==> 1 <= layer_of(mask, len) <= len,
        layer_of(mask, len) != 0 ==> layer_of(mask, len) <= 31,
        layer_of(mask, len) != 0 ==> has_bit(mask, layer_of(mask, len)),
        forall|j: int| 1 <= j < layer_of(mask, len) ==> !has_bit(mask, j),
{
    lemma_layer_from(mask, 1, len);
}

/// What `layer_from` picks: the lowest set bit among `i..=len`, or 0.
proof fn lemma_layer_from(mask: u32, i: int, len: int)
    requires
        1 <= i,
    ensures
        layer_from(mask, i, len) == 0 <==> (forall|j: int| i <= j <= len && j <= 31 ==> !has_bit(mask, j)),
        layer_from(mask, i, len) != 0 ==> i <= layer_from(mask, i, len) <= len,
        layer_from(mask, i, len) != 0 ==> layer_from(mask, i, len) <= 31,
        layer_from(mask, i, len) != 0 ==> has_bit(mask, layer_from(mask, i, len)),
        forall|j: int| i <= j < layer_from(mask, i, len) ==> !has_bit(mask, j),
    decreases len - i + 1,
{
    if i <= len && i <= 31 && !has_bit(mask, i) {
        lemma_layer_from(mask, i + 1, len);
    }
}

/// Layers of a player of type `t`: member of bit `t`, colliding with every
/// other bit.
pub fn type_layers(t: i32) -> (r: Layers)
    requires
        0 <= t < 32,
    ensures
        r.memberships == 1u32 << (t as u32),
        r.filters == !(1u32 << (t as u32)),
{
    let bit: u32 = 1u32 << (t as u32);
    assert(u32::MAX & !bit == !bit) by (bit_vector);
    Layers { memberships: bit, filters: u32::MAX & !bit }
}

/// Layers of a player that has been converted by a player with membership
/// mask `winner`: it joins the winner's layers and collides with all others.
pub fn converted_layers(winner: u32) -> (r: Layers)
    ensures
        r.memberships == winner,
        r.filters == !winner,
{
    assert(u32::MAX & !winner == !winner) by (bit_vector);
    Layers { memberships: winner, filters: u32::MAX & !winner }
}

/// Layers of the arena walls: member of bit 0, colliding with every other bit.
pub fn wall_layers() -> (r: Layers)
    ensures
        r.memberships == WALL_MEMBERSHIP,
        r.filters == !WALL_MEMBERSHIP,
{
    assert(u32::MAX & !1u32 == !1u32) by (bit_vector);
    Layers { memberships: WALL_MEMBERSHIP, filters: u32::MAX & !WALL_MEMBERSHIP }
}

/// Two single-bit masks share a bit exactly when they are the same bit.
proof fn lemma_single_bits(t: u32, j: u32)
    requires
        t < 32,
        j < 32,
    ensures
        ((1u32 << t) & (1u32 << j) != 0) <==> t == j,
{
    assert(((1u32 << t) & (1u32 << j) != 0) <==> t == j) by (bit_vector)
        requires
            t < 32,
            j < 32,
    ;
}

proof fn lemma_single_bit_from(t: int, i: int, len: int)
    requires
        1 <= i <= t <= len,
        t <= 31,
    ensures
        layer_from(1u32 << (t as u32), i, len) == t,
    decreases t - i,
{
    lemma_single_bits(t as u32, i as u32);
    if i < t {
        lemma_single_bit_from(t, i + 1, len);
    }
}

/// A player spawned with the layers of type `t` is seen as type `t` again:
/// `get_layer` undoes `type_layers` for every type `1..=len`.
pub proof fn law_type_layers_round_trip(t: i32, len: i32)
    requires
        1 <= t <= len,
        t <= 31,
    ensures
        layer_of(1u32 << (t as u32), len as int) == t,
{
    lemma_single_bit_from(t as int, 1, len as int);
}

/// A wall is never seen as a player of any type.
pub proof fn law_wall_has_no_type(len: i32)
    ensures
        layer_of(WALL_MEMBERSHIP, len as int) == 0,
{
    assert forall|j: int| 1 <= j <= len && j <= 31 implies !has_bit(WALL_MEMBERSHIP, j) by {
        lemma_single_bits(0, j as u32);
        assert(1u32 << 0u32 == 1u32) by (bit_vector);
    }
    lemma_layer_of(WALL_MEMBERSHIP, len as int);
}

} // verus!
