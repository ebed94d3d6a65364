//! One simulation frame of collisions. The physics engine reports pairs of
//! bodies that started touching; every decision of a frame is taken on the
//! layers the bodies had when the frame began, and the resulting layer
//! changes are applied afterwards, in the order of the events.

use vstd::prelude::*;
use crate::layers::{Layers, layer_of, get_layer, converted_layers, readable};
use crate::rules::{Conversion, outcome, collision_outcome, beats, law_outcome_symmetric};

verus! {

/// A body that changes type: it takes the given type and layers.
#[derive(Debug, Clone, Copy, PartialEq, Eq)]
pub struct Retype {
    pub entity: usize,
    pub new_type: i32,
    pub layers: Layers,
}

/// The layers a loser takes from a winner with membership mask `winner`.
pub open spec fn layers_of_winner(winner: u32) -> Layers {
    Layers { memberships: winner, filters: !winner }
}

/// The change, if any, that a collision between bodies `ev.0` and `ev.1`
/// causes, given the membership masks of all bodies.
pub open spec fn event_change(masks: Seq<u32>, ev: (usize, usize), len: int) -> Option<Retype> {
    let m1 = masks[ev.0 as int];
    let m2 = masks[ev.1 as int];
    match outcome(layer_of(m1, len), layer_of(m2, len), len) {
        Conversion::FirstBecomes(t) => Some(
            Retype { entity: ev.0, new_type: t, layers: layers_of_winner(m2) },
        ),
        Conversion::SecondBecomes(t) => Some(
            Retype { entity: ev.1, new_type: t, layers: layers_of_winner(m1) },
        ),
        Conversion::Unchanged => None,
    }
}

/// The changes that a frame's events cause, in the order of the events.
pub open spec fn frame_changes(masks: Seq<u32>, events: Seq<(usize, usize)>, len: int) -> Seq<
    Retype,
>
    decreases events.len(),
{
    if events.len() == 0 {
        Seq::empty()
    } else {
        let before = frame_changes(masks, events.drop_last(), len);
        match event_change(masks, events.last(), len) {
            Some(c) => before.push(c),
            None => before,
        }
    }
}

/// The membership masks after applying `changes` in order.
pub open spec fn applied(masks: Seq<u32>, changes: Seq<Retype>) -> Seq<u32>
    decreases changes.len(),
{
    if changes.len() == 0 {
        masks
    } else {
        let c = changes.last();
        applied(masks, changes.drop_last()).update(c.entity as int, c.layers.memberships)
    }
}

/// Whether every event names bodies that exist.
pub open spec fn events_in_range(n: int, events: Seq<(usize, usize)>) -> bool {
    forall|k: int| 0 <= k < events.len() ==> #[trigger] events[k].0 < n && events[k].1 < n
}

/// Whether `get_layer` can read the masks of both bodies of every event, for
/// a roster of `len` types.
pub open spec fn events_readable(masks: Seq<u32>, events: Seq<(usize, usize)>, len: int) -> bool {
    forall|k: int|
        0 <= k < events.len() ==> readable(masks[#[trigger] events[k].0 as int], len) && readable(
            masks[events[k].1 as int],
            len,
        )
}

/// Decides one collision between bodies `c1` and `c2`.
pub fn collision_event(masks: &Vec<u32>, c1: usize, c2: usize, len: i32) -> (r: Option<Retype>)
    requires
        c1 < masks.len(),
        c2 < masks.len(),
        readable(masks@[c1 as int], len as int),
        readable(masks@[c2 as int], len as int),
    ensures
        r == event_change(masks@, (c1, c2), len as int),
        r matches Some(c) ==> 1 <= c.new_type <= len && c.new_type <= 31,
{
    proof {
        lemma_layer_of_bounds(masks@[c1 as int], len as int);
        lemma_layer_of_bounds(masks@[c2 as int], len as int);
    }
    let m1 = masks[c1];
    let m2 = masks[c2];
    let e1 = get_layer(m1, len);
    let e2 = get_layer(m2, len);
    match collision_outcome(e1, e2, len) {
        Conversion::FirstBecomes(t) => Some(
            Retype { entity: c1, new_type: t, layers: converted_layers(m2) },
        ),
        Conversion::SecondBecomes(t) => Some(
            Retype { entity: c2, new_type: t, layers: converted_layers(m1) },
        ),
        Conversion::Unchanged => None,
    }
}

/// Decides all collisions of a frame on the masks the bodies had when the
/// frame began.
pub fn collision_frame(masks: &Vec<u32>, events: &Vec<(usize, usize)>, len: i32) -> (r: Vec<
    Retype,
>)
    requires
        events_in_range(masks.len() as int, events@),
        events_readable(masks@, events@, len as int),
    ensures
        r@ == frame_changes(masks@, events@, len as int),
        r@ == events@.filter_map(|ev: (usize, usize)| event_change(masks@, ev, len as int)),
        forall|k: int| 0 <= k < r.len() ==> 1 <= #[trigger] r@[k].new_type <= len,
{
    let mut r: Vec<Retype> = Vec::new();
    let mut k: usize = 0;
    while k < events.len()
        invariant
            k <= events.len(),
            events_in_range(masks.len() as int, events@),
            events_readable(masks@, events@, len as int),
            r@ == frame_changes(masks@, events@.take(k as int), len as int),
            forall|j: int| 0 <= j < r.len() ==> 1 <= #[trigger] r@[j].new_type <= len,
        decreases events.len() - k,
    {
        let (c1, c2) = events[k];
        assert(events@[k as int].0 < masks.len() && events@[k as int].1 < masks.len());
        assert(readable(masks@[c1 as int], len as int) && readable(masks@[c2 as int], len as int)) by {
            assert(events@[k as int] == (c1, c2));
        }
        let change = collision_event(masks, c1, c2, len);
        assert(events@.take(k as int + 1).drop_last() =~= events@.take(k as int));
        match change {
            Some(c) => r.push(c),
            None => {},
        }
        k = k + 1;
    }
    assert(events@.take(events.len() as int) =~= events@);
    proof {
        law_frame_changes_are_event_changes(masks@, events@, len as int);
    }
    r
}

/// Applies the changes of a frame, in order, to the membership masks.
pub fn apply_retypes(masks: &mut Vec<u32>, changes: &Vec<Retype>)
    requires
        forall|k: int| 0 <= k < changes.len() ==> #[trigger] changes@[k].entity < old(masks).len(),
    ensures
        final(masks)@ == applied(old(masks)@, changes@),
{
    let ghost start = masks@;
    let mut k: usize = 0;
    while k < changes.len()
        invariant
            k <= changes.len(),
            masks.len() == start.len(),
            forall|j: int| 0 <= j < changes.len() ==> #[trigger] changes@[j].entity < start.len(),
            masks@ == applied(start, changes@.take(k as int)),
        decreases changes.len() - k,
    {
        let c = changes[k];
        assert(changes@[k as int].entity < start.len());
        masks.set(c.entity, c.layers.memberships);
        assert(changes@.take(k as int + 1).drop_last() =~= changes@.take(k as int));
        k = k + 1;
    }
    assert(changes@.take(changes.len() as int) =~= changes@);
}

/// Change `c` is what collision `ev` decides: the body of `ev` that loses
/// takes the type and the membership mask of the other body, whose type
/// beats its own.
pub open spec fn justified_by(masks: Seq<u32>, ev: (usize, usize), c: Retype, len: int) -> bool {
    let t1 = layer_of(masks[ev.0 as int], len);
    let t2 = layer_of(masks[ev.1 as int], len);
    ||| {
        &&& c.entity == ev.0
        &&& c.new_type == t2
        &&& t1 != 0
        &&& beats(t2, t1, len)
        &&& c.layers == layers_of_winner(masks[ev.1 as int])
    }
    ||| {
        &&& c.entity == ev.1
        &&& c.new_type == t1
        &&& t2 != 0
        &&& beats(t1, t2, len)
        &&& c.layers == layers_of_winner(masks[ev.0 as int])
    }
}

proof fn lemma_layer_of_bounds(mask: u32, len: int)
    ensures
        0 <= layer_of(mask, len),
        layer_of(mask, len) != 0 ==> 1 <= layer_of(mask, len) <= len,
        layer_of(mask, len) <= 31,
{
    crate::layers::lemma_layer_of(mask, len);
}

proof fn lemma_event_change_justified(masks: Seq<u32>, ev: (usize, usize), len: int)
    requires
        ev.0 < masks.len(),
        ev.1 < masks.len(),
    ensures
        event_change(masks, ev, len) matches Some(c) ==> justified_by(masks, ev, c, len),
{
    lemma_layer_of_bounds(masks[ev.0 as int], len);
    lemma_layer_of_bounds(masks[ev.1 as int], len);
}

/// Every change of a frame comes from one of the frame's collisions, in which
/// the changed body lost: it takes the type and the membership mask of the
/// body that beat it.
pub proof fn law_frame_changes_justified(masks: Seq<u32>, events: Seq<(usize, usize)>, len: int)
    requires
        events_in_range(masks.len() as int, events),
    ensures
        forall|k: int|
            #![trigger frame_changes(masks, events, len)[k]]
            0 <= k < frame_changes(masks, events, len).len() ==> exists|i: int|
                0 <= i < events.len() && justified_by(
                    masks,
                    #[trigger] events[i],
                    frame_changes(masks, events, len)[k],
                    len,
                ),
    decreases events.len(),
{
    if events.len() > 0 {
        let prefix = events.drop_last();
        assert forall|k: int| 0 <= k < prefix.len() implies #[trigger] prefix[k].0 < masks.len()
            && prefix[k].1 < masks.len() by {
            assert(prefix[k] == events[k]);
            assert(events[k].0 < masks.len() && events[k].1 < masks.len());
        }
        law_frame_changes_justified(masks, prefix, len);
        let last = events.len() - 1;
        assert(events[last].0 < masks.len() && events[last].1 < masks.len());
        lemma_event_change_justified(masks, events[last], len);
        let before = frame_changes(masks, prefix, len);
        let after = frame_changes(masks, events, len);
        assert forall|k: int| #![trigger after[k]] 0 <= k < after.len() implies exists|i: int|
            0 <= i < events.len() && justified_by(masks, #[trigger] events[i], after[k], len) by {
            if k < before.len() {
                let i = choose|i: int|
                    0 <= i < prefix.len() && justified_by(masks, #[trigger] prefix[i], before[k], len);
                assert(events[i] == prefix[i]);
            } else {
                assert(events[last] == events.last());
            }
        }
    }
}

proof fn lemma_frame_entities(masks: Seq<u32>, events: Seq<(usize, usize)>, len: int)
    requires
        events_in_range(masks.len() as int, events),
    ensures
        forall|k: int|
            #![trigger frame_changes(masks, events, len)[k]]
            0 <= k < frame_changes(masks, events, len).len() ==> exists|i: int|
                0 <= i < events.len() && (#[trigger] events[i].0 == frame_changes(
                    masks,
                    events,
                    len,
                )[k].entity || events[i].1 == frame_changes(masks, events, len)[k].entity),
{
    law_frame_changes_justified(masks, events, len);
    let ch = frame_changes(masks, events, len);
    assert forall|k: int| #![trigger ch[k]] 0 <= k < ch.len() implies exists|i: int|
        0 <= i < events.len() && (#[trigger] events[i].0 == ch[k].entity || events[i].1
            == ch[k].entity) by {
        let i = choose|i: int| 0 <= i < events.len() && justified_by(masks, #[trigger] events[i], ch[k], len);
        assert(events[i].0 == ch[k].entity || events[i].1 == ch[k].entity);
    }
}

proof fn lemma_applied_untouched(masks: Seq<u32>, changes: Seq<Retype>, x: int)
    requires
        0 <= x < masks.len(),
        forall|k: int| 0 <= k < changes.len() ==> (#[trigger] changes[k]).entity != x,
        forall|k: int| 0 <= k < changes.len() ==> (#[trigger] changes[k]).entity < masks.len(),
    ensures
        applied(masks, changes).len() == masks.len(),
        applied(masks, changes)[x] == masks[x],
    decreases changes.len(),
{
    if changes.len() > 0 {
        let prefix = changes.drop_last();
        assert forall|k: int| 0 <= k < prefix.len() implies (#[trigger] prefix[k]).entity != x
            && prefix[k].entity < masks.len() by {
            assert(prefix[k] == changes[k]);
        }
        lemma_applied_untouched(masks, prefix, x);
        assert(changes.last() == changes[changes.len() - 1]);
    }
}

/// A body that takes part in no collision of the frame keeps its membership
/// mask, and no body appears or disappears.
pub proof fn law_untouched_keep_layers(
    masks: Seq<u32>,
    events: Seq<(usize, usize)>,
    len: int,
    x: int,
)
    requires
        events_in_range(masks.len() as int, events),
        0 <= x < masks.len(),
        forall|i: int| 0 <= i < events.len() ==> #[trigger] events[i].0 != x && events[i].1 != x,
    ensures
        applied(masks, frame_changes(masks, events, len)).len() == masks.len(),
        applied(masks, frame_changes(masks, events, len))[x] == masks[x],
{
    lemma_frame_entities(masks, events, len);
    let ch = frame_changes(masks, events, len);
    assert forall|k: int| 0 <= k < ch.len() implies (#[trigger] ch[k]).entity != x
        && ch[k].entity < masks.len() by {
        let i = choose|i: int|
            0 <= i < events.len() && (#[trigger] events[i].0 == ch[k].entity || events[i].1
                == ch[k].entity);
    }
    lemma_applied_untouched(masks, ch, x);
}

/// A mask with exactly the layer bit of one of the types `1..=len`, as
/// every player is spawned with.
pub open spec fn is_type_mask(m: u32, len: int) -> bool {
    layer_of(m, len) != 0 && m == 1u32 << (layer_of(m, len) as u32)
}

/// With three types or more, the order in which the physics engine names
/// the two bodies of a collision does not matter: the same body takes the
/// same type and layers either way.
pub proof fn law_collider_order_irrelevant(masks: Seq<u32>, a: usize, b: usize, len: int)
    requires
        a < masks.len(),
        b < masks.len(),
        3 <= len,
    ensures
        event_change(masks, (a, b), len) == event_change(masks, (b, a), len),
{
    lemma_layer_of_bounds(masks[a as int], len);
    lemma_layer_of_bounds(masks[b as int], len);
    law_outcome_symmetric(layer_of(masks[a as int], len), layer_of(masks[b as int], len), len);
}

proof fn lemma_applied_keeps_type_masks(masks: Seq<u32>, changes: Seq<Retype>, len: int)
    requires
        forall|i: int| 0 <= i < masks.len() ==> is_type_mask(#[trigger] masks[i], len),
        forall|k: int|
            0 <= k < changes.len() ==> (#[trigger] changes[k]).entity < masks.len()
                && is_type_mask(changes[k].layers.memberships, len),
    ensures
        applied(masks, changes).len() == masks.len(),
        forall|i: int|
            0 <= i < masks.len() ==> is_type_mask(#[trigger] applied(masks, changes)[i], len),
    decreases changes.len(),
{
    if changes.len() > 0 {
        let prefix = changes.drop_last();
        assert forall|k: int| 0 <= k < prefix.len() implies (#[trigger] prefix[k]).entity
            < masks.len() && is_type_mask(prefix[k].layers.memberships, len) by {
            assert(prefix[k] == changes[k]);
        }
        lemma_applied_keeps_type_masks(masks, prefix, len);
        let c = changes[changes.len() - 1];
        assert(changes.last() == c);
        let before = applied(masks, prefix);
        assert forall|i: int| 0 <= i < masks.len() implies is_type_mask(
            #[trigger] applied(masks, changes)[i],
            len,
        ) by {
            if i != c.entity {
                assert(applied(masks, changes)[i] == before[i]);
            }
        }
    }
}

/// A frame keeps every player on exactly one type's layer bit, colliding
/// with all other bits: where every body starts with such layers, each
/// change gives a body a type's single bit and its complement as filters,
/// and after the frame every body still has a single type bit. No body
/// appears or disappears.
pub proof fn law_frame_keeps_player_layers(masks: Seq<u32>, events: Seq<(usize, usize)>, len: int)
    requires
        events_in_range(masks.len() as int, events),
        forall|i: int| 0 <= i < masks.len() ==> is_type_mask(#[trigger] masks[i], len),
    ensures
        forall|k: int|
            #![trigger frame_changes(masks, events, len)[k]]
            0 <= k < frame_changes(masks, events, len).len() ==> {
                let c = frame_changes(masks, events, len)[k];
                &&& is_type_mask(c.layers.memberships, len)
                &&& c.layers.filters == !c.layers.memberships
            },
        applied(masks, frame_changes(masks, events, len)).len() == masks.len(),
        forall|i: int|
            0 <= i < masks.len() ==> is_type_mask(
                #[trigger] applied(masks, frame_changes(masks, events, len))[i],
                len,
            ),
{
    law_frame_changes_justified(masks, events, len);
    let ch = frame_changes(masks, events, len);
    assert forall|k: int| #![trigger ch[k]] 0 <= k < ch.len() implies {
        &&& is_type_mask(ch[k].layers.memberships, len)
        &&& ch[k].layers.filters == !ch[k].layers.memberships
        &&& ch[k].entity < masks.len()
    } by {
        let i = choose|i: int|
            0 <= i < events.len() && justified_by(masks, #[trigger] events[i], ch[k], len);
        assert(events[i].0 < masks.len() && events[i].1 < masks.len());
        assert(is_type_mask(masks[events[i].0 as int], len));
        assert(is_type_mask(masks[events[i].1 as int], len));
    }
    lemma_applied_keeps_type_masks(masks, ch, len);
}

/// Each event of a frame is decided on its own: an event that converts
/// yields its change after those of the earlier events, whatever they were,
/// and an event that converts nothing adds nothing.
pub proof fn law_event_change_appended(
    masks: Seq<u32>,
    events: Seq<(usize, usize)>,
    ev: (usize, usize),
    len: int,
)
    ensures
        event_change(masks, ev, len) matches Some(c) ==> frame_changes(masks, events.push(ev), len)
            == frame_changes(masks, events, len).push(c),
        event_change(masks, ev, len) is None ==> frame_changes(masks, events.push(ev), len)
            == frame_changes(masks, events, len),
{
    assert(events.push(ev).drop_last() =~= events);
}

/// The changes of a frame whose events come in two runs are those of the
/// first run followed by those of the second.
pub proof fn law_frame_changes_split(
    masks: Seq<u32>,
    first: Seq<(usize, usize)>,
    second: Seq<(usize, usize)>,
    len: int,
)
    ensures
        frame_changes(masks, first + second, len) == frame_changes(masks, first, len)
            + frame_changes(masks, second, len),
    decreases second.len(),
{
    if second.len() == 0 {
        assert(first + second =~= first);
        assert(frame_changes(masks, first, len) + frame_changes(masks, second, len) =~= frame_changes(
            masks,
            first,
            len,
        ));
    } else {
        let init = second.drop_last();
        law_frame_changes_split(masks, first, init, len);
        assert((first + second).drop_last() =~= first + init);
        assert((first + second).last() == second.last());
        let a = frame_changes(masks, first, len);
        let b = frame_changes(masks, init, len);
        match event_change(masks, second.last(), len) {
            Some(c) => {
                assert((a + b).push(c) =~= a + b.push(c));
            },
            None => {},
        }
    }
}

/// A frame's changes are exactly the changes of its converting events, in
/// the order of the events, one per converting event.
pub proof fn law_frame_changes_are_event_changes(
    masks: Seq<u32>,
    events: Seq<(usize, usize)>,
    len: int,
)
    ensures
        frame_changes(masks, events, len) == events.filter_map(
            |ev: (usize, usize)| event_change(masks, ev, len),
        ),
        frame_changes(masks, events, len).len() == events.filter(
            |ev: (usize, usize)| event_change(masks, ev, len) is Some,
        ).len(),
    decreases events.len(),
{
    reveal(Seq::filter);
    if events.len() > 0 {
        law_frame_changes_are_event_changes(masks, events.drop_last(), len);
    }
}

} // verus!
