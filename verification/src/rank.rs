//! Ranking of the player types by how many players each has.

use vstd::prelude::*;
use crate::layers::{layer_of, get_layer};
use crate::collision::{Retype, event_change, applied};

verus! {

/// How many of the bodies with the given membership masks are of type `t`.
pub open spec fn count_of(masks: Seq<u32>, len: int, t: int) -> nat
    decreases masks.len(),
{
    if masks.len() == 0 {
        0
    } else {
        count_of(masks.drop_last(), len, t) + if layer_of(masks.last(), len) == t {
            1nat
        } else {
            0nat
        }
    }
}

/// Type `a` comes before type `b` in the ranking: it has more players, or as
/// many and a smaller number.
pub open spec fn ranks_before(masks: Seq<u32>, len: int, a: int, b: int) -> bool {
    ||| count_of(masks, len, a) > count_of(masks, len, b)
    ||| count_of(masks, len, a) == count_of(masks, len, b) && a < b
}

/// Every body is of one of the types `1..=len`.
pub open spec fn all_typed(masks: Seq<u32>, len: int) -> bool {
    forall|i: int| 0 <= i < masks.len() ==> #[trigger] layer_of(masks[i], len) != 0
}

proof fn lemma_count_bound(masks: Seq<u32>, len: int, t: int)
    ensures
        count_of(masks, len, t) <= masks.len(),
    decreases masks.len(),
{
    if masks.len() > 0 {
        lemma_count_bound(masks.drop_last(), len, t);
    }
}

/// The players per type: entry `t - 1` counts the bodies of type `t`.
fn type_counts(len: i32, masks: &Vec<u32>) -> (counts: Vec<usize>)
    requires
        0 <= len,
        all_typed(masks@, len as int),
    ensures
        counts.len() == len,
        forall|j: int| 0 <= j < len ==> #[trigger] counts@[j] == count_of(masks@, len as int, j + 1),
{
    let mut counts: Vec<usize> = Vec::new();
    let mut t: i32 = 0;
    while t < len
        invariant
            0 <= t <= len,
            counts.len() == t,
            forall|j: int| 0 <= j < t ==> #[trigger] counts@[j] == 0,
        decreases len - t,
    {
        counts.push(0);
        t = t + 1;
    }
    let mut k: usize = 0;
    while k < masks.len()
        invariant
            0 <= len,
            all_typed(masks@, len as int),
            k <= masks.len(),
            counts.len() == len,
            forall|j: int|
                0 <= j < len ==> #[trigger] counts@[j] == count_of(
                    masks@.take(k as int),
                    len as int,
                    j + 1,
                ),
        decreases masks.len() - k,
    {
        let ghost before = masks@.take(k as int);
        let ghost after = masks@.take(k as int + 1);
        assert(after.drop_last() =~= before);
        assert(after.last() == masks@[k as int]);
        let num = get_layer(masks[k], len);
        assert(layer_of(masks@[k as int], len as int) != 0);
        proof {
            crate::layers::lemma_layer_of(masks@[k as int], len as int);
        }
        let slot = (num - 1) as usize;
        proof {
            lemma_count_bound(before, len as int, num as int);
        }
        let c = counts[slot];
        counts.set(slot, c + 1);
        k = k + 1;
    }
    assert(masks@.take(masks.len() as int) =~= masks@);
    counts
}

/// Whether type `a` ranks before type `b`, reading the counts.
fn comes_before(counts: &Vec<usize>, a: i32, b: i32) -> (r: bool)
    requires
        1 <= a <= counts.len(),
        1 <= b <= counts.len(),
    ensures
        r <==> (counts@[a - 1] > counts@[b - 1] || (counts@[a - 1] == counts@[b - 1] && a < b)),
{
    let ca = counts[(a - 1) as usize];
    let cb = counts[(b - 1) as usize];
    ca > cb || (ca == cb && a < b)
}

/// The types `1..=len` ordered by their number of players, most first; types
/// with as many players keep their numeric order.
pub fn rank_types(len: i32, masks: &Vec<u32>) -> (ranking: Vec<i32>)
    requires
        0 <= len,
        all_typed(masks@, len as int),
    ensures
        ranking.len() == len,
        forall|i: int| 0 <= i < len ==> 1 <= #[trigger] ranking@[i] <= len,
        ranking@.no_duplicates(),
        forall|i: int, j: int|
            0 <= i < j < len ==> ranks_before(
                masks@,
                len as int,
                #[trigger] ranking@[i] as int,
                #[trigger] ranking@[j] as int,
            ),
{
    let counts = type_counts(len, masks);
    let ghost m = masks@;
    let ghost n = len as int;
    let mut keys: Vec<i32> = Vec::new();
    let mut t: i32 = 0;
    while t < len
        invariant
            0 <= t <= len,
            keys.len() == t,
            forall|i: int| 0 <= i < keys.len() ==> #[trigger] keys@[i] == i + 1,
        decreases len - t,
    {
        keys.push(t + 1);
        t = t + 1;
    }
    let size = keys.len();
    let mut i: usize = 1;
    while i < size
        invariant
            size == len,
            keys.len() == size,
            counts.len() == len,
            forall|j: int| 0 <= j < len ==> #[trigger] counts@[j] == count_of(m, n, j + 1),
            forall|a: int| 0 <= a < size ==> 1 <= #[trigger] keys@[a] <= len,
            forall|a: int, b: int| 0 <= a < b < size ==> #[trigger] keys@[a] != #[trigger] keys@[b],
            forall|a: int, b: int|
                0 <= a < b < i && b < size ==> ranks_before(
                    m,
                    n,
                    #[trigger] keys@[a] as int,
                    #[trigger] keys@[b] as int,
                ),
            1 <= i || size == 0,
        decreases size - i,
    {
        let mut j: usize = i;
        while j > 0 && comes_before(&counts, keys[j], keys[j - 1])
            invariant
                size == len,
                i < size,
                j <= i,
                keys.len() == size,
                counts.len() == len,
                forall|x: int| 0 <= x < len ==> #[trigger] counts@[x] == count_of(m, n, x + 1),
                forall|a: int| 0 <= a < size ==> 1 <= #[trigger] keys@[a] <= len,
                forall|a: int, b: int|
                    0 <= a < b < size ==> #[trigger] keys@[a] != #[trigger] keys@[b],
                forall|a: int, b: int|
                    0 <= a < b <= i && a != j && b != j ==> ranks_before(
                        m,
                        n,
                        #[trigger] keys@[a] as int,
                        #[trigger] keys@[b] as int,
                    ),
                forall|b: int|
                    j < b <= i ==> ranks_before(m, n, keys@[j as int] as int, #[trigger] keys@[b] as int),
            decreases j,
        {
            let x = keys[j - 1];
            let y = keys[j];
            keys.set(j - 1, y);
            keys.set(j, x);
            j = j - 1;
        }
        i = i + 1;
    }
    proof {
        assert forall|a: int, b: int| 0 <= a < b < keys@.len() implies keys@[a] != keys@[b] by {}
    }
    keys
}

/// 1 where `b` holds, 0 otherwise.
pub open spec fn indicator(b: bool) -> int {
    if b {
        1
    } else {
        0
    }
}

proof fn lemma_count_update(s: Seq<u32>, x: int, v: u32, len: int, t: int)
    requires
        0 <= x < s.len(),
    ensures
        count_of(s.update(x, v), len, t) == count_of(s, len, t) - indicator(
            layer_of(s[x], len) == t,
        ) + indicator(layer_of(v, len) == t),
    decreases s.len(),
{
    let u = s.update(x, v);
    if x == s.len() - 1 {
        assert(u.drop_last() =~= s.drop_last());
    } else {
        assert(u.drop_last() =~= s.drop_last().update(x, v));
        lemma_count_update(s.drop_last(), x, v, len, t);
    }
}

/// A conversion moves exactly one player from the loser's type to the
/// winner's type; every other type keeps its number of players.
pub proof fn law_conversion_moves_one_player(
    masks: Seq<u32>,
    ev: (usize, usize),
    len: int,
    c: Retype,
    t: int,
)
    requires
        ev.0 < masks.len(),
        ev.1 < masks.len(),
        event_change(masks, ev, len) == Some(c),
    ensures
        ({
            let after = applied(masks, seq![c]);
            let loser_type = layer_of(masks[c.entity as int], len);
            &&& loser_type != c.new_type
            &&& count_of(after, len, c.new_type as int) == count_of(masks, len, c.new_type as int)
                + 1
            &&& count_of(after, len, loser_type) + 1 == count_of(masks, len, loser_type)
            &&& t != c.new_type && t != loser_type ==> count_of(after, len, t) == count_of(
                masks,
                len,
                t,
            )
        }),
{
    let one = seq![c];
    assert(one.drop_last() =~= Seq::<Retype>::empty());
    assert(one.last() == c);
    let after = applied(masks, one);
    assert(applied(masks, Seq::<Retype>::empty()) == masks);
    assert(after == masks.update(c.entity as int, c.layers.memberships));
    crate::layers::lemma_layer_of(masks[ev.0 as int], len);
    crate::layers::lemma_layer_of(masks[ev.1 as int], len);
    let loser_type = layer_of(masks[c.entity as int], len);
    assert(layer_of(c.layers.memberships, len) == c.new_type);
    lemma_count_update(masks, c.entity as int, c.layers.memberships, len, c.new_type as int);
    lemma_count_update(masks, c.entity as int, c.layers.memberships, len, loser_type);
    lemma_count_update(masks, c.entity as int, c.layers.memberships, len, t);
}

} // verus!
