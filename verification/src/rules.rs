//! Who converts whom. Player types are numbered `1..=len` and form a cycle:
//! each type beats the type just before it, and type 1 beats type `len`
//! (rock 1, paper 2, scissors 3 in the default roster).

use vstd::prelude::*;

verus! {

/// Type `winner` beats type `loser` in a roster of `len` types.
pub open spec fn beats(winner: int, loser: int, len: int) -> bool {
    winner == loser + 1 || (loser == len && winner == 1)
}

/// The type that beats type `t`: the next one, wrapping from `len` to 1.
pub open spec fn successor(t: int, len: int) -> int {
    if t == len {
        1
    } else {
        t + 1
    }
}

/// What a collision between two players does.
#[derive(Debug, Clone, Copy, PartialEq, Eq)]
pub enum Conversion {
    /// Neither player changes.
    Unchanged,
    /// The first player joins the given type (the second player's).
    FirstBecomes(i32),
    /// The second player joins the given type (the first player's).
    SecondBecomes(i32),
}

/// The outcome of a collision between a player of type `e1` and one of type
/// `e2` (0 stands for a body without a type). The first player is checked
/// for conversion before the second.
pub open spec fn outcome(e1: int, e2: int, len: int) -> Conversion {
    if e1 == 0 || e2 == 0 || e1 == e2 {
        Conversion::Unchanged
    } else if beats(e2, e1, len) {
        Conversion::FirstBecomes(e2 as i32)
    } else if beats(e1, e2, len) {
        Conversion::SecondBecomes(e1 as i32)
    } else {
        Conversion::Unchanged
    }
}

/// The same outcome seen with the two players swapped.
pub open spec fn mirrored(c: Conversion) -> Conversion {
    match c {
        Conversion::Unchanged => Conversion::Unchanged,
        Conversion::FirstBecomes(t) => Conversion::SecondBecomes(t),
        Conversion::SecondBecomes(t) => Conversion::FirstBecomes(t),
    }
}

/// Decides a collision between a player of type `e1` and one of type `e2`.
pub fn collision_outcome(e1: i32, e2: i32, len: i32) -> (r: Conversion)
    ensures
        r == outcome(e1 as int, e2 as int, len as int),
        1 <= e1 <= len && 1 <= e2 <= len && e1 != e2 && beats(e2 as int, e1 as int, len as int)
            ==> r == Conversion::FirstBecomes(e2),
        1 <= e1 <= len && 1 <= e2 <= len && e1 != e2 && beats(e1 as int, e2 as int, len as int)
            && !beats(e2 as int, e1 as int, len as int) ==> r == Conversion::SecondBecomes(e1),
        !beats(e1 as int, e2 as int, len as int) && !beats(e2 as int, e1 as int, len as int) ==> r
            == Conversion::Unchanged,
{
    let (a, b, n) = (e1 as i64, e2 as i64, len as i64);
    if e1 == 0 || e2 == 0 || e1 == e2 {
        Conversion::Unchanged
    } else if b == a + 1 || (a == n && b == 1) {
        Conversion::FirstBecomes(e2)
    } else if a == b + 1 || (b == n && a == 1) {
        Conversion::SecondBecomes(e1)
    } else {
        Conversion::Unchanged
    }
}

/// Every type of the roster is beaten by exactly one type, its successor.
pub proof fn law_beaten_only_by_successor(a: int, b: int, len: int)
    requires
        1 <= a <= len,
        1 <= b <= len,
    ensures
        beats(a, b, len) <==> a == successor(b, len),
{
}

/// With three types or more, no two types beat each other. (With two types,
/// 1 and 2 beat each other, and the first player of a collision is converted.)
pub proof fn law_no_mutual_wins(a: int, b: int, len: int)
    requires
        3 <= len,
        1 <= a <= len,
        1 <= b <= len,
    ensures
        !(beats(a, b, len) && beats(b, a, len)),
{
}

/// With three types or more, the order in which the two players of a
/// collision are reported does not matter.
pub proof fn law_outcome_symmetric(e1: int, e2: int, len: int)
    requires
        3 <= len,
        0 <= e1 <= len,
        0 <= e2 <= len,
    ensures
        outcome(e2, e1, len) == mirrored(outcome(e1, e2, len)),
{
}

/// Whenever one of two different types of the roster beats the other, their
/// collision converts the loser to the winner's type, whatever the size of
/// the roster; the first player is checked first. Types that do not beat
/// each other leave both players as they are.
pub proof fn law_winner_converts_loser(e1: int, e2: int, len: int)
    requires
        1 <= e1 <= len <= i32::MAX,
        1 <= e2 <= len,
        e1 != e2,
    ensures
        beats(e2, e1, len) ==> outcome(e1, e2, len) == Conversion::FirstBecomes(e2 as i32),
        beats(e1, e2, len) && !beats(e2, e1, len) ==> outcome(e1, e2, len)
            == Conversion::SecondBecomes(e1 as i32),
        !beats(e1, e2, len) && !beats(e2, e1, len) ==> outcome(e1, e2, len) == Conversion::Unchanged,
        e2 == e1 + 1 ==> outcome(e1, e2, len) == Conversion::FirstBecomes(e2 as i32),
        e1 == len && e2 == 1 ==> outcome(e1, e2, len) == Conversion::FirstBecomes(e2 as i32),
{
}

/// A conversion always turns the loser into its successor, the type that
/// beats it.
pub proof fn law_conversion_to_successor(e1: int, e2: int, len: int)
    requires
        1 <= e1 <= len <= i32::MAX,
        1 <= e2 <= len,
    ensures
        outcome(e1, e2, len) matches Conversion::FirstBecomes(t) ==> t == successor(e1, len) && t
            == e2,
        outcome(e1, e2, len) matches Conversion::SecondBecomes(t) ==> t == successor(e2, len) && t
            == e1,
{
}

} // verus!
