//! Spreading a sample over the full range of `s` and `theta`.
//!
//! Rejection sampling of the double-differential spectrum is done on
//! `1/2 <= s <= s_max` and `0 <= theta <= pi/2` only. Two further uniform
//! draws then pick the half of the `s` range (a draw of 0 or 1) and the
//! quadrant of `theta` (a draw of 0 to 3) that the sample is moved to. The
//! draws map one to one onto the halves and quadrants, so each is picked
//! with equal probability.
use vstd::prelude::*;

verus! {

/// The half of the range of `s` that a sample lands in.
#[derive(PartialEq, Eq, Structural, Clone, Copy, Debug)]
pub enum SHalf {
    /// `s` is mirrored to `1 - s`.
    Mirrored,
    /// `s` stays as it is.
    Kept,
}

/// The quadrant of `theta` that a sample lands in.
#[derive(PartialEq, Eq, Structural, Clone, Copy, Debug)]
pub enum Quadrant {
    /// `theta` stays as it is.
    First,
    /// `theta` becomes `pi - theta`.
    Second,
    /// `theta` becomes `pi + theta`.
    Third,
    /// `theta` becomes `2 pi - theta`.
    Fourth,
}

/// The half picked by a draw of 0 or 1.
pub open spec fn half_of(draw: int) -> SHalf {
    if draw == 0 {
        SHalf::Mirrored
    } else {
        SHalf::Kept
    }
}

/// The quadrant picked by a draw of 0 to 3.
pub open spec fn quadrant_of(draw: int) -> Quadrant {
    if draw == 0 {
        Quadrant::First
    } else if draw == 1 {
        Quadrant::Second
    } else if draw == 2 {
        Quadrant::Third
    } else {
        Quadrant::Fourth
    }
}

/// The half of the `s` range picked by `draw`, which is 0 or 1.
pub fn half_from_draw(draw: i32) -> (res: SHalf)
    requires
        0 <= draw < 2,
    ensures
        res == half_of(draw as int),
        draw == 0 ==> res == SHalf::Mirrored,
        draw == 1 ==> res == SHalf::Kept,
{
    if draw == 0 {
        SHalf::Mirrored
    } else {
        SHalf::Kept
    }
}

/// The quadrant of `theta` picked by `draw`, which is 0 to 3.
pub fn quadrant_from_draw(draw: i32) -> (res: Quadrant)
    requires
        0 <= draw < 4,
    ensures
        res == quadrant_of(draw as int),
        draw == 0 ==> res == Quadrant::First,
        draw == 1 ==> res == Quadrant::Second,
        draw == 2 ==> res == Quadrant::Third,
        draw == 3 ==> res == Quadrant::Fourth,
{
    if draw == 0 {
        Quadrant::First
    } else if draw == 1 {
        Quadrant::Second
    } else if draw == 2 {
        Quadrant::Third
    } else {
        Quadrant::Fourth
    }
}

/// The draw that picks half `h`.
pub open spec fn draw_for_half(h: SHalf) -> int {
    match h {
        SHalf::Mirrored => 0,
        SHalf::Kept => 1,
    }
}

/// The draw that picks quadrant `q`.
pub open spec fn draw_for_quadrant(q: Quadrant) -> int {
    match q {
        Quadrant::First => 0,
        Quadrant::Second => 1,
        Quadrant::Third => 2,
        Quadrant::Fourth => 3,
    }
}

/// The draws map one to one onto the halves and the quadrants: distinct
/// draws pick distinct halves (quadrants), and every half (quadrant) is
/// picked by some draw. Uniform draws therefore pick each half and each
/// quadrant with equal probability.
pub proof fn lemma_draws_pick_one_to_one()
    ensures
        forall|d1: int, d2: int|
            0 <= d1 < 2 && 0 <= d2 < 2 && d1 != d2 ==> #[trigger] half_of(d1) != #[trigger] half_of(d2),
        forall|h: SHalf|
            0 <= #[trigger] draw_for_half(h) < 2 && half_of(draw_for_half(h)) == h,
        forall|d1: int, d2: int|
            0 <= d1 < 4 && 0 <= d2 < 4 && d1 != d2 ==> #[trigger] quadrant_of(d1) != #[trigger] quadrant_of(d2),
        forall|q: Quadrant|
            0 <= #[trigger] draw_for_quadrant(q) < 4 && quadrant_of(draw_for_quadrant(q)) == q,
{
}

} // verus!
