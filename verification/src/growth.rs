//! The sequence of page sizes that packing is attempted at.

use vstd::prelude::*;
use vstd::arithmetic::power2::{lemma2_to64, lemma_pow2_unfold, pow2};
use crate::geometry::Extent;

verus! {

/// One side after a growth step: doubled, but no more than `max`.
pub open spec fn grown_side(cur: u32, max: u32) -> u32 {
    if 2 * cur <= max {
        (2 * cur) as u32
    } else {
        max
    }
}

/// The page size that follows `cur`: both sides doubled, each clamped to `max`
/// on its own.
pub open spec fn grown(cur: Extent, max: Extent) -> Extent {
    Extent {
        width: grown_side(cur.width, max.width),
        height: grown_side(cur.height, max.height),
    }
}

/// The page size of attempt `k`: `initial`, then `k` growth steps.
pub open spec fn attempt_size(initial: Extent, max: Extent, k: nat) -> Extent
    decreases k,
{
    if k == 0 {
        initial
    } else {
        grown(attempt_size(initial, max, (k - 1) as nat), max)
    }
}

/// A size within `max` on both sides.
pub open spec fn within(size: Extent, max: Extent) -> bool {
    size.width <= max.width && size.height <= max.height
}

/// What is left to grow, for a size within `max`.
pub open spec fn headroom(size: Extent, max: Extent) -> int {
    (max.width - size.width) + (max.height - size.height)
}

fn grow_side(cur: u32, max: u32) -> (next: u32)
    ensures
        next == grown_side(cur, max),
{
    if cur <= max / 2 {
        2 * cur
    } else {
        max
    }
}

/// Doubles both sides of `cur`, clamping each to `max`.
pub fn grow(cur: Extent, max: Extent) -> (next: Extent)
    ensures
        next == grown(cur, max),
        within(next, max),
        within(cur, max) && next != cur ==> within(cur, next) && headroom(next, max) < headroom(
            cur,
            max,
        ),
{
    Extent { width: grow_side(cur.width, max.width), height: grow_side(cur.height, max.height) }
}

/// Every attempt after the first is within `max`.
pub proof fn lemma_attempts_within(initial: Extent, max: Extent, k: nat)
    requires
        k >= 1,
    ensures
        within(attempt_size(initial, max, k), max),
{
}

/// Once a growth step changes nothing, no later attempt differs.
pub proof fn lemma_stalled(initial: Extent, max: Extent, k: nat, j: nat)
    requires
        grown(attempt_size(initial, max, k), max) == attempt_size(initial, max, k),
        j >= k,
    ensures
        attempt_size(initial, max, j) == attempt_size(initial, max, k),
    decreases j,
{
    if j > k {
        lemma_stalled(initial, max, k, (j - 1) as nat);
    }
}

/// One side of the page at attempt `k`.
pub open spec fn side_at(initial: u32, max: u32, k: nat) -> u32
    decreases k,
{
    if k == 0 {
        initial
    } else {
        grown_side(side_at(initial, max, (k - 1) as nat), max)
    }
}

proof fn lemma_attempt_sides(initial: Extent, max: Extent, k: nat)
    ensures
        attempt_size(initial, max, k).width == side_at(initial.width, max.width, k),
        attempt_size(initial, max, k).height == side_at(initial.height, max.height, k),
    decreases k,
{
    if k > 0 {
        lemma_attempt_sides(initial, max, (k - 1) as nat);
    }
}

/// After `k` growth steps a side is at the maximum, or `2^k` times what it
/// was at first.
proof fn lemma_side_doubles(initial: u32, max: u32, k: nat)
    requires
        k >= 1,
    ensures
        side_at(initial, max, k) == max || side_at(initial, max, k) == pow2(k) * initial,
    decreases k,
{
    lemma_pow2_unfold(k);
    if k == 1 {
        lemma2_to64();
        assert(side_at(initial, max, 0) == initial);
    } else {
        lemma_side_doubles(initial, max, (k - 1) as nat);
        let before = side_at(initial, max, (k - 1) as nat);
        if before != max {
            assert(2 * (pow2((k - 1) as nat) * initial) == (2 * pow2((k - 1) as nat)) * initial)
                by (nonlinear_arith);
        }
    }
}

/// After 32 growth steps the page grows no more: a side that is not at the
/// maximum by then is zero.
pub proof fn lemma_growth_settles(initial: Extent, max: Extent)
    ensures
        grown(attempt_size(initial, max, 32), max) == attempt_size(initial, max, 32),
{
    lemma2_to64();
    lemma_attempt_sides(initial, max, 32);
    lemma_side_doubles(initial.width, max.width, 32);
    lemma_side_doubles(initial.height, max.height, 32);
    assert(pow2(32) * initial.width <= u32::MAX ==> initial.width == 0) by (nonlinear_arith)
        requires
            pow2(32) == 0x100000000,
    ;
    assert(pow2(32) * initial.height <= u32::MAX ==> initial.height == 0) by (nonlinear_arith)
        requires
            pow2(32) == 0x100000000,
    ;
}

/// A page within `max` on both sides has no more pixels than `max`.
pub proof fn lemma_area_within(size: Extent, max: Extent)
    requires
        within(size, max),
    ensures
        size.area() <= max.area(),
        forall|pixel: nat| #[trigger] (size.area() * pixel) <= max.area() * pixel,
{
    assert(size.width * size.height <= max.width * max.height) by (nonlinear_arith)
        requires
            0 <= size.width <= max.width,
            0 <= size.height <= max.height,
    ;
    assert forall|pixel: nat| #[trigger] (size.area() * pixel) <= max.area() * pixel by {
        assert(size.area() * pixel <= max.area() * pixel) by (nonlinear_arith)
            requires
                size.area() <= max.area(),
                0 <= pixel,
        ;
    }
}

} // verus!
