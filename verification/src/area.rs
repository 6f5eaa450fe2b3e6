//! Placements that share no pixel of a page take up no more pixels than the
//! page has.

use vstd::prelude::*;
use vstd::set_lib::{lemma_len_subset, lemma_set_disjoint_lens};
use crate::geometry::{apart, Extent, Placement};

verus! {

/// The pixels of the box `[x, y]..[x + width, y + height]`.
pub open spec fn box_cells(x: int, y: int, width: int, height: int) -> Set<(int, int)> {
    Set::new(|c: (int, int)| x <= c.0 < x + width && y <= c.1 < y + height)
}

/// The pixels of a placement.
pub open spec fn cells(at: Placement) -> Set<(int, int)> {
    box_cells(at.x as int, at.y as int, at.width as int, at.height as int)
}

/// The pixels of the first `count` placements together.
pub open spec fn covered(slots: Seq<Placement>, count: nat) -> Set<(int, int)>
    decreases count,
{
    if count == 0 {
        Set::empty()
    } else {
        covered(slots, (count - 1) as nat) + cells(slots[count - 1])
    }
}

/// The pixel counts of the first `count` placements, added up.
pub open spec fn placed_area(slots: Seq<Placement>, count: nat) -> int
    decreases count,
{
    if count == 0 {
        0
    } else {
        placed_area(slots, (count - 1) as nat) + slots[count - 1].area()
    }
}

/// Every placement is on page 0 and within `size`, and no two share a pixel.
pub open spec fn tiled(slots: Seq<Placement>, size: Extent) -> bool {
    &&& forall|i: int|
        0 <= i < slots.len() ==> (#[trigger] slots[i]).page_index == 0 && slots[i].inside(size)
    &&& forall|i: int, j: int|
        0 <= i < j < slots.len() ==> apart(#[trigger] slots[i], #[trigger] slots[j])
}

proof fn lemma_row_cells(x: int, y: int, width: nat)
    ensures
        box_cells(x, y, width as int, 1).finite(),
        box_cells(x, y, width as int, 1).len() == width,
    decreases width,
{
    if width == 0 {
        assert(box_cells(x, y, 0, 1) =~= Set::empty());
    } else {
        lemma_row_cells(x, y, (width - 1) as nat);
        assert(box_cells(x, y, width as int, 1) =~= box_cells(x, y, width - 1, 1).insert(
            (x + width - 1, y),
        ));
    }
}

proof fn lemma_box_cells(x: int, y: int, width: nat, height: nat)
    ensures
        box_cells(x, y, width as int, height as int).finite(),
        box_cells(x, y, width as int, height as int).len() == width * height,
    decreases height,
{
    if height == 0 {
        assert(box_cells(x, y, width as int, 0) =~= Set::empty());
        assert(width * 0 == 0);
    } else {
        let below = box_cells(x, y, width as int, height - 1);
        let row = box_cells(x, y + height - 1, width as int, 1);
        lemma_box_cells(x, y, width, (height - 1) as nat);
        lemma_row_cells(x, y + height - 1, width);
        assert(box_cells(x, y, width as int, height as int) =~= below + row);
        assert(below.disjoint(row));
        lemma_set_disjoint_lens(below, row);
        assert(width * (height - 1) + width == width * height) by (nonlinear_arith);
    }
}

proof fn lemma_covered_by_some(slots: Seq<Placement>, count: nat, c: (int, int))
    requires
        covered(slots, count).contains(c),
    ensures
        exists|i: int| 0 <= i < count && (#[trigger] slots[i]).covers(c.0, c.1),
    decreases count,
{
    if count > 0 {
        if covered(slots, (count - 1) as nat).contains(c) {
            lemma_covered_by_some(slots, (count - 1) as nat, c);
        } else {
            assert(slots[count - 1].covers(c.0, c.1));
        }
    }
}

proof fn lemma_covered_area(slots: Seq<Placement>, size: Extent, count: nat)
    requires
        tiled(slots, size),
        count <= slots.len(),
    ensures
        covered(slots, count).finite(),
        covered(slots, count).len() == placed_area(slots, count),
        covered(slots, count).subset_of(
            box_cells(0, 0, size.width as int, size.height as int),
        ),
    decreases count,
{
    if count > 0 {
        let earlier = covered(slots, (count - 1) as nat);
        let last = slots[count - 1];
        lemma_covered_area(slots, size, (count - 1) as nat);
        lemma_box_cells(last.x as int, last.y as int, last.width as nat, last.height as nat);
        assert(earlier.disjoint(cells(last))) by {
            assert forall|c: (int, int)| earlier.contains(c) implies !cells(last).contains(c) by {
                lemma_covered_by_some(slots, (count - 1) as nat, c);
                let i = choose|i: int| 0 <= i < count - 1 && (#[trigger] slots[i]).covers(c.0, c.1);
                assert(apart(slots[i], slots[count - 1]));
            }
        }
        lemma_set_disjoint_lens(earlier, cells(last));
        assert(last.inside(size));
    }
}

/// Placements that tile a page have, together, no more pixels than the page.
pub proof fn lemma_tiled_area(slots: Seq<Placement>, size: Extent)
    requires
        tiled(slots, size),
    ensures
        placed_area(slots, slots.len()) <= size.area(),
{
    let page = box_cells(0, 0, size.width as int, size.height as int);
    lemma_covered_area(slots, size, slots.len());
    lemma_box_cells(0, 0, size.width as nat, size.height as nat);
    lemma_len_subset(covered(slots, slots.len()), page);
}

} // verus!
