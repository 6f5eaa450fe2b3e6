//! The boundary to the rectangle packer, and what the builder makes of its
//! answer. The packer decides where rectangles go; nothing here second-guesses
//! its heuristics.

use vstd::prelude::*;
use std::collections::BTreeMap;
use std::fmt::Debug;
use std::hash::Hash;
use rectangle_pack::{
    contains_smallest_box, pack_rects, volume_heuristic, GroupedRectsToPlace, RectToInsert,
    RectanglePackError, TargetBin,
};
use crate::geometry::{apart, Extent, Placement};

verus! {

/// `rectangle_pack::GroupedRectsToPlace`, the packer's queue of rectangles.
/// Nothing is known of a value but what the items below state.
#[verifier::external_type_specification]
#[verifier::external_body]
#[verifier::reject_recursive_types(RectToPlaceId)]
#[verifier::reject_recursive_types(GroupId)]
pub struct ExGroupedRectsToPlace<RectToPlaceId, GroupId>(
    GroupedRectsToPlace<RectToPlaceId, GroupId>,
) where
    RectToPlaceId: Debug + Hash + Eq + Ord + PartialOrd,
    GroupId: Debug + Hash + Eq + Ord + PartialOrd;

/// What a queue holds: for each request index, the width and height queued
/// under it. The library queues every rectangle on its own, outside any
/// group, with depth 1.
pub uninterp spec fn queued_rects(queue: GroupedRectsToPlace<usize, ()>) -> Map<usize, (u32, u32)>;

/// The packer's answer for given rectangles and pages: the placements, or
/// `None` where it reports that the pages have not enough room.
pub uninterp spec fn packed_layout(rects: Map<usize, (u32, u32)>, pages: Seq<Extent>) -> Option<
    Set<Placement>,
>;

/// Some placement in `placed` is for `request`.
pub open spec fn places(placed: Seq<Placement>, request: usize) -> bool {
    exists|j: int| 0 <= j < placed.len() && (#[trigger] placed[j]).request == request
}

/// `placed` is a layout of `rects` on `pages`: every rectangle is placed,
/// exactly once, with its own width and height, within the page it is
/// assigned to, and no two placements share a pixel.
pub open spec fn sound_layout(
    rects: Map<usize, (u32, u32)>,
    pages: Seq<Extent>,
    placed: Seq<Placement>,
) -> bool {
    &&& forall|request: usize| #[trigger]
        rects.contains_key(request) ==> places(placed, request)
    &&& forall|j: int|
        0 <= j < placed.len() ==> {
            let p = #[trigger] placed[j];
            &&& rects.contains_key(p.request)
            &&& rects[p.request] == (p.width, p.height)
            &&& p.page_index < pages.len()
            &&& p.inside(pages[p.page_index as int])
        }
    &&& forall|i: int, j: int|
        0 <= i < j < placed.len() ==> (#[trigger] placed[i]).request != (
        #[trigger] placed[j]).request
    &&& forall|i: int, j: int|
        0 <= i < j < placed.len() ==> apart(#[trigger] placed[i], #[trigger] placed[j])
}

/// `GroupedRectsToPlace::new`: a queue that holds nothing.
#[verifier::external_body]
pub(crate) fn new_queue() -> (queue: GroupedRectsToPlace<usize, ()>)
    ensures
        queued_rects(queue) == (Map::<usize, (u32, u32)>::empty()),
{
    GroupedRectsToPlace::new()
}

/// `GroupedRectsToPlace::push_rect` with no group and a `RectToInsert` of
/// depth 1: the rectangle is queued under `request`, in place of what was
/// queued under that index before.
#[verifier::external_body]
pub(crate) fn queue_rect(
    queue: &mut GroupedRectsToPlace<usize, ()>,
    request: usize,
    width: u32,
    height: u32,
)
    ensures
        queued_rects(*final(queue)) == queued_rects(*old(queue)).insert(request, (width, height)),
{
    queue.push_rect(request, None, RectToInsert::new(width, height, 1));
}

/// `rectangle_pack::pack_rects` with `volume_heuristic` and
/// `contains_smallest_box`, on one fresh `TargetBin` of depth 1 per page,
/// keyed by the page's index. The packer is deterministic, so its answer has
/// a name. It gives up as soon as a rectangle finds no room. Otherwise it
/// has put every rectangle of the queue, once and with its own width and
/// height, at the origin of a free section of a bin that is as large as the
/// rectangle or larger, and has split the rest of that section into free
/// sections that meet neither the rectangle nor each other: the answer is a
/// sound layout. The placements come in no promised order.
#[verifier::external_body]
pub(crate) fn pack_queue(queue: &GroupedRectsToPlace<usize, ()>, pages: &Vec<Extent>) -> (packed:
    Option<Vec<Placement>>)
    ensures
        packed matches Some(placed) ==> packed_layout(queued_rects(*queue), pages@) == Some(
            placed@.to_set(),
        ) && sound_layout(queued_rects(*queue), pages@, placed@),
        packed is None ==> packed_layout(queued_rects(*queue), pages@) is None,
{
    let mut bins: BTreeMap<usize, TargetBin> = pages.iter().enumerate().map(
        |(index, page)| (index, TargetBin::new(page.width, page.height, 1)),
    ).collect();
    match pack_rects(queue, &mut bins, &volume_heuristic, &contains_smallest_box) {
        Ok(packed) => Some(
            packed.packed_locations().iter().map(
                |(request, (page, at))|
                    Placement::new(*request, *page, at.x(), at.y(), at.width(), at.height()),
            ).collect(),
        ),
        Err(RectanglePackError::NotEnoughBinSpace) => None,
    }
}

/// Every request below `count` has exactly one placement, and there is no
/// placement for any other request.
pub open spec fn one_per_request(placed: Seq<Placement>, count: nat) -> bool {
    &&& forall|request: usize| request < count ==> #[trigger] places(placed, request)
    &&& forall|j: int| 0 <= j < placed.len() ==> (#[trigger] placed[j]).request < count
    &&& forall|i: int, j: int|
        0 <= i < j < placed.len() ==> (#[trigger] placed[i]).request != (
        #[trigger] placed[j]).request
}

/// The placement of a layout that is for `request`.
pub open spec fn slot_for(layout: Set<Placement>, request: usize) -> Placement {
    choose|at: Placement| layout.contains(at) && at.request == request
}

/// The placements of a layout in the order of the requests they are for.
pub open spec fn arranged(layout: Set<Placement>, count: nat) -> Seq<Placement> {
    Seq::new(count, |i: int| slot_for(layout, i as usize))
}

/// Orders the packer's placements by the request each is for.
pub fn arrange(placed: &Vec<Placement>, count: usize) -> (slots: Vec<Placement>)
    requires
        one_per_request(placed@, count as nat),
    ensures
        slots@ == arranged(placed@.to_set(), count as nat),
        forall|i: int|
            0 <= i < count ==> placed@.contains(#[trigger] slots@[i]) && slots@[i].request == i,
{
    let blank = Placement::new(0, 0, 0, 0, 0, 0);
    let mut slots: Vec<Placement> = vec![blank; count];
    let mut j: usize = 0;
    while j < placed.len()
        invariant
            j <= placed.len(),
            slots.len() == count,
            one_per_request(placed@, count as nat),
            forall|i: int| 0 <= i < j ==> slots[(#[trigger] placed[i]).request as int] == placed[i],
        decreases placed.len() - j,
    {
        let p = placed[j];
        slots.set(p.request, p);
        j += 1;
    }
    assert forall|i: int| 0 <= i < count implies placed@.contains(#[trigger] slots@[i])
        && slots@[i].request == i && slots@[i] == arranged(placed@.to_set(), count as nat)[i] by {
        assert(places(placed@, i as usize));
        let at = choose|at: int|
            0 <= at < placed.len() && (#[trigger] placed[at]).request == i as usize;
        assert(slots[placed[at].request as int] == placed[at]);
        let chosen = slot_for(placed@.to_set(), i as usize);
        assert(placed@.to_set().contains(placed[at]));
        assert(placed@.to_set().contains(chosen) && chosen.request == i as usize);
        let other = choose|other: int| 0 <= other < placed.len() && placed[other] == chosen;
        assert(other == at);
    }
    assert(slots@ =~= arranged(placed@.to_set(), count as nat));
    slots
}

} // verus!
