//! Plain geometry: page extents, region rectangles and packer placements.

use vstd::prelude::*;

verus! {

/// Width and height of a page or an image, in pixels.
#[derive(Clone, Copy, Debug, PartialEq, Eq, Structural)]
pub struct Extent {
    pub width: u32,
    pub height: u32,
}

impl Extent {
    /// Number of pixels of a page of this extent.
    pub open spec fn area(self) -> int {
        self.width * self.height
    }
}

/// Axis-aligned box in page-local pixel coordinates; `min` is inclusive and
/// `max` exclusive.
#[derive(Clone, Copy, Debug, PartialEq, Eq, Structural)]
pub struct Rect {
    pub min_x: u32,
    pub min_y: u32,
    pub max_x: u32,
    pub max_y: u32,
}

impl Rect {
    /// The pixel in column `cx` and row `cy` lies in the rectangle.
    pub open spec fn holds(self, cx: int, cy: int) -> bool {
        self.min_x <= cx < self.max_x && self.min_y <= cy < self.max_y
    }

    /// The rectangle lies within `[0, 0]..[width, height]` of a page of the
    /// given extent.
    pub open spec fn within(self, page: Extent) -> bool {
        self.min_x <= self.max_x <= page.width && self.min_y <= self.max_y <= page.height
    }
}

/// Where the packer put one request: the page and the rectangle in it.
/// `request` is the position of the request in the builder's queue.
#[derive(Clone, Copy, Debug, PartialEq, Eq, Structural)]
pub struct Placement {
    pub request: usize,
    pub page_index: usize,
    pub x: u32,
    pub y: u32,
    pub width: u32,
    pub height: u32,
}

impl Placement {
    /// A placement of the given fields.
    pub fn new(request: usize, page_index: usize, x: u32, y: u32, width: u32, height: u32) -> (at:
        Placement)
        ensures
            at == (Placement { request, page_index, x, y, width, height }),
    {
        Placement { request, page_index, x, y, width, height }
    }

    /// The placement lies within a page of the given extent.
    pub open spec fn inside(self, page: Extent) -> bool {
        self.x + self.width <= page.width && self.y + self.height <= page.height
    }

    /// The pixel in column `cx` and row `cy` belongs to the placement.
    pub open spec fn covers(self, cx: int, cy: int) -> bool {
        self.x <= cx < self.x + self.width && self.y <= cy < self.y + self.height
    }

    /// Number of pixels of the placement.
    pub open spec fn area(self) -> int {
        self.width * self.height
    }

    /// The rectangle the placement occupies: `[x, y]..[x + width, y + height]`.
    pub open spec fn rect(self) -> Rect
        recommends
            self.x + self.width <= u32::MAX,
            self.y + self.height <= u32::MAX,
    {
        Rect {
            min_x: self.x,
            min_y: self.y,
            max_x: (self.x + self.width) as u32,
            max_y: (self.y + self.height) as u32,
        }
    }
}

/// Two placements share no pixel of a common page.
pub open spec fn apart(a: Placement, b: Placement) -> bool {
    a.page_index == b.page_index ==> forall|cx: int, cy: int|
        !(#[trigger] a.covers(cx, cy) && b.covers(cx, cy))
}

} // verus!
