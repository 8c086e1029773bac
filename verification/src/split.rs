//! How a window is divided in two.

use vstd::prelude::*;
use crate::image_view::ImageView;
use crate::image_view::Region;
use crate::image_view::Window;

verus! {

/// The axis along which a window is divided.
#[derive(Clone, Copy, Debug, PartialEq, Eq, Structural, Hash)]
pub enum SplitDirection {
    /// The cut runs between two columns: the parts lie side by side.
    Horiz,
    /// The cut runs between two rows: one part lies above the other.
    Vert,
}

impl SplitDirection {
    /// The extent of a region along this axis: its width for `Horiz`, its
    /// height for `Vert`.
    pub open spec fn extent(self, region: Region) -> u32 {
        match self {
            SplitDirection::Horiz => region.width,
            SplitDirection::Vert => region.height,
        }
    }
}

/// Where a window was divided: the axis, the position of the cut along it,
/// the extent of the window along the axis and its extent across it.
#[derive(Clone, Copy, Debug, PartialEq, Eq, Structural, Hash)]
pub struct Split {
    pub dir: SplitDirection,
    pub at: u32,
    pub size: u32,
    pub size_orthogonal: u32,
}

impl Split {
    /// The cut lies strictly inside the extent, so that neither part is empty
    /// along the axis.
    pub open spec fn wf(self) -> bool {
        0 < self.at < self.size
    }

    /// The width and the height of the window that was divided.
    pub open spec fn extents(self) -> (u32, u32) {
        match self.dir {
            SplitDirection::Horiz => (self.size, self.size_orthogonal),
            SplitDirection::Vert => (self.size_orthogonal, self.size),
        }
    }

    /// The split is one of `region`: its cut lies strictly inside, and its
    /// extents are those of the region.
    pub open spec fn divides(self, region: Region) -> bool {
        self.wf() && self.extents() == (region.width, region.height)
    }

    /// The cut does not lie beyond the far edge of `region`.
    pub open spec fn fits(self, region: Region) -> bool {
        self.at <= self.dir.extent(region)
    }

    /// The part of `region` before the cut: left of it or above it.
    pub open spec fn first(self, region: Region) -> Region {
        match self.dir {
            SplitDirection::Horiz => region.sub(0, 0, self.at, region.height),
            SplitDirection::Vert => region.sub(0, 0, region.width, self.at),
        }
    }

    /// The part of `region` from the cut on: right of it or below it.
    pub open spec fn second(self, region: Region) -> Region {
        match self.dir {
            SplitDirection::Horiz => region.sub(
                self.at,
                0,
                (region.width - self.at) as u32,
                region.height,
            ),
            SplitDirection::Vert => region.sub(
                0,
                self.at,
                region.width,
                (region.height - self.at) as u32,
            ),
        }
    }

    /// Divides `view` at the cut: the window before the cut, then the window
    /// from the cut on. The extents that the split records are not consulted,
    /// only its axis and its cut.
    pub fn split<'a>(&self, view: &Window<'a>) -> (parts: (Window<'a>, Window<'a>))
        requires
            self.fits(view.region()),
        ensures
            parts.0.region() == self.first(view.region()),
            parts.1.region() == self.second(view.region()),
            parts.0.region().wf(),
            parts.1.region().wf(),
    {
        let (w, h) = view.dimensions();
        let (first, second) = match self.dir {
            SplitDirection::Horiz => (view.view(0, 0, self.at, h), view.view(self.at, 0, w - self.at, h)),
            SplitDirection::Vert => (view.view(0, 0, w, self.at), view.view(0, self.at, w, h - self.at)),
        };
        (first.unwrap(), second.unwrap())
    }

    /// The width and the height of the window that was divided.
    pub fn dimensions(&self) -> (d: (u32, u32))
        ensures
            d == self.extents(),
    {
        match self.dir {
            SplitDirection::Horiz => (self.size, self.size_orthogonal),
            SplitDirection::Vert => (self.size_orthogonal, self.size),
        }
    }

    /// The two parts of a divided region lie inside it, share no pixel, leave
    /// no pixel of it out, and their areas add up to its area. Side by side
    /// they have the region's height and widths that add up to its width;
    /// one above the other, its width and heights that add up to its height.
    pub proof fn lemma_split_partitions(self, region: Region)
        requires
            region.wf(),
            self.fits(region),
        ensures
            self.first(region).wf(),
            self.second(region).wf(),
            self.first(region).area() + self.second(region).area() == region.area(),
            forall|px: int, py: int|
                !(self.first(region).covers(px, py) && self.second(region).covers(px, py)),
            forall|px: int, py: int|
                region.covers(px, py) <==> self.first(region).covers(px, py) || self.second(
                    region,
                ).covers(px, py),
            self.dir == SplitDirection::Horiz ==> {
                &&& self.first(region).height == region.height
                &&& self.second(region).height == region.height
                &&& self.first(region).width + self.second(region).width == region.width
            },
            self.dir == SplitDirection::Vert ==> {
                &&& self.first(region).width == region.width
                &&& self.second(region).width == region.width
                &&& self.first(region).height + self.second(region).height == region.height
            },
    {
        let w = region.width as int;
        let h = region.height as int;
        let at = self.at as int;
        match self.dir {
            SplitDirection::Horiz => {
                assert(at * h + (w - at) * h == w * h) by (nonlinear_arith);
                assert(0 <= at * h && 0 <= (w - at) * h) by (nonlinear_arith)
                    requires
                        0 <= at <= w,
                        0 <= h,
                ;
            },
            SplitDirection::Vert => {
                assert(w * at + w * (h - at) == w * h) by (nonlinear_arith);
                assert(0 <= w * at && 0 <= w * (h - at)) by (nonlinear_arith)
                    requires
                        0 <= at <= h,
                        0 <= w,
                ;
            },
        }
    }
}

} // verus!
