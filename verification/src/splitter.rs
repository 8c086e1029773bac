//! Strategies that choose where a window is divided.

use vstd::prelude::*;
use crate::image_view::ImageView;
use crate::image_view::Region;
use crate::image_view::Window;
use crate::newton::MaxIterationsExceeded;
use crate::split::Split;
use crate::split::SplitDirection;
use crate::util::avg_color;
use crate::util::color_dist2;

verus! {

/// A strategy that chooses the split of a window.
///
/// A strategy is a function of what the window shows: asked twice about
/// the same region, it answers the same. It may fail to find a split.
pub trait Splitter {
    /// The answer of the strategy for `region`. Only contracts speak of it:
    /// a strategy written outside verified code gives it a body that nothing
    /// calls.
    spec fn chosen(region: Region) -> Result<Split, MaxIterationsExceeded>;

    /// Chooses the split of `view`.
    fn split(view: &Window) -> (choice: Result<Split, MaxIterationsExceeded>)
        ensures
            choice == Self::chosen(view.region()),
    ;
}

/// Divides a window in the middle of its longer side.
#[derive(Clone, Copy, Debug, Default)]
pub struct SplitInHalf;

impl SplitInHalf {
    /// The split of a window of `width` by `height` pixels: along its longer
    /// side, and along its width when both are equal, at half the extent
    /// rounded down. For an odd extent the first part is one pixel shorter
    /// than the second.
    pub open spec fn halved(width: u32, height: u32) -> Split {
        if width >= height {
            Split { dir: SplitDirection::Horiz, at: width / 2, size: width, size_orthogonal: height }
        } else {
            Split { dir: SplitDirection::Vert, at: height / 2, size: height, size_orthogonal: width }
        }
    }

    /// How often `n` has to be halved until one is left, when the larger
    /// half is kept each time.
    pub open spec fn halvings(n: nat) -> nat
        decreases n,
    {
        if n <= 1 {
            0
        } else {
            1 + Self::halvings((n - n / 2) as nat)
        }
    }

    /// A longer side takes no fewer halvings than a shorter one.
    pub proof fn lemma_halvings_monotone(a: nat, b: nat)
        requires
            a <= b,
        ensures
            Self::halvings(a) <= Self::halvings(b),
        decreases b,
    {
        if a > 1 {
            Self::lemma_halvings_monotone((a - a / 2) as nat, (b - b / 2) as nat);
        }
    }

    /// A side of no more than two to the power of `k` takes no more than `k`
    /// halvings.
    pub proof fn lemma_halvings_bound(n: nat, k: nat)
        requires
            n <= vstd::arithmetic::power2::pow2(k),
        ensures
            Self::halvings(n) <= k,
        decreases k,
    {
        vstd::arithmetic::power2::lemma2_to64();
        if n > 1 {
            if k == 0 {
            } else {
                vstd::arithmetic::power2::lemma_pow2_unfold(k);
                Self::lemma_halvings_bound((n - n / 2) as nat, (k - 1) as nat);
            }
        }
    }

    /// A window with a side of more than one pixel is divided into two parts
    /// that both have pixels if it has any itself.
    pub proof fn lemma_halved_divides(region: Region)
        requires
            region.width > 1 || region.height > 1,
        ensures
            Self::halved(region.width, region.height).extents() == (region.width, region.height),
            Self::halved(region.width, region.height).wf(),
            Self::halved(region.width, region.height).divides(region),
            Self::halved(region.width, region.height).size >= region.width,
            Self::halved(region.width, region.height).size >= region.height,
    {
    }
}

impl Splitter for SplitInHalf {
    open spec fn chosen(region: Region) -> Result<Split, MaxIterationsExceeded> {
        Ok(Self::halved(region.width, region.height))
    }

    fn split(view: &Window) -> (choice: Result<Split, MaxIterationsExceeded>) {
        let (w, h) = view.dimensions();
        if w >= h {
            Ok(Split { dir: SplitDirection::Horiz, at: w / 2, size: w, size_orthogonal: h })
        } else {
            Ok(Split { dir: SplitDirection::Vert, at: h / 2, size: h, size_orthogonal: w })
        }
    }
}

/// Divides a window along its longer side where a root search on the color
/// difference between the two parts leads.
///
/// The search works on real numbers and is the caller's to run. Here stand
/// the parts of the strategy that do not: the choice of the axis, the
/// function whose root is searched, taken at a whole cut, and the split for
/// the cut that the search has found.
#[derive(Clone, Copy, Debug, Default)]
pub struct MaximalColorDifferenceSplitter;

impl MaximalColorDifferenceSplitter {
    /// The split of a window of `width` by `height` pixels at the cut `at`:
    /// along its width when that is the longer side, else along its height.
    pub open spec fn cut(width: u32, height: u32, at: u32) -> Split {
        if width > height {
            Split { dir: SplitDirection::Horiz, at, size: width, size_orthogonal: height }
        } else {
            Split { dir: SplitDirection::Vert, at, size: height, size_orthogonal: width }
        }
    }

    /// The squared distance between the mean colors of the two parts into
    /// which the cut `at` divides `region`. There is none when the cut lies
    /// beyond the region or leaves one part without pixels.
    pub open spec fn separation(region: Region, at: u32) -> Option<u32> {
        let split = Self::cut(region.width, region.height, at);
        if !split.fits(region) {
            None
        } else {
            match (split.first(region).mean(), split.second(region).mean()) {
                (Some(a), Some(b)) => Some(a.distance2(b) as u32),
                _ => None,
            }
        }
    }

    /// The split of `view` along its longer side, with the cut still at the
    /// near edge.
    pub fn frame(view: &Window) -> (split: Split)
        ensures
            split == Self::cut(view.region().width, view.region().height, 0),
    {
        Self::split_at(view, 0)
    }

    /// The split of `view` along its longer side at the cut `at`.
    pub fn split_at(view: &Window, at: u32) -> (split: Split)
        ensures
            split == Self::cut(view.region().width, view.region().height, at),
    {
        let (w, h) = view.dimensions();
        if w > h {
            Split { dir: SplitDirection::Horiz, at, size: w, size_orthogonal: h }
        } else {
            Split { dir: SplitDirection::Vert, at, size: h, size_orthogonal: w }
        }
    }

    /// The function whose root the strategy searches, at the cut `at`: the
    /// squared distance between the mean colors of the two parts into which
    /// `view` is divided there. `None` when the cut lies beyond the window or
    /// leaves one part without pixels.
    pub fn objective(view: &Window, at: u32) -> (d: Option<u32>)
        ensures
            d == Self::separation(view.region(), at),
    {
        let split = Self::split_at(view, at);
        if at > split.size {
            return None;
        }
        let (first, second) = split.split(view);
        match (avg_color(&first), avg_color(&second)) {
            (Some(a), Some(b)) => Some(color_dist2(a, b)),
            _ => None,
        }
    }
}

} // verus!
