//! Binary partition trees of raster images.
//!
//! A tree is built over a window of an image: every node carries the mean
//! color of its region, and every inner node the split that divides its
//! region between its two children. [`Node::new`] builds the tree with a
//! [`splitter::Splitter`], and [`Node::fold`] and [`Node::fold_while`] reduce
//! it from the leaves up.

use vstd::prelude::*;

pub mod color;
pub mod image_view;
pub mod newton;
pub mod split;
pub mod splitter;
pub mod util;

use crate::color::Color;
use crate::image_view::ImageView;
use crate::image_view::Region;
use crate::image_view::Window;
use crate::split::Split;
use crate::splitter::SplitInHalf;
use crate::splitter::Splitter;
use crate::util::avg_color;

verus! {

/// What a step of `fold_while` says: go on with this value, or stop the
/// whole fold and return it.
#[derive(Copy, Clone, Debug)]
pub enum FoldWhile<T> {
    /// The fold goes on, with this value.
    Continue(T),
    /// The fold is over, and this value is its result.
    Done(T),
}

impl<T> FoldWhile<T> {
    /// The value that is carried, whichever the variant.
    pub open spec fn value(self) -> T {
        match self {
            FoldWhile::Continue(x) => x,
            FoldWhile::Done(x) => x,
        }
    }

    /// The variant is `Done`.
    pub open spec fn done(self) -> bool {
        self is Done
    }

    /// The value that is carried, whichever the variant.
    pub fn into_inner(self) -> (x: T)
        ensures
            x == self.value(),
    {
        match self {
            FoldWhile::Continue(x) => x,
            FoldWhile::Done(x) => x,
        }
    }

    /// Whether the fold is over: true for `Done`, false for `Continue`.
    pub fn is_done(&self) -> (b: bool)
        ensures
            b == self.done(),
    {
        match *self {
            FoldWhile::Continue(_) => false,
            FoldWhile::Done(_) => true,
        }
    }
}

/// Why no tree was built.
#[derive(Clone, Copy, Debug, PartialEq, Eq, Structural, Hash)]
pub enum BuildError {
    /// A region without pixels was to be given a color.
    EmptyRegion,
    /// The strategy chose a split that is not one of the region it was asked
    /// about: the cut does not lie strictly inside, or the extents differ.
    InvalidSplit,
    /// The strategy's search for a split did not converge.
    MaxIterationsExceeded,
}

/// A node of a partition tree: the mean color of a region and, unless the
/// node is a leaf, the two parts of the region.
#[derive(Debug, PartialEq, Eq)]
pub struct Node {
    pub color: Color,
    pub child: Option<Box<NodeChild>>,
}

/// The two subtrees of an inner node and the split between their regions:
/// `a` is the part before the cut, `b` the part from the cut on.
#[derive(Debug, PartialEq, Eq)]
pub struct NodeChild {
    pub a: Node,
    pub b: Node,
    pub split: Split,
}

impl Node {
    /// The leaf of color `color`.
    pub open spec fn leaf(color: Color) -> Node {
        Node { color, child: None }
    }

    /// The inner node of color `color` over the subtrees `a` and `b`.
    pub open spec fn branch(color: Color, a: Node, b: Node, split: Split) -> Node {
        Node { color, child: Some(Box::new(NodeChild { a, b, split })) }
    }

    /// The number of leaves of the tree.
    pub open spec fn leaves(self) -> nat
        decreases self,
    {
        match self.child {
            None => 1,
            Some(child) => child.a.leaves() + child.b.leaves(),
        }
    }

    /// The number of nodes on the longest path from the root to a leaf, the
    /// root not counted.
    pub open spec fn depth(self) -> nat
        decreases self,
    {
        match self.child {
            None => 0,
            Some(child) => 1 + if child.a.depth() >= child.b.depth() {
                child.a.depth()
            } else {
                child.b.depth()
            },
        }
    }

    /// The tree of `region` under the strategy `S`, or the reason why there
    /// is none.
    ///
    /// A region without pixels has no tree. A region of one pixel is a leaf.
    /// Any other region is divided as the strategy chooses, and its node
    /// stands over the trees of the two parts; the first failure, of the
    /// strategy or in a part, is the failure of the whole. Every node has
    /// the mean color of its region.
    pub open spec fn tree_of<S: Splitter>(region: Region) -> Result<Node, BuildError>
        decreases region.width + region.height,
    {
        match region.mean() {
            None => Err(BuildError::EmptyRegion),
            Some(color) => if region.width <= 1 && region.height <= 1 {
                Ok(Node::leaf(color))
            } else {
                match S::chosen(region) {
                    Err(_) => Err(BuildError::MaxIterationsExceeded),
                    Ok(split) => if !split.divides(region) {
                        Err(BuildError::InvalidSplit)
                    } else {
                        match Node::tree_of::<S>(split.first(region)) {
                            Err(e) => Err(e),
                            Ok(a) => match Node::tree_of::<S>(split.second(region)) {
                                Err(e) => Err(e),
                                Ok(b) => Ok(Node::branch(color, a, b, split)),
                            },
                        }
                    },
                }
            },
        }
    }

    /// Builds the partition tree of `view` with the strategy `S`.
    pub fn new<S: Splitter>(view: &Window) -> (tree: Result<Node, BuildError>)
        ensures
            tree == Node::tree_of::<S>(view.region()),
        decreases view.region().width + view.region().height,
    {
        let color = match avg_color(view) {
            Some(color) => color,
            None => {
                return Err(BuildError::EmptyRegion);
            },
        };
        let (w, h) = view.dimensions();
        if w <= 1 && h <= 1 {
            return Ok(Node { color, child: None });
        }
        let split = match S::split(view) {
            Ok(split) => split,
            Err(_) => {
                return Err(BuildError::MaxIterationsExceeded);
            },
        };
        let (sw, sh) = split.dimensions();
        if split.at == 0 || split.at >= split.size || sw != w || sh != h {
            return Err(BuildError::InvalidSplit);
        }
        let (first, second) = split.split(view);
        let a = match Node::new::<S>(&first) {
            Ok(a) => a,
            Err(e) => {
                return Err(e);
            },
        };
        let b = match Node::new::<S>(&second) {
            Ok(b) => b,
            Err(e) => {
                return Err(e);
            },
        };
        Ok(Node { color, child: Some(Box::new(NodeChild { a, b, split })) })
    }
}

impl Node {
    /// A region has a mean color exactly when it has pixels.
    pub proof fn lemma_mean_exists(region: Region)
        ensures
            region.mean().is_some() <==> !region.is_empty(),
            region.is_empty() <==> region.area() == 0,
    {
        let w = region.width as int;
        let h = region.height as int;
        assert((w == 0 || h == 0) <==> w * h == 0) by (nonlinear_arith)
            requires
                0 <= w,
                0 <= h,
        ;
    }

    /// The tree of a region of one pixel is a leaf of the color of that
    /// pixel, whatever the strategy.
    pub proof fn lemma_single_pixel<S: Splitter>(region: Region)
        requires
            region.width == 1,
            region.height == 1,
        ensures
            Node::tree_of::<S>(region) == Ok::<Node, BuildError>(
                Node::leaf(region.color_at(0, 0)),
            ),
    {
        assert(region.pixels() =~= seq![region.color_at(0, 0)]);
        Color::lemma_mean_single(region.color_at(0, 0));
    }

    /// A tree has one leaf for every pixel of its region, whatever the
    /// strategy that built it.
    pub proof fn lemma_leaves<S: Splitter>(region: Region)
        requires
            region.wf(),
            Node::tree_of::<S>(region) is Ok,
        ensures
            Node::tree_of::<S>(region)->Ok_0.leaves() == region.area(),
        decreases region.width + region.height,
    {
        Self::lemma_mean_exists(region);
        if region.width <= 1 && region.height <= 1 {
            assert(region.width == 1 && region.height == 1);
            assert(region.width * region.height == 1) by (nonlinear_arith)
                requires
                    region.width == 1,
                    region.height == 1,
            ;
        } else {
            let split = S::chosen(region)->Ok_0;
            split.lemma_split_partitions(region);
            Self::lemma_leaves::<S>(split.first(region));
            Self::lemma_leaves::<S>(split.second(region));
        }
    }

    /// Halving builds a tree for every region that has pixels, and that tree
    /// has one leaf for every pixel.
    pub proof fn lemma_halving_builds(region: Region)
        requires
            region.wf(),
            !region.is_empty(),
        ensures
            Node::tree_of::<SplitInHalf>(region) is Ok,
            Node::tree_of::<SplitInHalf>(region)->Ok_0.leaves() == region.area(),
        decreases region.width + region.height,
    {
        Self::lemma_mean_exists(region);
        if region.width <= 1 && region.height <= 1 {
        } else {
            let split = SplitInHalf::halved(region.width, region.height);
            SplitInHalf::lemma_halved_divides(region);
            split.lemma_split_partitions(region);
            Self::lemma_halving_builds(split.first(region));
            Self::lemma_halving_builds(split.second(region));
        }
        Self::lemma_leaves::<SplitInHalf>(region);
    }

    /// The tree that halving builds is as deep as its region's width and
    /// height take halvings together, which is never more than 64.
    pub proof fn lemma_halving_depth(region: Region)
        requires
            region.wf(),
            !region.is_empty(),
        ensures
            Node::tree_of::<SplitInHalf>(region) is Ok,
            Node::tree_of::<SplitInHalf>(region)->Ok_0.depth() == SplitInHalf::halvings(
                region.width as nat,
            ) + SplitInHalf::halvings(region.height as nat),
            Node::tree_of::<SplitInHalf>(region)->Ok_0.depth() <= 64,
        decreases region.width + region.height,
    {
        let w = region.width as nat;
        let h = region.height as nat;
        Self::lemma_mean_exists(region);
        Self::lemma_halving_builds(region);
        if region.width <= 1 && region.height <= 1 {
        } else {
            let split = SplitInHalf::halved(region.width, region.height);
            SplitInHalf::lemma_halved_divides(region);
            split.lemma_split_partitions(region);
            Self::lemma_halving_depth(split.first(region));
            Self::lemma_halving_depth(split.second(region));
            if region.width >= region.height {
                SplitInHalf::lemma_halvings_monotone(w / 2, (w - w / 2) as nat);
            } else {
                SplitInHalf::lemma_halvings_monotone(h / 2, (h - h / 2) as nat);
            }
        }
        vstd::arithmetic::power2::lemma2_to64();
        SplitInHalf::lemma_halvings_bound(w, 32);
        SplitInHalf::lemma_halvings_bound(h, 32);
    }

    /// A fold of this tree with `f` that can stop early may return `out`.
    ///
    /// A leaf returns what `f` makes of it alone. An inner node folds its
    /// first subtree; if that is done, so is the node, with the same value,
    /// and the second subtree is not visited. Else it folds the second
    /// subtree, and is done with it in the same way. Else it returns what `f`
    /// makes of the node and the two values.
    pub open spec fn folds_to<T, F: Fn(&Node, Option<(T, T)>) -> FoldWhile<T>>(
        &self,
        f: &F,
        out: FoldWhile<T>,
    ) -> bool
        decreases self,
    {
        match self.child {
            None => call_ensures(*f, (self, None::<(T, T)>), out),
            Some(child) => exists|ra: FoldWhile<T>|
                #![trigger ra.done()]
                child.a.folds_to(f, ra) && if ra.done() {
                    out == ra
                } else {
                    exists|rb: FoldWhile<T>|
                        #![trigger rb.done()]
                        child.b.folds_to(f, rb) && if rb.done() {
                            out == rb
                        } else {
                            call_ensures(*f, (self, Some((ra.value(), rb.value()))), out)
                        }
                },
        }
    }

    /// `f` can be called wherever a fold of this tree that can stop early
    /// calls it.
    pub open spec fn foldable_while<T, F: Fn(&Node, Option<(T, T)>) -> FoldWhile<T>>(
        &self,
        f: &F,
    ) -> bool
        decreases self,
    {
        match self.child {
            None => call_requires(*f, (self, None::<(T, T)>)),
            Some(child) => child.a.foldable_while(f) && forall|ra: FoldWhile<T>|
                #![trigger ra.done()]
                child.a.folds_to(f, ra) && !ra.done() ==> child.b.foldable_while(f) && forall|
                    rb: FoldWhile<T>,
                |
                    #![trigger rb.done()]
                    child.b.folds_to(f, rb) && !rb.done() ==> call_requires(
                        *f,
                        (self, Some((ra.value(), rb.value()))),
                    ),
        }
    }

    /// A fold of this tree with `f` may return `out`: for a leaf what `f`
    /// makes of it alone, for an inner node what `f` makes of the node and
    /// the values of its two subtrees, the first subtree folded first.
    pub open spec fn folds_plainly_to<T, F: Fn(&Node, Option<(T, T)>) -> T>(
        &self,
        f: &F,
        out: T,
    ) -> bool
        decreases self,
    {
        match self.child {
            None => call_ensures(*f, (self, None::<(T, T)>), out),
            Some(child) => exists|ra: T, rb: T|
                #![trigger call_ensures(*f, (self, Some((ra, rb))), out)]
                child.a.folds_plainly_to(f, ra) && child.b.folds_plainly_to(f, rb) && call_ensures(
                    *f,
                    (self, Some((ra, rb))),
                    out,
                ),
        }
    }

    /// `f` can be called wherever a fold of this tree calls it.
    pub open spec fn foldable<T, F: Fn(&Node, Option<(T, T)>) -> T>(&self, f: &F) -> bool
        decreases self,
    {
        match self.child {
            None => call_requires(*f, (self, None::<(T, T)>)),
            Some(child) => child.a.foldable(f) && child.b.foldable(f) && forall|ra: T, rb: T|
                #![trigger call_requires(*f, (self, Some((ra, rb))))]
                child.a.folds_plainly_to(f, ra) && child.b.folds_plainly_to(f, rb)
                    ==> call_requires(*f, (self, Some((ra, rb)))),
        }
    }

    /// Reduces the tree from the leaves up, and stops as soon as `f` says
    /// `Done`: that value is returned as it is, and no further node is
    /// visited.
    pub fn fold_while<F, T>(&self, f: &F) -> (out: FoldWhile<T>) where
        F: Fn(&Node, Option<(T, T)>) -> FoldWhile<T>,

        requires
            self.foldable_while(f),
        ensures
            self.folds_to(f, out),
        decreases self,
    {
        if let Some(child) = &self.child {
            let af = child.a.fold_while(f);
            if af.is_done() {
                return af;
            }
            let bf = child.b.fold_while(f);
            if bf.is_done() {
                return bf;
            }
            f(self, Some((af.into_inner(), bf.into_inner())))
        } else {
            f(self, None)
        }
    }

    /// Reduces the tree from the leaves up: `f` is called on every node, on
    /// a leaf alone and on an inner node with the values of its two subtrees.
    pub fn fold<F, T>(&self, f: &F) -> (out: T) where F: Fn(&Node, Option<(T, T)>) -> T
        requires
            self.foldable(f),
        ensures
            self.folds_plainly_to(f, out),
    {
        let keep_going = |node: &Node, item: Option<(T, T)>| -> (r: FoldWhile<T>)
            requires
                Self::takes(f, node, item),
            ensures
                !r.done(),
                Self::gives(f, node, item, r.value()),
            { FoldWhile::Continue(f(node, item)) };
        proof {
            Self::lemma_never_done(self, f, &keep_going);
        }
        let folded = self.fold_while(&keep_going);
        folded.into_inner()
    }

    /// `f` can be called on `node` and `item`.
    pub open spec fn takes<T, F: Fn(&Node, Option<(T, T)>) -> T>(
        f: &F,
        node: &Node,
        item: Option<(T, T)>,
    ) -> bool {
        call_requires(*f, (node, item))
    }

    /// `f` may return `out` when it is called on `node` and `item`.
    pub open spec fn gives<T, F: Fn(&Node, Option<(T, T)>) -> T>(
        f: &F,
        node: &Node,
        item: Option<(T, T)>,
        out: T,
    ) -> bool {
        call_ensures(*f, (node, item), out)
    }

    /// A fold that can stop early but whose function never says `Done`, and
    /// otherwise does what `f` does, is a fold with `f`.
    proof fn lemma_never_done<
        T,
        F: Fn(&Node, Option<(T, T)>) -> T,
        G: Fn(&Node, Option<(T, T)>) -> FoldWhile<T>,
    >(node: &Node, f: &F, g: &G)
        requires
            node.foldable(f),
            forall|n: &Node, item: Option<(T, T)>| #[trigger]
                call_requires(*f, (n, item)) ==> call_requires(*g, (n, item)),
            forall|n: &Node, item: Option<(T, T)>, r: FoldWhile<T>| #[trigger]
                call_ensures(*g, (n, item), r) ==> !r.done() && call_ensures(
                    *f,
                    (n, item),
                    r.value(),
                ),
        ensures
            node.foldable_while(g),
            forall|r: FoldWhile<T>| #[trigger]
                node.folds_to(g, r) ==> !r.done() && node.folds_plainly_to(f, r.value()),
        decreases node,
    {
        match node.child {
            None => {},
            Some(child) => {
                Self::lemma_never_done(&child.a, f, g);
                Self::lemma_never_done(&child.b, f, g);
                assert forall|ra: FoldWhile<T>, rb: FoldWhile<T>|
                    child.a.folds_to(g, ra) && child.b.folds_to(g, rb) implies #[trigger] call_requires(
                    *g,
                    (node, Some((ra.value(), rb.value()))),
                ) by {
                    assert(child.a.folds_plainly_to(f, ra.value()));
                    assert(child.b.folds_plainly_to(f, rb.value()));
                    assert(call_requires(*f, (node, Some((ra.value(), rb.value())))));
                }
                assert forall|r: FoldWhile<T>| #[trigger] node.folds_to(g, r) implies !r.done()
                    && node.folds_plainly_to(f, r.value()) by {
                    let ra = choose|ra: FoldWhile<T>|
                        #![trigger ra.done()]
                        child.a.folds_to(g, ra) && if ra.done() {
                            r == ra
                        } else {
                            exists|rb: FoldWhile<T>|
                                #![trigger rb.done()]
                                child.b.folds_to(g, rb) && if rb.done() {
                                    r == rb
                                } else {
                                    call_ensures(*g, (node, Some((ra.value(), rb.value()))), r)
                                }
                        };
                    let rb = choose|rb: FoldWhile<T>|
                        #![trigger rb.done()]
                        child.b.folds_to(g, rb) && if rb.done() {
                            r == rb
                        } else {
                            call_ensures(*g, (node, Some((ra.value(), rb.value()))), r)
                        };
                    assert(child.a.folds_plainly_to(f, ra.value()));
                    assert(child.b.folds_plainly_to(f, rb.value()));
                    assert(call_ensures(*f, (node, Some((ra.value(), rb.value()))), r.value()));
                }
            },
        }
    }
}

} // verus!
