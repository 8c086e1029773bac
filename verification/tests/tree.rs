use image::{DynamicImage, ImageBuffer, Rgba, RgbaImage};
use image_tree::color::Color;
use image_tree::image_view::{ImageView, Region, Window};
use image_tree::newton::MaxIterationsExceeded;
use image_tree::split::{Split, SplitDirection};
use image_tree::splitter::{MaximalColorDifferenceSplitter, SplitInHalf, Splitter};
use image_tree::{BuildError, FoldWhile, Node, NodeChild};

const RED: Color = Color { r: 255, g: 0, b: 0, a: 255 };
const BLUE: Color = Color { r: 0, g: 0, b: 255, a: 255 };

fn pixel(c: Color) -> Rgba<u8> {
    Rgba([c.r, c.g, c.b, c.a])
}

/// Left half red, right half blue.
fn two_halves(width: u32, height: u32) -> DynamicImage {
    DynamicImage::ImageRgba8(RgbaImage::from_fn(width, height, |x, _| {
        if x < width / 2 {
            pixel(RED)
        } else {
            pixel(BLUE)
        }
    }))
}

fn gradient(width: u32, height: u32) -> DynamicImage {
    DynamicImage::ImageRgba8(RgbaImage::from_fn(width, height, |x, y| {
        Rgba([(x * 16) as u8, (y * 16) as u8, (x + y) as u8, 255])
    }))
}

fn leaves(node: &Node) -> u32 {
    node.fold(&|_: &Node, item: Option<(u32, u32)>| match item {
        None => 1,
        Some((a, b)) => a + b,
    })
}

fn depth(node: &Node) -> u32 {
    node.fold(&|_: &Node, item: Option<(u32, u32)>| match item {
        None => 0,
        Some((a, b)) => 1 + a.max(b),
    })
}

/// Puts the image of a tree together again from its leaves.
fn render(root: &Node) -> RgbaImage {
    root.fold(&|node: &Node, item: Option<(RgbaImage, RgbaImage)>| {
        match (&node.child, &item) {
            (None, None) => ImageBuffer::from_pixel(1, 1, pixel(node.color)),
            (Some(child), Some((a, b))) => {
                let NodeChild { split, .. } = **child;
                let (w, h) = split.dimensions();
                ImageBuffer::from_fn(w, h, |x, y| match split.dir {
                    SplitDirection::Horiz => {
                        if x < split.at {
                            *a.get_pixel(x, y)
                        } else {
                            *b.get_pixel(x - split.at, y)
                        }
                    }
                    SplitDirection::Vert => {
                        if y < split.at {
                            *a.get_pixel(x, y)
                        } else {
                            *b.get_pixel(x, y - split.at)
                        }
                    }
                })
            }
            _ => panic!(),
        }
    })
}

#[test]
fn it_works() {
    let img = gradient(13, 7);
    let root = Node::new::<SplitInHalf>(&Window::new(&img)).unwrap();
    let folded = render(&root);
    assert_eq!(folded.dimensions(), (13, 7));
    assert_eq!(DynamicImage::ImageRgba8(folded), img);
}

#[test]
fn one_pixel_is_a_leaf_of_its_color() {
    let img = DynamicImage::ImageRgba8(RgbaImage::from_pixel(1, 1, Rgba([3, 141, 59, 26])));
    let root = Node::new::<SplitInHalf>(&Window::new(&img)).unwrap();
    assert_eq!(root, Node { color: Color { r: 3, g: 141, b: 59, a: 26 }, child: None });
    let root = Node::new::<NeverConverges>(&Window::new(&img)).unwrap();
    assert_eq!(root, Node { color: Color { r: 3, g: 141, b: 59, a: 26 }, child: None });
}

#[test]
fn four_by_four_has_sixteen_leaves_at_depth_four() {
    let img = gradient(4, 4);
    let root = Node::new::<SplitInHalf>(&Window::new(&img)).unwrap();
    assert_eq!(leaves(&root), 16);
    assert_eq!(depth(&root), 4);
}

#[test]
fn halving_is_as_deep_as_both_sides_take_halvings() {
    // 13 -> 7 -> 4 -> 2 -> 1 and 7 -> 4 -> 2 -> 1
    let img = gradient(13, 7);
    let root = Node::new::<SplitInHalf>(&Window::new(&img)).unwrap();
    assert_eq!(depth(&root), 7);
    let img = gradient(1, 9);
    let root = Node::new::<SplitInHalf>(&Window::new(&img)).unwrap();
    assert_eq!(depth(&root), 4);
}

#[test]
fn one_leaf_for_every_pixel() {
    for (w, h) in [(1, 1), (2, 1), (1, 2), (3, 5), (7, 2), (6, 6), (1, 9)] {
        let img = gradient(w, h);
        let root = Node::new::<SplitInHalf>(&Window::new(&img)).unwrap();
        assert_eq!(leaves(&root), w * h);
    }
}

#[test]
fn two_solid_halves_come_back_exactly() {
    let img = two_halves(4, 4);
    let root = Node::new::<SplitInHalf>(&Window::new(&img)).unwrap();
    // equal sides are divided along the width
    let child = root.child.as_ref().unwrap();
    assert_eq!(
        child.split,
        Split { dir: SplitDirection::Horiz, at: 2, size: 4, size_orthogonal: 4 }
    );
    assert_eq!(root.color, Color { r: 127, g: 0, b: 127, a: 255 });
    assert_eq!(child.a.color, RED);
    assert_eq!(child.b.color, BLUE);
    assert_eq!(DynamicImage::ImageRgba8(render(&root)), img);
}

#[test]
fn tree_of_a_part_of_an_image() {
    let img = two_halves(8, 4);
    let right = Window::new(&img).view(4, 1, 3, 2).unwrap();
    let root = Node::new::<SplitInHalf>(&right).unwrap();
    assert_eq!(root.color, BLUE);
    assert_eq!(leaves(&root), 6);
    let child = root.child.as_ref().unwrap();
    assert_eq!(
        child.split,
        Split { dir: SplitDirection::Horiz, at: 1, size: 3, size_orthogonal: 2 }
    );
}

#[test]
fn halving_cuts_the_longer_side_in_the_middle() {
    let img = gradient(9, 4);
    let w = Window::new(&img);
    assert_eq!(
        SplitInHalf::split(&w),
        Ok(Split { dir: SplitDirection::Horiz, at: 4, size: 9, size_orthogonal: 4 })
    );
    let tall = w.view(0, 0, 2, 3).unwrap();
    assert_eq!(
        SplitInHalf::split(&tall),
        Ok(Split { dir: SplitDirection::Vert, at: 1, size: 3, size_orthogonal: 2 })
    );
    let square = w.view(0, 0, 4, 4).unwrap();
    assert_eq!(
        SplitInHalf::split(&square),
        Ok(Split { dir: SplitDirection::Horiz, at: 2, size: 4, size_orthogonal: 4 })
    );
}

#[test]
fn empty_image_has_no_tree() {
    for (w, h) in [(0, 0), (0, 3), (3, 0)] {
        let img = gradient(w, h);
        assert_eq!(Node::new::<SplitInHalf>(&Window::new(&img)), Err(BuildError::EmptyRegion));
    }
}

struct NeverConverges;

impl Splitter for NeverConverges {
    fn chosen(_region: Region) -> Result<Split, MaxIterationsExceeded> {
        unreachable!()
    }

    fn split(_view: &Window) -> Result<Split, MaxIterationsExceeded> {
        Err(MaxIterationsExceeded)
    }
}

/// Halves like `SplitInHalf`, but gives up on windows one pixel wide.
struct FailsOnColumns;

impl Splitter for FailsOnColumns {
    fn chosen(_region: Region) -> Result<Split, MaxIterationsExceeded> {
        unreachable!()
    }

    fn split(view: &Window) -> Result<Split, MaxIterationsExceeded> {
        if view.dimensions().0 == 1 {
            Err(MaxIterationsExceeded)
        } else {
            SplitInHalf::split(view)
        }
    }
}

struct CutsAtTheEdge;

impl Splitter for CutsAtTheEdge {
    fn chosen(_region: Region) -> Result<Split, MaxIterationsExceeded> {
        unreachable!()
    }

    fn split(view: &Window) -> Result<Split, MaxIterationsExceeded> {
        Ok(MaximalColorDifferenceSplitter::split_at(view, 0))
    }
}

struct CutsBeyond;

impl Splitter for CutsBeyond {
    fn chosen(_region: Region) -> Result<Split, MaxIterationsExceeded> {
        unreachable!()
    }

    fn split(view: &Window) -> Result<Split, MaxIterationsExceeded> {
        let frame = MaximalColorDifferenceSplitter::frame(view);
        Ok(MaximalColorDifferenceSplitter::split_at(view, frame.size))
    }
}

struct WrongExtents;

impl Splitter for WrongExtents {
    fn chosen(_region: Region) -> Result<Split, MaxIterationsExceeded> {
        unreachable!()
    }

    fn split(view: &Window) -> Result<Split, MaxIterationsExceeded> {
        let (w, h) = view.dimensions();
        Ok(Split { dir: SplitDirection::Horiz, at: 1, size: w + 1, size_orthogonal: h })
    }
}

struct CutsAfterTheFirst;

impl Splitter for CutsAfterTheFirst {
    fn chosen(_region: Region) -> Result<Split, MaxIterationsExceeded> {
        unreachable!()
    }

    fn split(view: &Window) -> Result<Split, MaxIterationsExceeded> {
        Ok(MaximalColorDifferenceSplitter::split_at(view, 1))
    }
}

#[test]
fn failure_of_the_strategy_fails_the_build() {
    let img = gradient(4, 4);
    let w = Window::new(&img);
    assert_eq!(Node::new::<NeverConverges>(&w), Err(BuildError::MaxIterationsExceeded));
    assert_eq!(Node::new::<FailsOnColumns>(&w), Err(BuildError::MaxIterationsExceeded));
}

#[test]
fn split_outside_the_region_fails_the_build() {
    let img = gradient(4, 4);
    let w = Window::new(&img);
    assert_eq!(Node::new::<CutsAtTheEdge>(&w), Err(BuildError::InvalidSplit));
    assert_eq!(Node::new::<CutsBeyond>(&w), Err(BuildError::InvalidSplit));
    assert_eq!(Node::new::<WrongExtents>(&w), Err(BuildError::InvalidSplit));
}

#[test]
fn any_strategy_with_cuts_inside_builds_a_leaf_per_pixel() {
    let img = gradient(5, 3);
    let root = Node::new::<CutsAfterTheFirst>(&Window::new(&img)).unwrap();
    assert_eq!(leaves(&root), 15);
    assert_eq!(depth(&root), 6);
    assert_eq!(DynamicImage::ImageRgba8(render(&root)), img);
}

#[test]
fn every_node_has_the_mean_color_of_its_region() {
    let img = gradient(4, 2);
    let root = Node::new::<SplitInHalf>(&Window::new(&img)).unwrap();
    // red 0, 16, 32, 48 in both rows; green 0 and 16; blue x + y
    assert_eq!(root.color, Color { r: 24, g: 8, b: 2, a: 255 });
    let child = root.child.as_ref().unwrap();
    assert_eq!(child.a.color, Color { r: 8, g: 8, b: 1, a: 255 });
    assert_eq!(child.b.color, Color { r: 40, g: 8, b: 3, a: 255 });
}

#[test]
fn fold_while_carries_values_up() {
    let img = gradient(3, 2);
    let root = Node::new::<SplitInHalf>(&Window::new(&img)).unwrap();
    let counted = root.fold_while(&|_: &Node, item: Option<(u32, u32)>| match item {
        None => FoldWhile::Continue(1),
        Some((a, b)) => FoldWhile::Continue(a + b + 1),
    });
    assert!(!counted.is_done());
    assert_eq!(counted.into_inner(), 11);
}

#[test]
fn fold_while_stops_at_done() {
    let img = gradient(4, 4);
    let root = Node::new::<SplitInHalf>(&Window::new(&img)).unwrap();
    let visits = std::cell::Cell::new(0u32);
    let found = root.fold_while(&|node: &Node, item: Option<(u32, u32)>| {
        visits.set(visits.get() + 1);
        match item {
            None if node.color.r == 16 => FoldWhile::Done(99),
            None => FoldWhile::Continue(1),
            Some((a, b)) => FoldWhile::Continue(a + b),
        }
    });
    assert!(found.is_done());
    assert_eq!(found.into_inner(), 99);
    // two leaves of column 0, the node over them, then the leaf that stops
    // the fold; the other 27 nodes are not visited
    assert_eq!(visits.get(), 4);
}

#[test]
fn fold_while_done_in_the_second_subtree() {
    let img = two_halves(2, 1);
    let root = Node::new::<SplitInHalf>(&Window::new(&img)).unwrap();
    let out = root.fold_while(&|node: &Node, item: Option<(u8, u8)>| match item {
        None if node.color == BLUE => FoldWhile::Done(2),
        None => FoldWhile::Continue(1),
        Some(_) => FoldWhile::Continue(3),
    });
    assert!(out.is_done());
    assert_eq!(out.into_inner(), 2);
}

#[test]
fn fold_while_values() {
    assert!(FoldWhile::Done(1).is_done());
    assert!(!FoldWhile::Continue(1).is_done());
    assert_eq!(FoldWhile::Done(5).into_inner(), 5);
    assert_eq!(FoldWhile::Continue(6).into_inner(), 6);
}

#[test]
fn adaptive_strategy_frames_the_longer_side() {
    let img = two_halves(6, 4);
    let w = Window::new(&img);
    assert_eq!(
        MaximalColorDifferenceSplitter::frame(&w),
        Split { dir: SplitDirection::Horiz, at: 0, size: 6, size_orthogonal: 4 }
    );
    assert_eq!(
        MaximalColorDifferenceSplitter::split_at(&w, 5),
        Split { dir: SplitDirection::Horiz, at: 5, size: 6, size_orthogonal: 4 }
    );
    let square = w.view(0, 0, 4, 4).unwrap();
    assert_eq!(
        MaximalColorDifferenceSplitter::split_at(&square, 3),
        Split { dir: SplitDirection::Vert, at: 3, size: 4, size_orthogonal: 4 }
    );
}

#[test]
fn adaptive_objective_is_the_distance_between_the_mean_colors() {
    let img = two_halves(6, 4);
    let w = Window::new(&img);
    // red against blue
    assert_eq!(MaximalColorDifferenceSplitter::objective(&w, 3), Some(2 * 255 * 255));
    // red against one red and three blue columns: (63, 0, 191)
    assert_eq!(MaximalColorDifferenceSplitter::objective(&w, 2), Some(192 * 192 + 191 * 191));
    assert_eq!(MaximalColorDifferenceSplitter::objective(&w, 0), None);
    assert_eq!(MaximalColorDifferenceSplitter::objective(&w, 6), None);
    assert_eq!(MaximalColorDifferenceSplitter::objective(&w, 7), None);
    let solid = w.view(0, 0, 3, 4).unwrap();
    assert_eq!(MaximalColorDifferenceSplitter::objective(&solid, 2), Some(0));
}
