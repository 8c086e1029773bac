//! Rectangular windows onto an image.
//!
//! The pixels themselves stay where the `image` crate keeps them: a
//! [`Window`] borrows a `DynamicImage` and remembers which rectangle of it
//! is meant. What a window shows is described by a [`Region`].

use vstd::prelude::*;
use image::DynamicImage;
use image::GenericImageView;
use crate::color::Color;

verus! {

/// Makes `image::DynamicImage` known to the verifier, as a type of which
/// nothing is known but what the functions below say.
#[verifier::external_type_specification]
#[verifier::external_body]
pub struct ExDynamicImage(image::DynamicImage);

/// The width of an image in pixels, as `DynamicImage::width` reports it.
pub uninterp spec fn grid_width(image: DynamicImage) -> u32;

/// The height of an image in pixels, as `DynamicImage::height` reports it.
pub uninterp spec fn grid_height(image: DynamicImage) -> u32;

/// The red, green, blue and alpha channels of the pixel in column `x` and
/// row `y` of an image, as `get_pixel` reports them for a `DynamicImage`.
pub uninterp spec fn grid_pixel(image: DynamicImage, x: u32, y: u32) -> (u8, u8, u8, u8);

/// Calls `DynamicImage::width`. Trusted: the result is the width that the
/// contracts of this crate call `grid_width`.
#[verifier::external_body]
fn image_width(image: &DynamicImage) -> (w: u32)
    ensures
        w == grid_width(*image),
{
    image.width()
}

/// Calls `DynamicImage::height`. Trusted: the result is the height that the
/// contracts of this crate call `grid_height`.
#[verifier::external_body]
fn image_height(image: &DynamicImage) -> (h: u32)
    ensures
        h == grid_height(*image),
{
    image.height()
}

/// Calls `GenericImageView::get_pixel` on a `DynamicImage`, which panics when
/// the coordinates are outside the image: callers must stay inside. Trusted:
/// the four channels of the pixel that comes back are what the contracts of
/// this crate call `grid_pixel`.
#[verifier::external_body]
fn image_pixel(image: &DynamicImage, x: u32, y: u32) -> (c: Color)
    requires
        x < grid_width(*image),
        y < grid_height(*image),
    ensures
        c == Color::of_channels(grid_pixel(*image, x, y)),
{
    let p = image.get_pixel(x, y);
    Color { r: p.0[0], g: p.0[1], b: p.0[2], a: p.0[3] }
}

/// What a window shows: a rectangle of an image. `x` and `y` are the column
/// and row of its top left corner in the image.
pub struct Region {
    pub image: DynamicImage,
    pub x: u32,
    pub y: u32,
    pub width: u32,
    pub height: u32,
}

impl Region {
    /// The rectangle lies inside the image.
    pub open spec fn wf(self) -> bool {
        &&& self.x + self.width <= grid_width(self.image)
        &&& self.y + self.height <= grid_height(self.image)
    }

    /// The whole of an image.
    pub open spec fn whole(image: DynamicImage) -> Region {
        Region { image, x: 0, y: 0, width: grid_width(image), height: grid_height(image) }
    }

    /// The number of pixels in the region.
    pub open spec fn area(self) -> nat {
        (self.width * self.height) as nat
    }

    /// The region has no pixels.
    pub open spec fn is_empty(self) -> bool {
        self.width == 0 || self.height == 0
    }

    /// The rectangle of `width` by `height` pixels whose top left corner is
    /// `x` columns and `y` rows from the region's own lies inside the region.
    pub open spec fn holds(self, x: u32, y: u32, width: u32, height: u32) -> bool {
        x + width <= self.width && y + height <= self.height
    }

    /// The part of the region that is `width` by `height` pixels and starts
    /// `x` columns and `y` rows from the region's top left corner.
    pub open spec fn sub(self, x: u32, y: u32, width: u32, height: u32) -> Region {
        Region {
            image: self.image,
            x: (self.x + x) as u32,
            y: (self.y + y) as u32,
            width,
            height,
        }
    }

    /// The pixel in column `px` and row `py` of the image belongs to the region.
    pub open spec fn covers(self, px: int, py: int) -> bool {
        &&& self.x <= px < self.x + self.width
        &&& self.y <= py < self.y + self.height
    }

    /// The color in column `i` and row `j` of the region.
    pub open spec fn color_at(self, i: int, j: int) -> Color {
        Color::of_channels(grid_pixel(self.image, (self.x + i) as u32, (self.y + j) as u32))
    }

    /// The colors of the region, row after row, each row from left to right.
    pub open spec fn pixels(self) -> Seq<Color> {
        Seq::new(
            self.area(),
            |k: int| self.color_at(k % (self.width as int), k / (self.width as int)),
        )
    }

    /// The pixels of the region with their coordinates in it, column first,
    /// in the order of `pixels`.
    pub open spec fn cells(self) -> Seq<(u32, u32, Color)> {
        Seq::new(
            self.area(),
            |k: int|
                (
                    (k % (self.width as int)) as u32,
                    (k / (self.width as int)) as u32,
                    self.color_at(k % (self.width as int), k / (self.width as int)),
                ),
        )
    }

    /// The mean color of the region; an empty region has none.
    pub open spec fn mean(self) -> Option<Color> {
        Color::mean(self.pixels())
    }

    /// Column `i` of row `j` is entry `j * width + i` of `pixels` and of `cells`.
    pub proof fn lemma_index(self, i: int, j: int)
        requires
            0 <= i < self.width,
            0 <= j < self.height,
        ensures
            0 <= j * self.width + i < self.area(),
            self.pixels()[j * self.width + i] == self.color_at(i, j),
            self.cells()[j * self.width + i] == (i as u32, j as u32, self.color_at(i, j)),
    {
        let w = self.width as int;
        let h = self.height as int;
        assert(0 <= j * w && j * w + w <= h * w && h * w == w * h) by (nonlinear_arith)
            requires
                0 <= j < h,
                0 < w,
        ;
        vstd::arithmetic::div_mod::lemma_fundamental_div_mod_converse(j * w + i, w, j, i);
    }
}

/// A window onto an image: a rectangle that lies inside the image it
/// borrows. It owns no pixels.
#[derive(Clone, Copy)]
pub struct Window<'a> {
    image: &'a DynamicImage,
    x: u32,
    y: u32,
    width: u32,
    height: u32,
}

/// A rectangular, read-only view of pixels.
pub trait ImageView {
    /// What the view shows.
    spec fn shown(&self) -> Region;

    /// The column and row of the top left corner in the image, then the
    /// width and the height of the view.
    fn bounds(&self) -> (b: (u32, u32, u32, u32))
        ensures
            self.shown().wf(),
            b == (self.shown().x, self.shown().y, self.shown().width, self.shown().height),
    ;

    /// The width and the height of the view, as `bounds` gives them.
    fn dimensions(&self) -> (d: (u32, u32))
        ensures
            self.shown().wf(),
            d == (self.shown().width, self.shown().height),
    {
        let (_, _, w, h) = self.bounds();
        (w, h)
    }

    /// The window of `width` by `height` pixels whose top left corner is `x`
    /// columns and `y` rows from this view's own; `None` unless that
    /// rectangle lies inside this view.
    fn view(&self, x: u32, y: u32, width: u32, height: u32) -> (sub: Option<Window<'_>>)
        ensures
            sub.is_some() == self.shown().holds(x, y, width, height),
            sub matches Some(w) ==> w.region() == self.shown().sub(x, y, width, height),
    ;

    /// The mean color of the view; `None` when it has no pixels.
    fn color_avg(&self) -> (mean: Option<Color>)
        ensures
            mean == self.shown().mean(),
            mean.is_none() == self.shown().is_empty(),
    ;
}

impl<'a> Window<'a> {
    #[verifier::type_invariant]
    spec fn inside(self) -> bool {
        &&& self.x + self.width <= grid_width(*self.image)
        &&& self.y + self.height <= grid_height(*self.image)
    }

    /// What the window shows.
    pub closed spec fn region(&self) -> Region {
        Region { image: *self.image, x: self.x, y: self.y, width: self.width, height: self.height }
    }

    /// The window that shows the whole of `image`.
    pub fn new(image: &'a DynamicImage) -> (w: Window<'a>)
        ensures
            w.region() == Region::whole(*image),
            w.region().wf(),
    {
        Window { image, x: 0, y: 0, width: image_width(image), height: image_height(image) }
    }

    /// The window of `width` by `height` pixels whose top left corner is `x`
    /// columns and `y` rows from this window's own; `None` unless that
    /// rectangle lies inside this window. The new window borrows the image,
    /// not this window.
    pub fn view(&self, x: u32, y: u32, width: u32, height: u32) -> (sub: Option<Window<'a>>)
        ensures
            self.region().wf(),
            sub.is_some() == self.region().holds(x, y, width, height),
            sub matches Some(w) ==> w.region() == self.region().sub(x, y, width, height)
                && w.region().wf(),
    {
        proof {
            use_type_invariant(self);
        }
        if x <= self.width && width <= self.width - x && y <= self.height && height <= self.height
            - y {
            Some(Window { image: self.image, x: self.x + x, y: self.y + y, width, height })
        } else {
            None
        }
    }

    /// The color in column `x` and row `y` of the window; `None` when the
    /// window has no such pixel.
    pub fn get_pixel(&self, x: u32, y: u32) -> (c: Option<Color>)
        ensures
            c.is_some() == (x < self.region().width && y < self.region().height),
            c matches Some(color) ==> color == self.region().color_at(x as int, y as int),
    {
        proof {
            use_type_invariant(self);
        }
        if x < self.width && y < self.height {
            Some(image_pixel(self.image, self.x + x, self.y + y))
        } else {
            None
        }
    }

    /// The color in column `i` and row `j` of the window.
    pub(crate) fn color_at(&self, i: u32, j: u32) -> (c: Color)
        requires
            i < self.region().width,
            j < self.region().height,
        ensures
            c == self.region().color_at(i as int, j as int),
    {
        proof {
            use_type_invariant(self);
        }
        image_pixel(self.image, self.x + i, self.y + j)
    }

    /// Every pixel of the window with its column and its row in the window,
    /// row after row, each row from left to right.
    pub fn pixels(&self) -> (cells: Vec<(u32, u32, Color)>)
        ensures
            cells@ == self.region().cells(),
    {
        proof {
            use_type_invariant(self);
        }
        let ghost region = self.region();
        let mut cells: Vec<(u32, u32, Color)> = Vec::new();
        let mut j: u32 = 0;
        while j < self.height
            invariant
                region == self.region(),
                self.inside(),
                j <= self.height,
                cells@.len() == j * self.width,
                forall|k: int| 0 <= k < cells@.len() ==> cells@[k] == region.cells()[k],
            decreases self.height - j,
        {
            let mut i: u32 = 0;
            while i < self.width
                invariant
                    region == self.region(),
                    self.inside(),
                    j < self.height,
                    i <= self.width,
                    cells@.len() == j * self.width + i,
                    forall|k: int| 0 <= k < cells@.len() ==> cells@[k] == region.cells()[k],
                decreases self.width - i,
            {
                let c = image_pixel(self.image, self.x + i, self.y + j);
                proof {
                    region.lemma_index(i as int, j as int);
                }
                cells.push((i, j, c));
                i = i + 1;
            }
            assert(j * self.width + self.width == (j + 1) * self.width) by (nonlinear_arith);
            j = j + 1;
        }
        assert(cells@.len() == region.area()) by (nonlinear_arith)
            requires
                cells@.len() == j * self.width,
                j == self.height,
                region.area() == self.width * self.height,
        ;
        assert(cells@ =~= region.cells());
        cells
    }
}

impl<'a> ImageView for Window<'a> {
    open spec fn shown(&self) -> Region {
        self.region()
    }

    fn bounds(&self) -> (b: (u32, u32, u32, u32)) {
        proof {
            use_type_invariant(self);
        }
        (self.x, self.y, self.width, self.height)
    }

    fn view(&self, x: u32, y: u32, width: u32, height: u32) -> (sub: Option<Window<'_>>) {
        Window::view(self, x, y, width, height)
    }

    fn color_avg(&self) -> (mean: Option<Color>) {
        crate::util::avg_color(self)
    }
}

impl ImageView for DynamicImage {
    open spec fn shown(&self) -> Region {
        Region::whole(*self)
    }

    fn bounds(&self) -> (b: (u32, u32, u32, u32)) {
        (0, 0, image_width(self), image_height(self))
    }

    fn view(&self, x: u32, y: u32, width: u32, height: u32) -> (sub: Option<Window<'_>>) {
        Window::new(self).view(x, y, width, height)
    }

    fn color_avg(&self) -> (mean: Option<Color>) {
        crate::util::avg_color(&Window::new(self))
    }
}

} // verus!
