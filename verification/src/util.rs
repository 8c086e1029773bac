//! Color aggregation: the mean color of a sequence of pixels and of a
//! window of an image, and the squared distance between two colors.

use vstd::prelude::*;
use crate::color::Color;
use crate::image_view::ImageView;
use crate::image_view::Window;

verus! {

/// The mean color of `colors`: each channel is the total of that channel
/// divided by the number of colors, rounded down. `None` when `colors` is empty.
///
/// The totals are exact, so the order of the colors does not matter.
pub fn color_avg(colors: &[Color]) -> (mean: Option<Color>)
    ensures
        mean == Color::mean(colors@),
{
    let n = colors.len();
    let mut r: u128 = 0;
    let mut g: u128 = 0;
    let mut b: u128 = 0;
    let mut a: u128 = 0;
    let mut k: usize = 0;
    while k < n
        invariant
            n == colors@.len(),
            k <= n,
            r == Color::total(colors@.take(k as int), 0),
            g == Color::total(colors@.take(k as int), 1),
            b == Color::total(colors@.take(k as int), 2),
            a == Color::total(colors@.take(k as int), 3),
            r <= 255 * k,
            g <= 255 * k,
            b <= 255 * k,
            a <= 255 * k,
        decreases n - k,
    {
        let c = colors[k];
        proof {
            let seen = colors@.take(k as int);
            assert(colors@.take(k + 1) =~= seen.push(c));
            Color::lemma_total_push(seen, c, 0);
            Color::lemma_total_push(seen, c, 1);
            Color::lemma_total_push(seen, c, 2);
            Color::lemma_total_push(seen, c, 3);
        }
        r = r + c.r as u128;
        g = g + c.g as u128;
        b = b + c.b as u128;
        a = a + c.a as u128;
        k = k + 1;
    }
    assert(colors@.take(n as int) =~= colors@);
    quotient(r, g, b, a, n as u64)
}

/// The mean color of the pixels that `view` shows, as `color_avg` would
/// give it for them; `None` when the window has no pixels.
pub fn avg_color(view: &Window) -> (mean: Option<Color>)
    ensures
        mean == view.region().mean(),
        mean.is_none() == view.region().is_empty(),
{
    let ghost region = view.region();
    let ghost all = region.pixels();
    let (w, h) = view.dimensions();
    let mut r: u128 = 0;
    let mut g: u128 = 0;
    let mut b: u128 = 0;
    let mut a: u128 = 0;
    let mut count: u64 = 0;
    let mut j: u32 = 0;
    while j < h
        invariant
            region == view.region(),
            all == region.pixels(),
            w == region.width,
            h == region.height,
            j <= h,
            count == j * w,
            r == Color::total(all.take(count as int), 0),
            g == Color::total(all.take(count as int), 1),
            b == Color::total(all.take(count as int), 2),
            a == Color::total(all.take(count as int), 3),
            r <= 255 * count,
            g <= 255 * count,
            b <= 255 * count,
            a <= 255 * count,
        decreases h - j,
    {
        let mut i: u32 = 0;
        while i < w
            invariant
                region == view.region(),
                all == region.pixels(),
                w == region.width,
                h == region.height,
                j < h,
                i <= w,
                count == j * w + i,
                r == Color::total(all.take(count as int), 0),
                g == Color::total(all.take(count as int), 1),
                b == Color::total(all.take(count as int), 2),
                a == Color::total(all.take(count as int), 3),
                r <= 255 * count,
                g <= 255 * count,
                b <= 255 * count,
                a <= 255 * count,
            decreases w - i,
        {
            let c = view.color_at(i, j);
            proof {
                region.lemma_index(i as int, j as int);
                let seen = all.take(count as int);
                assert(all.take(count + 1) =~= seen.push(c));
                Color::lemma_total_push(seen, c, 0);
                Color::lemma_total_push(seen, c, 1);
                Color::lemma_total_push(seen, c, 2);
                Color::lemma_total_push(seen, c, 3);
                assert(j * w + i < w * h <= 0xffff_ffff * 0xffff_ffff) by (nonlinear_arith)
                    requires
                        0 <= i < w <= 0xffff_ffff,
                        0 <= j < h <= 0xffff_ffff,
                ;
            }
            r = r + c.r as u128;
            g = g + c.g as u128;
            b = b + c.b as u128;
            a = a + c.a as u128;
            count = count + 1;
            i = i + 1;
        }
        assert(j * w + w == (j + 1) * w) by (nonlinear_arith);
        j = j + 1;
    }
    assert(all.take(count as int) =~= all);
    assert((w == 0 || h == 0) <==> h * w == 0) by (nonlinear_arith);
    quotient(r, g, b, a, count)
}

/// The squared distance between two colors: the sum over the four channels
/// of the squared difference. It is zero exactly when the colors are equal,
/// and the same in both directions.
pub fn color_dist2(a: Color, b: Color) -> (d: u32)
    ensures
        d == a.distance2(b),
        d == b.distance2(a),
        d == 0 <==> a == b,
        d <= 260100,
{
    proof {
        a.lemma_distance2_symmetric(b);
        a.lemma_distance2_zero(b);
    }
    let d = gap2(a.r, b.r) + gap2(a.g, b.g) + gap2(a.b, b.b) + gap2(a.a, b.a);
    d
}

/// The square of the difference of two channel values.
fn gap2(x: u8, y: u8) -> (d: u32)
    ensures
        d == Color::gap2(x, y),
        d <= 65025,
{
    let wide: u32 = if x >= y {
        (x - y) as u32
    } else {
        (y - x) as u32
    };
    assert(wide * wide == (x - y) * (x - y)) by (nonlinear_arith)
        requires
            wide == x - y || wide == y - x,
    ;
    assert(wide * wide <= 65025) by (nonlinear_arith)
        requires
            wide <= 255,
    ;
    wide * wide
}

/// Divides four channel totals by the number of colors they were taken over.
fn quotient(r: u128, g: u128, b: u128, a: u128, count: u64) -> (mean: Option<Color>)
    requires
        r <= 255 * count,
        g <= 255 * count,
        b <= 255 * count,
        a <= 255 * count,
    ensures
        count == 0 ==> mean.is_none(),
        count > 0 ==> mean == Some(
            Color {
                r: (r / count as u128) as u8,
                g: (g / count as u128) as u8,
                b: (b / count as u128) as u8,
                a: (a / count as u128) as u8,
            },
        ),
{
    if count == 0 {
        None
    } else {
        let n = count as u128;
        proof {
            lemma_quotient_fits(r as int, n as int);
            lemma_quotient_fits(g as int, n as int);
            lemma_quotient_fits(b as int, n as int);
            lemma_quotient_fits(a as int, n as int);
        }
        Some(Color { r: (r / n) as u8, g: (g / n) as u8, b: (b / n) as u8, a: (a / n) as u8 })
    }
}

proof fn lemma_quotient_fits(total: int, count: int)
    requires
        0 < count,
        0 <= total <= 255 * count,
    ensures
        0 <= total / count <= 255,
{
    vstd::arithmetic::div_mod::lemma_div_is_ordered(total, 255 * count, count);
    vstd::arithmetic::div_mod::lemma_div_multiples_vanish(255, count);
    vstd::arithmetic::div_mod::lemma_div_pos_is_pos(total, count);
}

} // verus!
