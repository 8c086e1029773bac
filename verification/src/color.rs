//! Colors and the arithmetic on them: channel totals, the mean of a sequence
//! of colors, and the squared distance between two colors.
//!
//! Everything here is exact integer arithmetic on 8-bit channels.

use vstd::prelude::*;
use vstd::seq_lib::to_multiset_len;
use vstd::seq_lib::to_multiset_remove;

verus! {

/// A pixel color: four 8-bit channels.
#[derive(Clone, Copy, Debug, PartialEq, Eq, Structural, Hash)]
pub struct Color {
    pub r: u8,
    pub g: u8,
    pub b: u8,
    pub a: u8,
}

impl Color {
    /// The channel with index `i`: 0 is red, 1 green, 2 blue, anything else alpha.
    pub open spec fn channel(self, i: int) -> u8 {
        if i == 0 {
            self.r
        } else if i == 1 {
            self.g
        } else if i == 2 {
            self.b
        } else {
            self.a
        }
    }

    /// The color whose channels are the components of `t`, in the order
    /// red, green, blue, alpha.
    pub open spec fn of_channels(t: (u8, u8, u8, u8)) -> Color {
        Color { r: t.0, g: t.1, b: t.2, a: t.3 }
    }

    /// The total of channel `i` over all of `colors`.
    pub open spec fn total(colors: Seq<Color>, i: int) -> nat
        decreases colors.len(),
    {
        if colors.len() == 0 {
            0
        } else {
            Self::total(colors.drop_last(), i) + colors.last().channel(i) as nat
        }
    }

    /// The mean of `colors`, channel by channel, each quotient rounded down.
    /// An empty sequence has no mean.
    pub open spec fn mean(colors: Seq<Color>) -> Option<Color> {
        if colors.len() == 0 {
            None
        } else {
            Some(
                Color {
                    r: (Self::total(colors, 0) / colors.len()) as u8,
                    g: (Self::total(colors, 1) / colors.len()) as u8,
                    b: (Self::total(colors, 2) / colors.len()) as u8,
                    a: (Self::total(colors, 3) / colors.len()) as u8,
                },
            )
        }
    }

    /// The square of the difference of two channel values.
    pub open spec fn gap2(x: u8, y: u8) -> nat {
        ((x - y) * (x - y)) as nat
    }

    /// The squared distance between two colors: the squared differences of
    /// the four channels, added up.
    pub open spec fn distance2(self, other: Color) -> nat {
        Self::gap2(self.r, other.r) + Self::gap2(self.g, other.g) + Self::gap2(self.b, other.b)
            + Self::gap2(self.a, other.a)
    }

    /// Adding one color to a sequence adds its channels to the totals.
    pub proof fn lemma_total_push(colors: Seq<Color>, c: Color, i: int)
        ensures
            Self::total(colors.push(c), i) == Self::total(colors, i) + c.channel(i),
    {
        assert(colors.push(c).drop_last() =~= colors);
    }

    /// The totals of a concatenation are the sums of the totals of its parts.
    pub proof fn lemma_total_concat(front: Seq<Color>, back: Seq<Color>, i: int)
        ensures
            Self::total(front + back, i) == Self::total(front, i) + Self::total(back, i),
        decreases back.len(),
    {
        if back.len() == 0 {
            assert(front + back =~= front);
        } else {
            Self::lemma_total_concat(front, back.drop_last(), i);
            assert((front + back).drop_last() =~= front + back.drop_last());
        }
    }

    /// Taking one color out of a sequence takes its channels out of the totals.
    pub proof fn lemma_total_remove(colors: Seq<Color>, k: int, i: int)
        requires
            0 <= k < colors.len(),
        ensures
            Self::total(colors, i) == Self::total(colors.remove(k), i) + colors[k].channel(i),
    {
        let front = colors.subrange(0, k);
        let back = colors.subrange(k + 1, colors.len() as int);
        assert(colors =~= front.push(colors[k]) + back);
        assert(colors.remove(k) =~= front + back);
        Self::lemma_total_concat(front.push(colors[k]), back, i);
        Self::lemma_total_concat(front, back, i);
        Self::lemma_total_push(front, colors[k], i);
    }

    /// The channel totals of a sequence depend only on which colors it holds
    /// and how often, not on their order.
    pub proof fn lemma_total_permutation(first: Seq<Color>, second: Seq<Color>, i: int)
        requires
            first.to_multiset() == second.to_multiset(),
        ensures
            Self::total(first, i) == Self::total(second, i),
        decreases first.len(),
    {
        to_multiset_len(first);
        to_multiset_len(second);
        if first.len() > 0 {
            let c = first.last();
            let rest = first.drop_last();
            assert(first =~= rest.push(c));
            assert(first.to_multiset().count(c) > 0) by {
                assert(first.contains(c)) by {
                    assert(first[first.len() - 1] == c);
                }
                first.to_multiset_ensures();
            }
            assert(second.contains(c)) by {
                second.to_multiset_ensures();
            }
            let k = choose|k: int| 0 <= k < second.len() && second[k] == c;
            to_multiset_remove(first, first.len() - 1);
            to_multiset_remove(second, k);
            assert(first.remove(first.len() - 1) =~= rest);
            Self::lemma_total_permutation(rest, second.remove(k), i);
            Self::lemma_total_remove(second, k, i);
        }
    }

    /// The mean of a sequence of colors is the mean of every rearrangement of it.
    pub proof fn lemma_mean_permutation(first: Seq<Color>, second: Seq<Color>)
        requires
            first.to_multiset() == second.to_multiset(),
        ensures
            Self::mean(first) == Self::mean(second),
    {
        to_multiset_len(first);
        to_multiset_len(second);
        Self::lemma_total_permutation(first, second, 0);
        Self::lemma_total_permutation(first, second, 1);
        Self::lemma_total_permutation(first, second, 2);
        Self::lemma_total_permutation(first, second, 3);
    }

    /// The mean of a single color is that color.
    pub proof fn lemma_mean_single(c: Color)
        ensures
            Self::mean(seq![c]) == Some(c),
    {
        let s = seq![c];
        assert(s.drop_last() =~= Seq::<Color>::empty());
        assert(s.last() == c);
        assert(Self::total(s.drop_last(), 0) == 0);
        assert(Self::total(s.drop_last(), 1) == 0);
        assert(Self::total(s.drop_last(), 2) == 0);
        assert(Self::total(s.drop_last(), 3) == 0);
    }

    /// The mean of a sequence that repeats one color is that color.
    pub proof fn lemma_mean_uniform(colors: Seq<Color>, c: Color)
        requires
            colors.len() > 0,
            forall|k: int| 0 <= k < colors.len() ==> colors[k] == c,
        ensures
            Self::mean(colors) == Some(c),
    {
        Self::lemma_total_uniform(colors, c, 0);
        Self::lemma_total_uniform(colors, c, 1);
        Self::lemma_total_uniform(colors, c, 2);
        Self::lemma_total_uniform(colors, c, 3);
        Self::lemma_repeated_quotient(c.r as int, colors.len() as int);
        Self::lemma_repeated_quotient(c.g as int, colors.len() as int);
        Self::lemma_repeated_quotient(c.b as int, colors.len() as int);
        Self::lemma_repeated_quotient(c.a as int, colors.len() as int);
    }

    /// The totals of a sequence that repeats one color.
    pub proof fn lemma_total_uniform(colors: Seq<Color>, c: Color, i: int)
        requires
            forall|k: int| 0 <= k < colors.len() ==> colors[k] == c,
        ensures
            Self::total(colors, i) == c.channel(i) * colors.len(),
        decreases colors.len(),
    {
        if colors.len() > 0 {
            Self::lemma_total_uniform(colors.drop_last(), c, i);
            assert(c.channel(i) * colors.len() == c.channel(i) * (colors.len() - 1) + c.channel(i))
                by (nonlinear_arith);
        }
    }

    /// A color is at distance zero from itself, and from no other color.
    pub proof fn lemma_distance2_zero(self, other: Color)
        ensures
            self.distance2(self) == 0,
            self.distance2(other) == 0 <==> self == other,
    {
        Self::lemma_gap2_zero(self.r, other.r);
        Self::lemma_gap2_zero(self.g, other.g);
        Self::lemma_gap2_zero(self.b, other.b);
        Self::lemma_gap2_zero(self.a, other.a);
    }

    /// The squared distance does not depend on the order of the two colors.
    pub proof fn lemma_distance2_symmetric(self, other: Color)
        ensures
            self.distance2(other) == other.distance2(self),
    {
        Self::lemma_gap2_symmetric(self.r, other.r);
        Self::lemma_gap2_symmetric(self.g, other.g);
        Self::lemma_gap2_symmetric(self.b, other.b);
        Self::lemma_gap2_symmetric(self.a, other.a);
    }

    proof fn lemma_repeated_quotient(v: int, n: int)
        requires
            0 < n,
        ensures
            (v * n) / n == v,
    {
        vstd::arithmetic::div_mod::lemma_div_multiples_vanish(v, n);
        assert(v * n == n * v) by (nonlinear_arith);
    }

    proof fn lemma_gap2_zero(x: u8, y: u8)
        ensures
            Self::gap2(x, x) == 0,
            Self::gap2(x, y) == 0 <==> x == y,
            Self::gap2(x, y) <= 65025,
    {
        let d = x - y;
        assert(d * d == 0 <==> d == 0) by (nonlinear_arith);
        assert(d * d >= 0) by (nonlinear_arith);
        assert(d * d <= 65025) by (nonlinear_arith)
            requires
                -255 <= d <= 255,
        ;
    }

    proof fn lemma_gap2_symmetric(x: u8, y: u8)
        ensures
            Self::gap2(x, y) == Self::gap2(y, x),
    {
        assert((x - y) * (x - y) == (y - x) * (y - x)) by (nonlinear_arith);
    }
}

} // verus!
