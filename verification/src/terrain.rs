//! The surface: heights from noise, and the mesh that is drawn over them.

use crate::config;
use crate::config::OCTAVES;
use crate::fixed::Fixed;
use crate::scalar;
use crate::scalar::{clamp, larger, smaller, Scalar};
use crate::slopes;
use crate::vector::Vec3;
use vstd::prelude::*;

verus! {

/// How many squares the surface has along a side; it has one vertex more.
pub const TERRAIN_SIZE: usize = 512;

// ---- noise ----

/// How finely octave `k` of the noise is sampled.
pub open spec fn frequency<D: Scalar>(k: nat) -> D
    decreases k,
{
    if k == 0 {
        config::noise_step()
    } else {
        frequency::<D>((k - 1) as nat).mul(config::octave_gap())
    }
}

/// How much octave `k` of the noise weighs.
pub open spec fn octave_weight<D: Scalar>(k: nat) -> D
    decreases k,
{
    if k == 0 {
        scalar::one()
    } else {
        octave_weight::<D>((k - 1) as nat).mul(config::octave_fade())
    }
}

/// Where octave `k` of the noise is sampled for vertex `v` of a square with `n` vertices
/// along a side.
pub open spec fn sample_point<D: Scalar>(n: int, v: int, k: nat) -> (D, D) {
    (
        D::of_index((v % n) as usize).mul(frequency(k)),
        D::of_index((v / n) as usize).mul(frequency(k)),
    )
}

/// The weighted sum of the noise of each octave, from the first on.
pub open spec fn octave_sum<D: Scalar>(samples: Seq<D>) -> D
    decreases samples.len(),
{
    if samples.len() == 0 {
        scalar::zero()
    } else {
        octave_sum(samples.drop_last()).add(
            samples.last().mul(octave_weight((samples.len() - 1) as nat)),
        )
    }
}

/// Where noise is sampled for the vertices of a square of `size * size` squares: for each
/// vertex, row after row, one point for each octave.
pub fn sample_points<D: Scalar>(size: usize) -> (r: Vec<(D, D)>)
    requires
        (size + 1) * (size + 1) * OCTAVES <= usize::MAX,
    ensures
        r@.len() == (size + 1) * (size + 1) * OCTAVES,
        forall|i: int|
            0 <= i < r@.len() ==> #[trigger] r@[i] == sample_point::<D>(
                size + 1,
                i / (OCTAVES as int),
                (i % (OCTAVES as int)) as nat,
            ),
{
    assert((size + 1) * (size + 1) >= size + 1) by (nonlinear_arith)
        requires
            size >= 0,
    ;
    let n: usize = size + 1;
    let count: usize = n * n;
    let mut points: Vec<(D, D)> = Vec::with_capacity(count * OCTAVES);
    let mut v: usize = 0;
    while v < count
        invariant
            n > 0,
            v <= count,
            points@.len() == v * OCTAVES,
            forall|i: int|
                0 <= i < points@.len() ==> #[trigger] points@[i] == sample_point::<D>(
                    n as int,
                    i / (OCTAVES as int),
                    (i % (OCTAVES as int)) as nat,
                ),
        decreases count - v,
    {
        let x: D = D::from_index(v % n);
        let z: D = D::from_index(v / n);
        let mut freq: D = config::noise_scale();
        let mut k: usize = 0;
        while k < OCTAVES
            invariant
                n > 0,
                k <= OCTAVES,
                x == D::of_index((v % n) as usize),
                z == D::of_index((v / n) as usize),
                freq == frequency::<D>(k as nat),
                points@.len() == v * OCTAVES + k,
                forall|i: int|
                    0 <= i < points@.len() ==> #[trigger] points@[i] == sample_point::<D>(
                        n as int,
                        i / (OCTAVES as int),
                        (i % (OCTAVES as int)) as nat,
                    ),
            decreases OCTAVES - k,
        {
            points.push((x.times(freq), z.times(freq)));
            freq = freq.times(config::lacunarity());
            k = k + 1;
        }
        v = v + 1;
    }
    points
}

/// The noise at each vertex, from the samples taken at [`sample_points`].
pub fn noise_heights<D: Scalar>(samples: &Vec<D>) -> (r: Vec<D>)
    requires
        samples@.len() % (OCTAVES as nat) == 0,
    ensures
        r@.len() == samples@.len() / (OCTAVES as nat),
        forall|v: int|
            0 <= v < r@.len() ==> #[trigger] r@[v] == octave_sum(
                samples@.subrange(v * OCTAVES, v * OCTAVES + OCTAVES),
            ),
{
    let count: usize = samples.len() / OCTAVES;
    let mut heights: Vec<D> = Vec::with_capacity(count);
    let mut v: usize = 0;
    while v < count
        invariant
            v <= count,
            count * OCTAVES == samples.len(),
            heights@.len() == v,
            forall|u: int|
                0 <= u < v ==> #[trigger] heights@[u] == octave_sum(
                    samples@.subrange(u * OCTAVES, u * OCTAVES + OCTAVES),
                ),
        decreases count - v,
    {
        let first: usize = v * OCTAVES;
        let mut h: D = D::ratio(0, 1);
        let mut amp: D = D::ratio(1, 1);
        let mut k: usize = 0;
        assert(samples@.subrange(first as int, first as int) =~= Seq::empty());
        while k < OCTAVES
            invariant
                k <= OCTAVES,
                first + OCTAVES <= samples.len(),
                amp == octave_weight::<D>(k as nat),
                h == octave_sum(samples@.subrange(first as int, first + k)),
            decreases OCTAVES - k,
        {
            assert(samples@.subrange(first as int, first + k + 1).drop_last()
                =~= samples@.subrange(first as int, first + k));
            h = h.plus(samples[first + k].times(amp));
            amp = amp.times(config::persistence());
            k = k + 1;
        }
        heights.push(h);
        v = v + 1;
    }
    heights
}

// ---- colours ----

/// A colour in linear light.
#[derive(Clone, Copy, Debug)]
pub struct LinearRgba<S> {
    pub red: S,
    pub green: S,
    pub blue: S,
    pub alpha: S,
}

impl<S: Scalar> LinearRgba<S> {
    /// The opaque colour with so many hundredths of each part.
    pub open spec fn hundredths(red: i64, green: i64, blue: i64) -> Self {
        LinearRgba {
            red: S::ratio_of(red, 100),
            green: S::ratio_of(green, 100),
            blue: S::ratio_of(blue, 100),
            alpha: scalar::one(),
        }
    }

    /// The colour `t` of the way to `other`.
    pub open spec fn blended(self, other: Self, t: S) -> Self {
        LinearRgba {
            red: self.red.add(other.red.sub(self.red).mul(t)),
            green: self.green.add(other.green.sub(self.green).mul(t)),
            blue: self.blue.add(other.blue.sub(self.blue).mul(t)),
            alpha: self.alpha.add(other.alpha.sub(self.alpha).mul(t)),
        }
    }

    fn of_hundredths(red: i64, green: i64, blue: i64) -> (r: Self)
        ensures
            r == Self::hundredths(red, green, blue),
    {
        LinearRgba {
            red: S::ratio(red, 100),
            green: S::ratio(green, 100),
            blue: S::ratio(blue, 100),
            alpha: S::ratio(1, 1),
        }
    }
}

/// The colour `t` of the way from `a` to `b`.
pub fn lerp_color<S: Scalar>(a: LinearRgba<S>, b: LinearRgba<S>, t: S) -> (r: LinearRgba<S>)
    ensures
        r == a.blended(b, t),
{
    LinearRgba {
        red: a.red.plus(b.red.minus(a.red).times(t)),
        green: a.green.plus(b.green.minus(a.green).times(t)),
        blue: a.blue.plus(b.blue.minus(a.blue).times(t)),
        alpha: a.alpha.plus(b.alpha.minus(a.alpha).times(t)),
    }
}

/// At which share of the range of heights the ground takes colour `i`, in hundredths.
pub open spec fn stop_hundredths(i: int) -> i64 {
    if i == 0 {
        0
    } else if i == 1 {
        30
    } else if i == 2 {
        55
    } else if i == 3 {
        80
    } else {
        100
    }
}

pub open spec fn stop_at<S: Scalar>(i: int) -> S {
    S::ratio_of(stop_hundredths(i), 100)
}

/// Colour `i` of the ground: dark green, green, tan, brown, and the grey of the peaks.
pub open spec fn stop_color<S: Scalar>(i: int) -> LinearRgba<S> {
    if i == 0 {
        LinearRgba::hundredths(15, 35, 10)
    } else if i == 1 {
        LinearRgba::hundredths(25, 55, 15)
    } else if i == 2 {
        LinearRgba::hundredths(55, 50, 20)
    } else if i == 3 {
        LinearRgba::hundredths(40, 28, 15)
    } else {
        LinearRgba::hundredths(85, 83, 80)
    }
}

/// The colour from which the ground at the share `t` of the range turns to the next.
pub open spec fn stop_before<S: Scalar>(t: S) -> int {
    if !stop_at::<S>(1).lt(t) {
        0
    } else if !stop_at::<S>(2).lt(t) {
        1
    } else if !stop_at::<S>(3).lt(t) {
        2
    } else {
        3
    }
}

/// The colour of the ground at the share `t` of the range of heights.
pub open spec fn ground_color_at<S: Scalar>(t: S) -> LinearRgba<S> {
    if t.le(stop_at(0)) {
        stop_color(0)
    } else if stop_at::<S>(4).le(t) {
        stop_color(4)
    } else {
        let i = stop_before(t);
        stop_color(i).blended(
            stop_color(i + 1),
            t.sub(stop_at(i)).div(stop_at::<S>(i + 1).sub(stop_at(i))),
        )
    }
}

fn color_stop<S: Scalar>(i: usize) -> (r: (S, LinearRgba<S>))
    requires
        i < 5,
    ensures
        r.0 == stop_at::<S>(i as int),
        r.1 == stop_color::<S>(i as int),
{
    match i {
        0 => (S::ratio(0, 100), LinearRgba::of_hundredths(15, 35, 10)),
        1 => (S::ratio(30, 100), LinearRgba::of_hundredths(25, 55, 15)),
        2 => (S::ratio(55, 100), LinearRgba::of_hundredths(55, 50, 20)),
        3 => (S::ratio(80, 100), LinearRgba::of_hundredths(40, 28, 15)),
        _ => (S::ratio(100, 100), LinearRgba::of_hundredths(85, 83, 80)),
    }
}

/// The colour of the ground at the share `t` of the range of heights.
pub fn ground_color<S: Scalar>(t: S) -> (r: LinearRgba<S>)
    ensures
        r == ground_color_at(t),
{
    let (bottom, lowest): (S, LinearRgba<S>) = color_stop(0);
    let (top, highest): (S, LinearRgba<S>) = color_stop(4);
    if t.at_most(bottom) {
        return lowest;
    }
    if top.at_most(t) {
        return highest;
    }
    let mut lo: usize = 0;
    while lo < 3 && color_stop::<S>(lo + 1).0.below(t)
        invariant
            lo <= 3,
            lo >= 1 ==> stop_at::<S>(1).lt(t),
            lo >= 2 ==> stop_at::<S>(2).lt(t),
            lo >= 3 ==> stop_at::<S>(3).lt(t),
        ensures
            lo == stop_before(t),
        decreases 3 - lo,
    {
        lo = lo + 1;
    }
    let (from, a): (S, LinearRgba<S>) = color_stop(lo);
    let (to, b): (S, LinearRgba<S>) = color_stop(lo + 1);
    lerp_color(a, b, t.minus(from).over(to.minus(from)))
}

// ---- heights ----

/// The lowest of all heights.
pub open spec fn lowest_of<S: Scalar>(heights: Seq<S>) -> S
    decreases heights.len(),
{
    if heights.len() == 0 {
        S::top()
    } else {
        scalar::smaller_of(lowest_of(heights.drop_last()), heights.last())
    }
}

/// The highest of all heights.
pub open spec fn highest_of<S: Scalar>(heights: Seq<S>) -> S
    decreases heights.len(),
{
    if heights.len() == 0 {
        S::bottom()
    } else {
        scalar::larger_of(highest_of(heights.drop_last()), heights.last())
    }
}

/// Where `h` lies between the lowest and the highest height, from zero to one; half way
/// where all are level.
pub open spec fn share_of_range<S: Scalar>(h: S, low: S, high: S) -> S {
    let range = high.sub(low);
    if scalar::zero::<S>().lt(range) {
        scalar::clamped(h.sub(low).div(range), scalar::zero(), scalar::one())
    } else {
        S::ratio_of(1, 2)
    }
}

fn height_range<S: Scalar>(heights: &Vec<S>) -> (r: (S, S))
    ensures
        r.0 == lowest_of(heights@),
        r.1 == highest_of(heights@),
{
    let mut low: S = S::greatest();
    let mut high: S = S::least();
    let mut i: usize = 0;
    assert(heights@.take(0) =~= Seq::empty());
    while i < heights.len()
        invariant
            i <= heights.len(),
            low == lowest_of(heights@.take(i as int)),
            high == highest_of(heights@.take(i as int)),
        decreases heights.len() - i,
    {
        assert(heights@.take(i + 1).drop_last() =~= heights@.take(i as int));
        low = smaller(low, heights[i]);
        high = larger(high, heights[i]);
        i = i + 1;
    }
    assert(heights@.take(i as int) =~= heights@);
    (low, high)
}

/// The colour of each vertex, by where its height lies in the range of all.
pub fn ground_colors<S: Scalar>(heights: &Vec<S>) -> (r: Vec<LinearRgba<S>>)
    ensures
        r@ == Seq::new(
            heights@.len(),
            |v: int|
                ground_color_at(
                    share_of_range(heights@[v], lowest_of(heights@), highest_of(heights@)),
                ),
        ),
{
    let (low, high): (S, S) = height_range(heights);
    let range: S = high.minus(low);
    let mut colors: Vec<LinearRgba<S>> = Vec::with_capacity(heights.len());
    while colors.len() < heights.len()
        invariant
            colors.len() <= heights.len(),
            low == lowest_of(heights@),
            high == highest_of(heights@),
            range == high.sub(low),
            forall|v: int|
                0 <= v < colors.len() ==> #[trigger] colors@[v] == ground_color_at(
                    share_of_range(heights@[v], low, high),
                ),
        decreases heights.len() - colors.len(),
    {
        let h: S = heights[colors.len()];
        let t: S = if S::ratio(0, 1).below(range) {
            clamp(h.minus(low).over(range), S::ratio(0, 1), S::ratio(1, 1))
        } else {
            S::ratio(1, 2)
        };
        colors.push(ground_color(t));
    }
    assert(colors@ =~= Seq::new(
        heights@.len(),
        |v: int| ground_color_at(share_of_range(heights@[v], low, high)),
    ));
    colors
}

/// Whether any two of some numbers can be told apart by size.
pub open spec fn all_comparable<S: Scalar>(numbers: Seq<S>) -> bool {
    forall|i: int, j: int|
        0 <= i < numbers.len() && 0 <= j < numbers.len() ==> (#[trigger] numbers[i]).le(
            #[trigger] numbers[j],
        ) || numbers[j].le(numbers[i])
}

/// Whether a number is held between the bounds of all numbers, and is equal to itself.
pub open spec fn bounded<S: Scalar>(a: S) -> bool {
    S::bottom().le(a) && a.le(S::top()) && a.same(a)
}

/// Where the numbers are ordered and the heights can be compared, none lies below the
/// lowest or above the highest, and these are heights themselves.
pub proof fn heights_lie_in_range<S: Scalar>(heights: Seq<S>)
    requires
        scalar::ordered::<S>(),
        all_comparable(heights),
        forall|i: int| 0 <= i < heights.len() ==> bounded(#[trigger] heights[i]),
        S::top().same(S::top()),
        S::bottom().same(S::bottom()),
    ensures
        forall|i: int|
            0 <= i < heights.len() ==> lowest_of(heights).le(#[trigger] heights[i])
                && heights[i].le(highest_of(heights)),
        lowest_of(heights) == S::top() || heights.contains(lowest_of(heights)),
        highest_of(heights) == S::bottom() || heights.contains(highest_of(heights)),
    decreases heights.len(),
{
    if heights.len() > 0 {
        let rest = heights.drop_last();
        let last = heights.last();
        assert(last == heights[heights.len() - 1]);
        assert forall|i: int| 0 <= i < rest.len() implies bounded(#[trigger] rest[i]) by {
            assert(bounded(heights[i]));
        }
        assert forall|i: int, j: int| 0 <= i < rest.len() && 0 <= j < rest.len() implies (
        #[trigger] rest[i]).le(#[trigger] rest[j]) || rest[j].le(rest[i]) by {
            assert(heights[i].le(heights[j]) || heights[j].le(heights[i]));
        }
        heights_lie_in_range(rest);
        let low = lowest_of(rest);
        let high = highest_of(rest);
        assert(bounded(last));
        if rest.contains(low) {
            let k = choose|k: int| 0 <= k < rest.len() && rest[k] == low;
            assert(heights[k] == low);
            assert(bounded(heights[k]));
        }
        if rest.contains(high) {
            let k = choose|k: int| 0 <= k < rest.len() && rest[k] == high;
            assert(heights[k] == high);
            assert(bounded(heights[k]));
        }
        assert forall|i: int| 0 <= i < heights.len() implies lowest_of(heights).le(
            #[trigger] heights[i],
        ) && heights[i].le(highest_of(heights)) by {
            if i < rest.len() {
                assert(low.le(rest[i]) && rest[i].le(high));
            } else {
                assert(last.le(last));
            }
        }
    }
}

/// In fixed-point numbers, where the heights have a range, the lowest takes the first
/// colour and the highest the last.
pub proof fn extremes_take_the_end_colors(low: Fixed, high: Fixed)
    requires
        scalar::zero::<Fixed>().lt(high.sub(low)),
    ensures
        ground_color_at(share_of_range(low, low, high)) == stop_color::<Fixed>(0),
        ground_color_at(share_of_range(high, low, high)) == stop_color::<Fixed>(4),
{
    let range = high.sub(low).raw as int;
    assert(scalar::zero::<Fixed>().raw == 0);
    assert(scalar::one::<Fixed>().raw == 65536);
    assert(stop_at::<Fixed>(0).raw == 0);
    assert(stop_at::<Fixed>(4).raw == 65536);
    assert(low.sub(low).raw == 0);
    assert(0int / range == 0) by (nonlinear_arith)
        requires
            range > 0,
    ;
    assert((range * 65536) / range == 65536) by (nonlinear_arith)
        requires
            range > 0,
    ;
}

/// In fixed-point numbers, of two heights the higher lies no lower in the range.
pub proof fn higher_ground_lies_higher_in_range(a: Fixed, b: Fixed, low: Fixed, high: Fixed)
    requires
        low.raw <= a.raw <= b.raw,
        0 < high.raw - low.raw <= i64::MAX,
        b.raw - low.raw <= i64::MAX,
    ensures
        0 <= share_of_range(a, low, high).raw <= share_of_range(b, low, high).raw
            <= scalar::one::<Fixed>().raw,
{
    assert(scalar::zero::<Fixed>().raw == 0);
    assert(scalar::one::<Fixed>().raw == 65536);
    let range = high.raw - low.raw;
    let p = (a.raw - low.raw) * 65536;
    let q = (b.raw - low.raw) * 65536;
    assert(0 <= p / range <= q / range) by (nonlinear_arith)
        requires
            0 <= p <= q,
            range > 0,
    ;
}

/// In fixed-point numbers a blend starts at the one colour and ends at the other.
pub proof fn blends_go_from_end_to_end(a: LinearRgba<Fixed>, b: LinearRgba<Fixed>)
    requires
        small_color(a),
        small_color(b),
    ensures
        a.blended(b, scalar::zero()) == a,
        a.blended(b, scalar::one()) == b,
{
    assert(scalar::zero::<Fixed>() == (Fixed { raw: 0 }));
    assert(scalar::one::<Fixed>() == (Fixed { raw: 0x1_0000 }));
    lemma_blend(a.red, b.red);
    lemma_blend(a.green, b.green);
    lemma_blend(a.blue, b.blue);
    lemma_blend(a.alpha, b.alpha);
}

/// Whether `c` lies between `a` and `b`, whichever is larger.
pub open spec fn lies_between(c: Fixed, a: Fixed, b: Fixed) -> bool {
    a.raw <= c.raw <= b.raw || b.raw <= c.raw <= a.raw
}

proof fn lemma_blend_lies_between(a: Fixed, b: Fixed, s: Fixed)
    requires
        -0x1000_0000 <= a.raw <= 0x1000_0000,
        -0x1000_0000 <= b.raw <= 0x1000_0000,
        0 <= s.raw <= 0x1_0000,
    ensures
        lies_between(a.add(b.sub(a).mul(s)), a, b),
{
    let d = b.raw - a.raw;
    let k = s.raw as int;
    assert(b.sub(a).raw == d);
    assert(d >= 0 ==> 0 <= d * k <= d * 65536) by (nonlinear_arith)
        requires
            0 <= k <= 65536,
    ;
    assert(d <= 0 ==> d * 65536 <= d * k <= 0) by (nonlinear_arith)
        requires
            0 <= k <= 65536,
    ;
}

/// In fixed-point numbers, the ground between two stops has a colour between theirs.
pub proof fn ground_colors_lie_between_stops(t: Fixed, i: int)
    requires
        0 <= i < 4,
        stop_at::<Fixed>(i).raw < t.raw <= stop_at::<Fixed>(i + 1).raw,
    ensures
        ({
            let c = ground_color_at(t);
            let a = stop_color::<Fixed>(i);
            let b = stop_color::<Fixed>(i + 1);
            &&& lies_between(c.red, a.red, b.red)
            &&& lies_between(c.green, a.green, b.green)
            &&& lies_between(c.blue, a.blue, b.blue)
            &&& c.alpha == scalar::one::<Fixed>()
        }),
{
    assert(stop_at::<Fixed>(0).raw == 0);
    assert(stop_at::<Fixed>(1).raw == 19660);
    assert(stop_at::<Fixed>(2).raw == 36044);
    assert(stop_at::<Fixed>(3).raw == 52428);
    assert(stop_at::<Fixed>(4).raw == 65536);
    assert(scalar::one::<Fixed>().raw == 65536);
    let a = stop_color::<Fixed>(i);
    let b = stop_color::<Fixed>(i + 1);
    lemma_stop_colors_are_small(i);
    lemma_stop_colors_are_small(i + 1);
    if t.raw < 65536 {
        assert(stop_before(t) == i);
        let from = stop_at::<Fixed>(i);
        let to = stop_at::<Fixed>(i + 1);
        let part = (t.raw - from.raw) * 65536;
        let whole = to.raw - from.raw;
        assert(0 <= part / whole <= 65536) by (nonlinear_arith)
            requires
                0 <= part <= whole * 65536,
                whole > 0,
        ;
        let s = t.sub(from).div(to.sub(from));
        assert(s.raw == part / whole);
        lemma_blend_lies_between(a.red, b.red, s);
        lemma_blend_lies_between(a.green, b.green, s);
        lemma_blend_lies_between(a.blue, b.blue, s);
        lemma_blend_lies_between(a.alpha, b.alpha, s);
    }
}

proof fn lemma_stop_colors_are_small(i: int)
    requires
        0 <= i <= 4,
    ensures
        small_color(stop_color::<Fixed>(i)),
        stop_color::<Fixed>(i).alpha == scalar::one::<Fixed>(),
{
    assert(scalar::one::<Fixed>().raw == 65536);
    lemma_hundredth_is_small(stop_color_parts(i).0);
    lemma_hundredth_is_small(stop_color_parts(i).1);
    lemma_hundredth_is_small(stop_color_parts(i).2);
}

spec fn stop_color_parts(i: int) -> (i64, i64, i64) {
    if i == 0 {
        (15, 35, 10)
    } else if i == 1 {
        (25, 55, 15)
    } else if i == 2 {
        (55, 50, 20)
    } else if i == 3 {
        (40, 28, 15)
    } else {
        (85, 83, 80)
    }
}

proof fn lemma_hundredth_is_small(n: i64)
    requires
        0 <= n <= 100,
    ensures
        0 <= Fixed::ratio_of(n, 100).raw <= 65536,
{
}

/// Whether the parts of a colour are of a size that leaves room for their products.
pub open spec fn small_color(c: LinearRgba<Fixed>) -> bool {
    &&& -0x1000_0000 <= c.red.raw <= 0x1000_0000
    &&& -0x1000_0000 <= c.green.raw <= 0x1000_0000
    &&& -0x1000_0000 <= c.blue.raw <= 0x1000_0000
    &&& -0x1000_0000 <= c.alpha.raw <= 0x1000_0000
}

proof fn lemma_blend(a: Fixed, b: Fixed)
    requires
        -0x1000_0000 <= a.raw <= 0x1000_0000,
        -0x1000_0000 <= b.raw <= 0x1000_0000,
    ensures
        a.add(b.sub(a).mul(Fixed { raw: 0 })) == a,
        a.add(b.sub(a).mul(Fixed { raw: 0x1_0000 })) == b,
{
    let d = b.sub(a);
    slopes::lemma_unit_products(d);
}

/// In fixed-point numbers each octave is sampled twice as finely as the one before it, and
/// weighs half as much.
pub proof fn octaves_double_and_halve(k: nat)
    requires
        k < OCTAVES,
    ensures
        frequency::<Fixed>(k).raw == 983 * vstd::arithmetic::power2::pow2(k),
        octave_weight::<Fixed>(k).raw * vstd::arithmetic::power2::pow2(k) == 0x1_0000,
    decreases k,
{
    vstd::arithmetic::power2::lemma2_to64();
    assert(config::noise_step::<Fixed>().raw == 983);
    assert(config::octave_gap::<Fixed>().raw == 131072);
    assert(config::octave_fade::<Fixed>().raw == 32768);
    assert(scalar::one::<Fixed>().raw == 65536);
    if k > 0 {
        octaves_double_and_halve((k - 1) as nat);
        let f = frequency::<Fixed>((k - 1) as nat).raw as int;
        let w = octave_weight::<Fixed>((k - 1) as nat).raw as int;
        assert(k == 1 || k == 2 || k == 3 || k == 4 || k == 5);
        assert((f * 131072) / 65536 == 2 * f);
        assert((w * 32768) / 65536 == w / 2);
    }
}

// ---- triangles ----

/// Entry `k` of the index list of a square of `size * size` squares: each square, row after
/// row, has two triangles.
pub open spec fn corner(size: int, k: int) -> int {
    let square = k / 6;
    let first = (square / size) * (size + 1) + square % size;
    let c = k % 6;
    if c == 0 {
        first
    } else if c == 1 || c == 4 {
        first + size + 1
    } else if c == 2 || c == 3 {
        first + 1
    } else {
        first + size + 2
    }
}

/// Every entry of the index list is a vertex.
pub proof fn corners_are_vertices(size: int, k: int)
    requires
        0 <= k < 6 * size * size,
        0 <= size,
    ensures
        0 <= corner(size, k) < (size + 1) * (size + 1),
{
    let square = k / 6;
    assert(size > 0 && square < size * size) by (nonlinear_arith)
        requires
            0 <= size,
            0 <= k < 6 * size * size,
            square == k / 6,
    ;
    let z = square / size;
    let x = square % size;
    vstd::arithmetic::div_mod::lemma_fundamental_div_mod(square, size);
    vstd::arithmetic::div_mod::lemma_mod_bound(square, size);
    assert(0 <= z < size) by (nonlinear_arith)
        requires
            square == size * z + x,
            0 <= x < size,
            0 <= square < size * size,
    ;
    assert(0 <= z * (size + 1) && z * (size + 1) + x + size + 2 < (size + 1) * (size + 1))
        by (nonlinear_arith)
        requires
            0 <= z < size,
            0 <= x < size,
    ;
}

/// The three corners of a triangle are three vertices.
pub proof fn corners_are_distinct(size: int, m: int)
    requires
        0 <= m < 2 * size * size,
        0 <= size,
    ensures
        corner(size, 3 * m) != corner(size, 3 * m + 1),
        corner(size, 3 * m + 1) != corner(size, 3 * m + 2),
        corner(size, 3 * m) != corner(size, 3 * m + 2),
{
    assert(size > 0) by (nonlinear_arith)
        requires
            0 <= size,
            0 <= m < 2 * size * size,
    ;
    assert((3 * m) / 6 == (3 * m + 1) / 6 && (3 * m) / 6 == (3 * m + 2) / 6);
}

/// Every vertex is a corner of some triangle, where there is a square at all.
pub proof fn vertices_are_corners(size: int, v: int)
    requires
        0 < size,
        0 <= v < (size + 1) * (size + 1),
    ensures
        exists|k: int| 0 <= k < 6 * size * size && #[trigger] corner(size, k) == v,
{
    let n = size + 1;
    let x = v % n;
    let z = v / n;
    vstd::arithmetic::div_mod::lemma_fundamental_div_mod(v, n);
    vstd::arithmetic::div_mod::lemma_mod_bound(v, n);
    assert(0 <= z < n) by (nonlinear_arith)
        requires
            v == n * z + x,
            0 <= x < n,
            0 <= v < n * n,
    ;
    let sx = if x < size {
        x
    } else {
        size - 1
    };
    let sz = if z < size {
        z
    } else {
        size - 1
    };
    let square = sz * size + sx;
    vstd::arithmetic::div_mod::lemma_fundamental_div_mod_converse(square, size, sz, sx);
    let c: int = if x < size && z < size {
        0
    } else if z < size {
        2
    } else if x < size {
        1
    } else {
        5
    };
    let k = 6 * square + c;
    assert(0 <= square < size * size) by (nonlinear_arith)
        requires
            square == sz * size + sx,
            0 <= sz < size,
            0 <= sx < size,
    ;
    assert(0 <= k < 6 * size * size) by (nonlinear_arith)
        requires
            0 <= square < size * size,
            k == 6 * square + c,
            0 <= c < 6,
    ;
    assert(k / 6 == square && k % 6 == c);
    assert(n * z == z * n) by (nonlinear_arith);
    assert(z == sz + 1 ==> z * n == sz * n + n) by (nonlinear_arith);
    assert(corner(size, k) == v);
}

/// The index list of a square of `size * size` squares.
pub fn grid_indices(size: usize) -> (r: Vec<u32>)
    requires
        (size + 1) * (size + 1) <= u32::MAX,
        6 * size * size <= usize::MAX,
    ensures
        r@.len() == 6 * size * size,
        forall|k: int| 0 <= k < r@.len() ==> #[trigger] r@[k] == corner(size as int, k),
{
    assert(size < 0x1_0000) by (nonlinear_arith)
        requires
            (size + 1) * (size + 1) <= 0xffff_ffff,
    ;
    let n: u32 = size as u32 + 1;
    let mut indices: Vec<u32> = Vec::new();
    let mut z: usize = 0;
    while z < size
        invariant
            n == size + 1,
            n * n <= u32::MAX,
            z <= size,
            indices@.len() == 6 * (z * size),
            forall|k: int|
                0 <= k < indices@.len() ==> #[trigger] indices@[k] == corner(size as int, k),
        decreases size - z,
    {
        let mut x: usize = 0;
        assert(6 * (z * size + size) == 6 * ((z + 1) * size)) by (nonlinear_arith);
        while x < size
            invariant
                n == size + 1,
                n * n <= u32::MAX,
                z < size,
                x <= size,
                indices@.len() == 6 * (z * size + x),
                forall|k: int|
                    0 <= k < indices@.len() ==> #[trigger] indices@[k] == corner(size as int, k),
            decreases size - x,
        {
            assert(0 <= z * n && z * n + x + n + 1 < n * n) by (nonlinear_arith)
                requires
                    0 <= z < size,
                    0 <= x < size,
                    n == size + 1,
            ;
            let a: u32 = z as u32 * n + x as u32;
            let b: u32 = a + 1;
            let c: u32 = a + n;
            let d: u32 = c + 1;
            let ghost square = z * size + x;
            proof {
                vstd::arithmetic::div_mod::lemma_fundamental_div_mod_converse(
                    square,
                    size as int,
                    z as int,
                    x as int,
                );
            }
            indices.push(a);
            indices.push(c);
            indices.push(b);
            indices.push(b);
            indices.push(c);
            indices.push(d);
            assert forall|k: int| 0 <= k < indices@.len() implies #[trigger] indices@[k] == corner(
                size as int,
                k,
            ) by {
                if k >= 6 * square {
                    assert(k / 6 == square && k % 6 == k - 6 * square);
                }
            }
            x = x + 1;
        }
        z = z + 1;
    }
    assert(6 * (size * size) == 6 * size * size) by (nonlinear_arith);
    indices
}

// ---- normals ----

/// The normal of triangle `m`, as long as twice its area.
pub open spec fn face_normal<S: Scalar>(positions: Seq<Vec3<S>>, size: int, m: int) -> Vec3<S> {
    let a = positions[corner(size, 3 * m)];
    let b = positions[corner(size, 3 * m + 1)];
    let c = positions[corner(size, 3 * m + 2)];
    b.sub(a).outer(c.sub(a))
}

pub open spec fn has_corner(size: int, m: int, v: int) -> bool {
    corner(size, 3 * m) == v || corner(size, 3 * m + 1) == v || corner(size, 3 * m + 2) == v
}

/// The normals of those of the first `m` triangles that meet in vertex `v`, added up.
pub open spec fn normals_met<S: Scalar>(
    positions: Seq<Vec3<S>>,
    size: int,
    v: int,
    m: nat,
) -> Vec3<S>
    decreases m,
{
    if m == 0 {
        Vec3::zeros()
    } else {
        let met = normals_met(positions, size, v, (m - 1) as nat);
        if has_corner(size, m - 1, v) {
            met.add(face_normal(positions, size, m - 1))
        } else {
            met
        }
    }
}

fn add_at<S: Scalar>(sums: &mut Vec<Vec3<S>>, v: usize, normal: Vec3<S>)
    requires
        v < old(sums)@.len(),
    ensures
        final(sums)@ == old(sums)@.update(v as int, old(sums)@[v as int].add(normal)),
{
    let sum: Vec3<S> = sums[v];
    sums[v] = sum.plus(normal);
}

/// The normal of each vertex: the sum of those of the triangles that meet in it, brought
/// to length one.
pub fn smooth_normals<S: Scalar>(
    size: usize,
    positions: &Vec<Vec3<S>>,
    indices: &Vec<u32>,
) -> (r: Vec<Vec3<S>>)
    requires
        positions@.len() == (size + 1) * (size + 1),
        indices@.len() == 6 * size * size,
        forall|k: int|
            0 <= k < indices@.len() ==> #[trigger] indices@[k] == corner(size as int, k),
    ensures
        r@.len() == positions@.len(),
        forall|v: int|
            0 <= v < r@.len() ==> #[trigger] r@[v] == normals_met(
                positions@,
                size as int,
                v,
                (2 * size * size) as nat,
            ).direction_or_zero(),
{
    let mut sums: Vec<Vec3<S>> = Vec::with_capacity(positions.len());
    while sums.len() < positions.len()
        invariant
            sums.len() <= positions.len(),
            forall|v: int| 0 <= v < sums.len() ==> #[trigger] sums@[v] == Vec3::<S>::zeros(),
        decreases positions.len() - sums.len(),
    {
        sums.push(Vec3::zero());
    }
    let triangles: usize = indices.len() / 3;
    assert(indices@.len() == 3 * (2 * size * size)) by (nonlinear_arith)
        requires
            indices@.len() == 6 * size * size,
    ;
    let mut m: usize = 0;
    while m < triangles
        invariant
            m <= triangles,
            3 * triangles == indices.len(),
            triangles == 2 * size * size,
            positions@.len() == (size + 1) * (size + 1),
            indices@.len() == 6 * size * size,
            forall|k: int|
                0 <= k < indices@.len() ==> #[trigger] indices@[k] == corner(size as int, k),
            sums@.len() == positions@.len(),
            forall|v: int|
                0 <= v < sums@.len() ==> #[trigger] sums@[v] == normals_met(
                    positions@,
                    size as int,
                    v,
                    m as nat,
                ),
        decreases triangles - m,
    {
        proof {
            corners_are_vertices(size as int, 3 * m);
            corners_are_vertices(size as int, 3 * m + 1);
            corners_are_vertices(size as int, 3 * m + 2);
            corners_are_distinct(size as int, m as int);
        }
        let i0: usize = indices[3 * m] as usize;
        let i1: usize = indices[3 * m + 1] as usize;
        let i2: usize = indices[3 * m + 2] as usize;
        let a: Vec3<S> = positions[i0];
        let b: Vec3<S> = positions[i1];
        let c: Vec3<S> = positions[i2];
        let normal: Vec3<S> = b.minus(a).cross(c.minus(a));
        add_at(&mut sums, i0, normal);
        add_at(&mut sums, i1, normal);
        add_at(&mut sums, i2, normal);
        m = m + 1;
    }
    let mut normals: Vec<Vec3<S>> = Vec::with_capacity(sums.len());
    while normals.len() < sums.len()
        invariant
            normals.len() <= sums.len(),
            forall|v: int|
                0 <= v < normals.len() ==> #[trigger] normals@[v] == sums@[v].direction_or_zero(),
        decreases sums.len() - normals.len(),
    {
        normals.push(sums[normals.len()].normalize_or_zero());
    }
    normals
}

// ---- the mesh ----

/// A mesh of triangles.
#[derive(Debug)]
pub struct Surface<S> {
    pub positions: Vec<Vec3<S>>,
    pub normals: Vec<Vec3<S>>,
    pub colors: Vec<LinearRgba<S>>,
    /// The corners of each triangle, three after three.
    pub indices: Vec<u32>,
}

/// The heights that noise gives.
pub open spec fn heights_of<S: Scalar>(noise: Seq<S>) -> Seq<S> {
    Seq::new(noise.len(), |v: int| noise[v].mul(config::amplitude()))
}

/// Where the vertices lie, row after row, `n` of them along a side.
pub open spec fn vertices<S: Scalar>(n: int, heights: Seq<S>) -> Seq<Vec3<S>> {
    Seq::new(
        heights.len(),
        |v: int|
            Vec3 {
                x: S::of_index((v % n) as usize).mul(config::cell_side()),
                y: heights[v],
                z: S::of_index((v / n) as usize).mul(config::cell_side()),
            },
    )
}

/// The mesh over a square of `size * size` squares, given the noise at each vertex.
pub fn generate_terrain_mesh<S: Scalar>(size: usize, noise: &Vec<S>) -> (r: Surface<S>)
    requires
        noise@.len() == (size + 1) * (size + 1),
        (size + 1) * (size + 1) <= u32::MAX,
        6 * size * size <= usize::MAX,
    ensures
        r.positions@ == vertices(size + 1, heights_of(noise@)),
        r.normals@ == Seq::new(
            noise@.len(),
            |v: int|
                normals_met(
                    r.positions@,
                    size as int,
                    v,
                    (2 * size * size) as nat,
                ).direction_or_zero(),
        ),
        r.colors@ == Seq::new(
            noise@.len(),
            |v: int|
                ground_color_at(
                    share_of_range(
                        heights_of(noise@)[v],
                        lowest_of(heights_of(noise@)),
                        highest_of(heights_of(noise@)),
                    ),
                ),
        ),
        r.indices@.len() == 6 * size * size,
        forall|k: int|
            0 <= k < r.indices@.len() ==> #[trigger] r.indices@[k] == corner(size as int, k),
{
    assert((size + 1) * (size + 1) >= size + 1) by (nonlinear_arith)
        requires
            size >= 0,
    ;
    let n: usize = size + 1;
    let mut heights: Vec<S> = Vec::with_capacity(noise.len());
    let mut positions: Vec<Vec3<S>> = Vec::with_capacity(noise.len());
    let mut v: usize = 0;
    while v < noise.len()
        invariant
            v <= noise.len(),
            n == size + 1,
            heights@.len() == v,
            positions@.len() == v,
            forall|u: int|
                0 <= u < v ==> #[trigger] heights@[u] == noise@[u].mul(config::amplitude()),
            forall|u: int|
                0 <= u < v ==> #[trigger] positions@[u] == vertices(
                    n as int,
                    heights_of(noise@),
                )[u],
        decreases noise.len() - v,
    {
        let h: S = noise[v].times(config::height_amp());
        heights.push(h);
        positions.push(
            Vec3 {
                x: S::from_index(v % n).times(config::cell_size()),
                y: h,
                z: S::from_index(v / n).times(config::cell_size()),
            },
        );
        v = v + 1;
    }
    assert(heights@ =~= heights_of(noise@));
    assert(positions@ =~= vertices(n as int, heights_of(noise@)));
    let colors: Vec<LinearRgba<S>> = ground_colors(&heights);
    let indices: Vec<u32> = grid_indices(size);
    let normals: Vec<Vec3<S>> = smooth_normals(size, &positions, &indices);
    assert(normals@ =~= Seq::new(
        noise@.len(),
        |v: int|
            normals_met(
                positions@,
                size as int,
                v,
                (2 * size * size) as nat,
            ).direction_or_zero(),
    ));
    Surface { positions, normals, colors, indices }
}

} // verus!
