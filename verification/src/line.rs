//! The discrete line between two integer points, as a mathematical object.
//!
//! A line from `(x0, y0)` to `(x1, y1)` is sampled once per unit step along
//! its longer axis. Sample `k` sits `k` units from the start on that axis
//! and, on the other axis, at the exact line's height rounded to the nearest
//! integer, a tie going away from the start.

use vstd::prelude::*;
use vstd::arithmetic::div_mod::lemma_fundamental_div_mod_converse;

verus! {

/// Distance between two coordinates.
pub open spec fn span(from: int, to: int) -> int {
    if from <= to {
        to - from
    } else {
        from - to
    }
}

/// The coordinate `k` units away from `from`, walking towards `to`
/// (downwards when `to` does not lie above `from`).
pub open spec fn advance(from: int, to: int, k: int) -> int {
    if from < to {
        from + k
    } else {
        from - k
    }
}

/// How far `at` lies from `from`, measured in the walking direction of
/// `advance(from, to, _)`.
pub open spec fn offset(from: int, to: int, at: int) -> int {
    if from < to {
        at - from
    } else {
        from - at
    }
}

/// The quotient `n / d` rounded to the nearest integer, halves rounded up;
/// zero when `d` is not positive.
pub open spec fn nearest(n: int, d: int) -> int {
    if d > 0 {
        (2 * n + d) / (2 * d)
    } else {
        0
    }
}

/// Number of unit steps from the first sample of the line to the last.
pub open spec fn line_steps(x0: int, y0: int, x1: int, y1: int) -> int {
    if span(x0, x1) >= span(y0, y1) {
        span(x0, x1)
    } else {
        span(y0, y1)
    }
}

/// Sample number `k` of the line from `(x0, y0)` to `(x1, y1)`.
pub open spec fn line_point(x0: int, y0: int, x1: int, y1: int, k: int) -> (int, int) {
    let a = span(x0, x1);
    let b = span(y0, y1);
    if a >= b {
        (advance(x0, x1, k), advance(y0, y1, nearest(b * k, a)))
    } else {
        (advance(x0, x1, nearest(a * k, b)), advance(y0, y1, k))
    }
}

/// The only sample number at which the line could pass through `(px, py)`:
/// the point's offset from the start along the longer axis.
pub open spec fn major_index(x0: int, y0: int, x1: int, y1: int, px: int, py: int) -> int {
    if span(x0, x1) >= span(y0, y1) {
        offset(x0, x1, px)
    } else {
        offset(y0, y1, py)
    }
}

/// Whether `(px, py)` is one of the first `n` samples of the line.
pub open spec fn among_first(
    x0: int,
    y0: int,
    x1: int,
    y1: int,
    n: int,
    px: int,
    py: int,
) -> bool {
    let k = major_index(x0, y0, x1, y1, px, py);
    &&& 0 <= k < n
    &&& k <= line_steps(x0, y0, x1, y1)
    &&& line_point(x0, y0, x1, y1, k) == (px, py)
}

/// Whether `(px, py)` is a sample of the line from `(x0, y0)` to `(x1, y1)`.
pub open spec fn on_line(x0: int, y0: int, x1: int, y1: int, px: int, py: int) -> bool {
    among_first(x0, y0, x1, y1, line_steps(x0, y0, x1, y1) + 1, px, py)
}

/// The points that the line from `(x0, y0)` to `(x1, y1)` passes through.
pub open spec fn line_pixels(x0: int, y0: int, x1: int, y1: int) -> Set<(int, int)> {
    Set::new(|p: (int, int)| on_line(x0, y0, x1, y1, p.0, p.1))
}

/// The first `n` samples of the line, as a set.
pub open spec fn first_samples(x0: int, y0: int, x1: int, y1: int, n: int) -> Set<(int, int)> {
    Set::new(|p: (int, int)| among_first(x0, y0, x1, y1, n, p.0, p.1))
}

/// `q` is `nearest(n, d)` exactly when `2n + d` falls in the `q`-th window of
/// width `2d`.
pub proof fn lemma_nearest_unique(n: int, d: int, q: int, dq: int)
    requires
        d > 0,
        dq == d * q,
        2 * dq <= 2 * n + d < 2 * dq + 2 * d,
    ensures
        nearest(n, d) == q,
{
    assert(q * (2 * d) == 2 * dq) by (nonlinear_arith)
        requires
            dq == d * q,
    ;
    lemma_fundamental_div_mod_converse(2 * n + d, 2 * d, q, 2 * n + d - 2 * dq);
}

/// The window that `nearest(n, d)` falls in: the converse of
/// `lemma_nearest_unique`.
pub proof fn lemma_nearest_window(n: int, d: int)
    requires
        d > 0,
    ensures
        2 * (d * nearest(n, d)) <= 2 * n + d < 2 * (d * nearest(n, d)) + 2 * d,
{
    let q = nearest(n, d);
    vstd::arithmetic::div_mod::lemma_fundamental_div_mod(2 * n + d, 2 * d);
    vstd::arithmetic::div_mod::lemma_mod_bound(2 * n + d, 2 * d);
    assert((2 * d) * q == 2 * (d * q)) by (nonlinear_arith);
}

/// Sample 0 is the start of the line.
pub proof fn lemma_line_starts(x0: int, y0: int, x1: int, y1: int)
    ensures
        line_point(x0, y0, x1, y1, 0) == (x0, y0),
        on_line(x0, y0, x1, y1, x0, y0),
{
    let a = span(x0, x1);
    let b = span(y0, y1);
    assert(b * 0 == 0 && a * 0 == 0) by (nonlinear_arith);
    if a > 0 {
        lemma_nearest_unique(0, a, 0, 0);
    }
    if b > 0 {
        lemma_nearest_unique(0, b, 0, 0);
    }
}

/// The last sample is the end of the line.
pub proof fn lemma_line_ends(x0: int, y0: int, x1: int, y1: int)
    ensures
        line_point(x0, y0, x1, y1, line_steps(x0, y0, x1, y1)) == (x1, y1),
        on_line(x0, y0, x1, y1, x1, y1),
{
    let a = span(x0, x1);
    let b = span(y0, y1);
    assert(b * a == a * b) by (nonlinear_arith);
    if a >= b {
        if a > 0 {
            lemma_nearest_unique(b * a, a, b, a * b);
        }
    } else {
        lemma_nearest_unique(a * b, b, a, b * a);
    }
}

/// A point is on the line exactly when some sample number within the line's
/// length yields it.
pub proof fn lemma_on_line_iff_sampled(x0: int, y0: int, x1: int, y1: int, px: int, py: int)
    ensures
        on_line(x0, y0, x1, y1, px, py) <==> exists|k: int|
            0 <= k <= line_steps(x0, y0, x1, y1) && #[trigger] line_point(x0, y0, x1, y1, k) == (
                px,
                py,
            ),
{
    if on_line(x0, y0, x1, y1, px, py) {
        let k = major_index(x0, y0, x1, y1, px, py);
        assert(0 <= k <= line_steps(x0, y0, x1, y1) && line_point(x0, y0, x1, y1, k) == (px, py));
    }
    if exists|k: int|
        0 <= k <= line_steps(x0, y0, x1, y1) && #[trigger] line_point(x0, y0, x1, y1, k) == (
            px,
            py,
        ) {
        let k = choose|k: int|
            0 <= k <= line_steps(x0, y0, x1, y1) && #[trigger] line_point(x0, y0, x1, y1, k) == (
                px,
                py,
            );
        assert(major_index(x0, y0, x1, y1, px, py) == k);
    }
}

/// A line whose two ends coincide consists of that one point.
pub proof fn lemma_degenerate_line(x: int, y: int, px: int, py: int)
    ensures
        line_steps(x, y, x, y) == 0,
        on_line(x, y, x, y, px, py) <==> (px == x && py == y),
{
    lemma_line_starts(x, y, x, y);
}

/// A horizontal line consists of the points of its row between its two ends.
pub proof fn lemma_horizontal_line(x0: int, x1: int, y: int, px: int, py: int)
    ensures
        on_line(x0, y, x1, y, px, py) <==> (py == y && (x0 <= px <= x1 || x1 <= px <= x0)),
{
    let a = span(x0, x1);
    let k = offset(x0, x1, px);
    assert(0 * k == 0) by (nonlinear_arith);
    if a > 0 {
        lemma_nearest_unique(0, a, 0, 0);
    }
}

/// A vertical line consists of the points of its column between its two ends.
pub proof fn lemma_vertical_line(x: int, y0: int, y1: int, px: int, py: int)
    ensures
        on_line(x, y0, x, y1, px, py) <==> (px == x && (y0 <= py <= y1 || y1 <= py <= y0)),
{
    let b = span(y0, y1);
    let k = offset(y0, y1, py);
    assert(0 * k == 0) by (nonlinear_arith);
    if b > 0 {
        lemma_nearest_unique(0, b, 0, 0);
    }
}

/// A line at 45 degrees consists of the points of its diagonal between its
/// two ends.
pub proof fn lemma_diagonal_line(x0: int, y0: int, x1: int, y1: int, k: int)
    requires
        span(x0, x1) == span(y0, y1),
        0 <= k <= span(x0, x1),
    ensures
        line_point(x0, y0, x1, y1, k) == (advance(x0, x1, k), advance(y0, y1, k)),
{
    let a = span(x0, x1);
    if a > 0 {
        lemma_nearest_unique(a * k, a, k, a * k);
    }
}

/// Every sample lies within the rectangle spanned by the two ends.
pub proof fn lemma_line_within_box(x0: int, y0: int, x1: int, y1: int, k: int)
    requires
        0 <= k <= line_steps(x0, y0, x1, y1),
    ensures
        x0 <= line_point(x0, y0, x1, y1, k).0 <= x1 || x1 <= line_point(x0, y0, x1, y1, k).0 <= x0,
        y0 <= line_point(x0, y0, x1, y1, k).1 <= y1 || y1 <= line_point(x0, y0, x1, y1, k).1 <= y0,
{
    let a = span(x0, x1);
    let b = span(y0, y1);
    if a >= b {
        if a > 0 {
            lemma_minor_bounds(b, a, k);
        }
    } else {
        lemma_minor_bounds(a, b, k);
    }
}

/// On the shorter axis a sample has moved between zero and the full extent
/// of that axis.
pub proof fn lemma_minor_bounds(minor: int, major: int, k: int)
    requires
        0 <= minor <= major,
        major > 0,
        0 <= k <= major,
    ensures
        0 <= nearest(minor * k, major) <= minor,
{
    let q = nearest(minor * k, major);
    lemma_nearest_window(minor * k, major);
    assert(0 <= minor * k <= minor * major) by (nonlinear_arith)
        requires
            0 <= minor,
            0 <= k <= major,
    ;
    assert(q >= 0) by (nonlinear_arith)
        requires
            major > 0,
            0 <= minor * k,
            2 * (minor * k) + major < 2 * (major * q) + 2 * major,
    ;
    assert(q <= minor) by (nonlinear_arith)
        requires
            major > 0,
            minor * k <= minor * major,
            2 * (major * q) <= 2 * (minor * k) + major,
    ;
}

/// From one sample to the next the line moves one unit along its longer axis
/// and at most one unit, never backwards, along its shorter axis: the samples
/// form a connected chain with no gaps.
pub proof fn lemma_line_connected(x0: int, y0: int, x1: int, y1: int, k: int)
    requires
        0 <= k < line_steps(x0, y0, x1, y1),
    ensures
        ({
            let p = line_point(x0, y0, x1, y1, k);
            let q = line_point(x0, y0, x1, y1, k + 1);
            let du = offset(x0, x1, q.0) - offset(x0, x1, p.0);
            let dv = offset(y0, y1, q.1) - offset(y0, y1, p.1);
            &&& 0 <= du <= 1
            &&& 0 <= dv <= 1
            &&& du == 1 || dv == 1
        }),
{
    let a = span(x0, x1);
    let b = span(y0, y1);
    if a >= b {
        lemma_minor_step(b, a, k);
    } else {
        lemma_minor_step(a, b, k);
    }
}

/// Between consecutive samples the shorter axis advances by zero or one.
pub proof fn lemma_minor_step(minor: int, major: int, k: int)
    requires
        0 <= minor <= major,
        major > 0,
    ensures
        nearest(minor * k, major) <= nearest(minor * (k + 1), major) <= nearest(minor * k, major)
            + 1,
{
    let q = nearest(minor * k, major);
    let r = nearest(minor * (k + 1), major);
    lemma_nearest_window(minor * k, major);
    lemma_nearest_window(minor * (k + 1), major);
    assert(minor * (k + 1) == minor * k + minor) by (nonlinear_arith);
    assert(r >= q) by (nonlinear_arith)
        requires
            major > 0,
            minor >= 0,
            2 * (major * q) <= 2 * (minor * k) + major,
            2 * (minor * k + minor) + major < 2 * (major * r) + 2 * major,
    ;
    assert(r <= q + 1) by (nonlinear_arith)
        requires
            major > 0,
            minor <= major,
            2 * (major * r) <= 2 * (minor * k + minor) + major,
            2 * (minor * k) + major < 2 * (major * q) + 2 * major,
    ;
}

/// The first `n` samples of a line are `n` different points.
pub proof fn lemma_first_samples_count(x0: int, y0: int, x1: int, y1: int, n: int)
    requires
        0 <= n <= line_steps(x0, y0, x1, y1) + 1,
    ensures
        first_samples(x0, y0, x1, y1, n).finite(),
        first_samples(x0, y0, x1, y1, n).len() == n,
    decreases n,
{
    if n == 0 {
        assert(first_samples(x0, y0, x1, y1, 0) =~= Set::<(int, int)>::empty());
    } else {
        lemma_first_samples_count(x0, y0, x1, y1, n - 1);
        let earlier = first_samples(x0, y0, x1, y1, n - 1);
        let last = line_point(x0, y0, x1, y1, n - 1);
        assert(major_index(x0, y0, x1, y1, last.0, last.1) == n - 1);
        assert(!earlier.contains(last));
        assert(first_samples(x0, y0, x1, y1, n) =~= earlier.insert(last));
    }
}

/// A line passes through one more point than it has steps: one point for
/// each unit along its longer axis, both ends included.
pub proof fn lemma_line_pixel_count(x0: int, y0: int, x1: int, y1: int)
    ensures
        line_pixels(x0, y0, x1, y1).finite(),
        line_pixels(x0, y0, x1, y1).len() == line_steps(x0, y0, x1, y1) + 1,
{
    let n = line_steps(x0, y0, x1, y1) + 1;
    lemma_first_samples_count(x0, y0, x1, y1, n);
    assert(line_pixels(x0, y0, x1, y1) =~= first_samples(x0, y0, x1, y1, n));
}

} // verus!
