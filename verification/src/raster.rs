//! Drawing into a flat pixel buffer.
//!
//! A buffer of `width * height` packed-RGB values holds the picture row by
//! row: the pixel in column `x` of row `y` is entry `y * width + x`.

use vstd::prelude::*;
use vstd::arithmetic::div_mod::lemma_fundamental_div_mod_converse;
use crate::line::{
    advance, among_first, lemma_degenerate_line, lemma_line_ends, lemma_line_starts,
    lemma_line_within_box, lemma_minor_bounds, lemma_nearest_unique, line_point, line_steps,
    major_index, on_line, span,
};

verus! {

/// Column of entry `i` in a buffer `width` pixels wide.
pub open spec fn column_of(i: int, width: int) -> int {
    i % width
}

/// Row of entry `i` in a buffer `width` pixels wide.
pub open spec fn row_of(i: int, width: int) -> int {
    i / width
}

/// A picture of `len` pixels, all of one color.
pub open spec fn blank(len: nat, color: u32) -> Seq<u32> {
    Seq::new(len, |i: int| color)
}

/// The picture `canvas` after the line from `(x0, y0)` to `(x1, y1)` has been
/// drawn on it in `color`: the pixels that the line passes through take the
/// color, all others keep theirs. Samples of the line that fall outside the
/// picture leave no mark.
pub open spec fn stroke(
    canvas: Seq<u32>,
    width: int,
    x0: int,
    y0: int,
    x1: int,
    y1: int,
    color: u32,
) -> Seq<u32> {
    Seq::new(
        canvas.len(),
        |i: int|
            if on_line(x0, y0, x1, y1, column_of(i, width), row_of(i, width)) {
                color
            } else {
                canvas[i]
            },
    )
}

/// `canvas` with the first `n` samples of the line drawn on it.
pub open spec fn partial_stroke(
    canvas: Seq<u32>,
    width: int,
    x0: int,
    y0: int,
    x1: int,
    y1: int,
    n: int,
    color: u32,
) -> Seq<u32> {
    Seq::new(
        canvas.len(),
        |i: int|
            if among_first(x0, y0, x1, y1, n, column_of(i, width), row_of(i, width)) {
                color
            } else {
                canvas[i]
            },
    )
}

/// Column `x` of row `y` is a valid entry of a `width * height` buffer, and
/// that entry's column and row are `x` and `y` again.
pub proof fn lemma_pixel_index(width: int, height: int, x: int, y: int)
    requires
        0 <= x < width,
        0 <= y < height,
    ensures
        0 <= y * width + x < width * height,
        column_of(y * width + x, width) == x,
        row_of(y * width + x, width) == y,
{
    assert(0 <= y * width && y * width + width <= width * height) by (nonlinear_arith)
        requires
            0 <= y < height,
            0 < width,
    ;
    lemma_fundamental_div_mod_converse(y * width + x, width, y, x);
}

/// Every entry of a `width * height` buffer has a column below `width` and a
/// row below `height`, and is the entry of that column and row.
pub proof fn lemma_pixel_coords(width: int, height: int, i: int)
    requires
        0 <= i < width * height,
        0 <= width,
        0 <= height,
    ensures
        0 <= column_of(i, width) < width,
        0 <= row_of(i, width) < height,
        row_of(i, width) * width + column_of(i, width) == i,
{
    assert(width > 0) by (nonlinear_arith)
        requires
            0 <= i < width * height,
            0 <= width,
    ;
    vstd::arithmetic::div_mod::lemma_fundamental_div_mod(i, width);
    vstd::arithmetic::div_mod::lemma_mod_bound(i, width);
    let r = i / width;
    assert(width * r == r * width) by (nonlinear_arith);
    assert(0 <= r < height) by (nonlinear_arith)
        requires
            0 <= i < width * height,
            width > 0,
            0 <= i - r * width < width,
    ;
}

/// A line whose two ends lie inside the picture passes through pixels of
/// the picture only, so none of its samples is skipped.
pub proof fn lemma_line_inside(
    width: int,
    height: int,
    x0: int,
    y0: int,
    x1: int,
    y1: int,
    px: int,
    py: int,
)
    requires
        0 <= x0 < width,
        0 <= x1 < width,
        0 <= y0 < height,
        0 <= y1 < height,
        on_line(x0, y0, x1, y1, px, py),
    ensures
        0 <= px < width,
        0 <= py < height,
{
    lemma_line_within_box(x0, y0, x1, y1, major_index(x0, y0, x1, y1, px, py));
}

/// What `stroke` leaves in column `x` of row `y`.
pub proof fn lemma_stroke_at(
    canvas: Seq<u32>,
    width: int,
    height: int,
    x0: int,
    y0: int,
    x1: int,
    y1: int,
    color: u32,
    x: int,
    y: int,
)
    requires
        canvas.len() == width * height,
        0 <= x < width,
        0 <= y < height,
    ensures
        stroke(canvas, width, x0, y0, x1, y1, color)[y * width + x] == if on_line(
            x0,
            y0,
            x1,
            y1,
            x,
            y,
        ) {
            color
        } else {
            canvas[y * width + x]
        },
{
    lemma_pixel_index(width, height, x, y);
}

/// Drawing a line whose two ends coincide sets that one pixel if it lies in
/// the picture, and changes nothing if it does not.
pub proof fn lemma_stroke_degenerate(
    canvas: Seq<u32>,
    width: int,
    height: int,
    x: int,
    y: int,
    color: u32,
)
    requires
        0 <= width,
        0 <= height,
        canvas.len() == width * height,
    ensures
        stroke(canvas, width, x, y, x, y, color) == if 0 <= x < width && 0 <= y < height {
            canvas.update(y * width + x, color)
        } else {
            canvas
        },
{
    let drawn = stroke(canvas, width, x, y, x, y, color);
    let inside = 0 <= x < width && 0 <= y < height;
    if inside {
        lemma_pixel_index(width, height, x, y);
    }
    assert forall|i: int| 0 <= i < canvas.len() implies drawn[i] == if inside && i == y * width
        + x {
        color
    } else {
        canvas[i]
    } by {
        lemma_pixel_coords(width, height, i);
        lemma_degenerate_line(x, y, column_of(i, width), row_of(i, width));
    }
    if inside {
        assert(drawn =~= canvas.update(y * width + x, color));
    } else {
        assert(drawn =~= canvas);
    }
}

/// The entries of a picture of `len` pixels that are among the first `n`
/// samples of the line.
pub open spec fn painted_first(
    width: int,
    len: int,
    x0: int,
    y0: int,
    x1: int,
    y1: int,
    n: int,
) -> Set<int> {
    Set::new(
        |i: int|
            0 <= i < len && among_first(x0, y0, x1, y1, n, column_of(i, width), row_of(i, width)),
    )
}

/// The entries of a picture of `len` pixels that the line passes through:
/// those that drawing the line sets.
pub open spec fn painted(width: int, len: int, x0: int, y0: int, x1: int, y1: int) -> Set<int> {
    painted_first(width, len, x0, y0, x1, y1, line_steps(x0, y0, x1, y1) + 1)
}

/// The first `n` samples of a line set at most `n` pixels, and exactly `n`
/// when both ends of the line lie inside the picture.
pub proof fn lemma_painted_first_count(
    width: int,
    height: int,
    x0: int,
    y0: int,
    x1: int,
    y1: int,
    n: int,
)
    requires
        0 <= width,
        0 <= height,
        0 <= n <= line_steps(x0, y0, x1, y1) + 1,
    ensures
        painted_first(width, width * height, x0, y0, x1, y1, n).finite(),
        painted_first(width, width * height, x0, y0, x1, y1, n).len() <= n,
        0 <= x0 < width && 0 <= x1 < width && 0 <= y0 < height && 0 <= y1 < height
            ==> painted_first(width, width * height, x0, y0, x1, y1, n).len() == n,
    decreases n,
{
    let len = width * height;
    if n == 0 {
        assert(painted_first(width, len, x0, y0, x1, y1, 0) =~= Set::<int>::empty());
    } else {
        lemma_painted_first_count(width, height, x0, y0, x1, y1, n - 1);
        let earlier = painted_first(width, len, x0, y0, x1, y1, n - 1);
        let now = painted_first(width, len, x0, y0, x1, y1, n);
        let last = line_point(x0, y0, x1, y1, n - 1);
        assert(major_index(x0, y0, x1, y1, last.0, last.1) == n - 1);
        lemma_line_within_box(x0, y0, x1, y1, n - 1);
        if 0 <= last.0 < width && 0 <= last.1 < height {
            let at = last.1 * width + last.0;
            lemma_pixel_index(width, height, last.0, last.1);
            assert(!earlier.contains(at));
            assert forall|i: int| now.contains(i) <==> earlier.insert(at).contains(i) by {
                if 0 <= i < len {
                    lemma_pixel_coords(width, height, i);
                }
            }
            assert(now =~= earlier.insert(at));
        } else {
            assert forall|i: int| now.contains(i) <==> earlier.contains(i) by {
                if 0 <= i < len {
                    lemma_pixel_coords(width, height, i);
                }
            }
            assert(now =~= earlier);
        }
    }
}

/// Drawing a line sets at most one pixel per sample, and exactly one per
/// sample, one more than the longer extent of the line, when both its ends
/// lie inside the picture.
pub proof fn lemma_painted_count(width: int, height: int, x0: int, y0: int, x1: int, y1: int)
    requires
        0 <= width,
        0 <= height,
    ensures
        painted(width, width * height, x0, y0, x1, y1).finite(),
        painted(width, width * height, x0, y0, x1, y1).len() <= line_steps(x0, y0, x1, y1) + 1,
        0 <= x0 < width && 0 <= x1 < width && 0 <= y0 < height && 0 <= y1 < height ==> painted(
            width,
            width * height,
            x0,
            y0,
            x1,
            y1,
        ).len() == line_steps(x0, y0, x1, y1) + 1,
{
    lemma_painted_first_count(width, height, x0, y0, x1, y1, line_steps(x0, y0, x1, y1) + 1);
}

/// The entries that `stroke` sets to the color are those in `painted`; every
/// other entry keeps its value.
pub proof fn lemma_stroke_paints(
    canvas: Seq<u32>,
    width: int,
    x0: int,
    y0: int,
    x1: int,
    y1: int,
    color: u32,
    i: int,
)
    requires
        0 <= i < canvas.len(),
    ensures
        stroke(canvas, width, x0, y0, x1, y1, color)[i] == if painted(
            width,
            canvas.len() as int,
            x0,
            y0,
            x1,
            y1,
        ).contains(i) {
            color
        } else {
            canvas[i]
        },
{
}

/// Sets every pixel of `buffer` to `color`.
pub fn clear(buffer: &mut [u32], color: u32)
    ensures
        final(buffer)@ == blank(old(buffer)@.len(), color),
{
    let n: usize = buffer.len();
    let mut i: usize = 0;
    while i < n
        invariant
            buffer@.len() == n,
            i <= n,
            forall|k: int| 0 <= k < i ==> buffer@[k] == color,
        decreases n - i,
    {
        buffer[i] = color;
        i += 1;
    }
    assert(buffer@ =~= blank(n as nat, color));
}

/// Draws the line from `(x0, y0)` to `(x1, y1)` into `buffer`, a picture
/// `width` pixels wide and `height` pixels high, by Bresenham's integer
/// algorithm. Each sample of the line inside the picture is set to `color`;
/// samples outside are skipped; every other pixel is left as it was.
pub fn draw_line(
    buffer: &mut [u32],
    width: usize,
    height: usize,
    x0: i32,
    y0: i32,
    x1: i32,
    y1: i32,
    color: u32,
)
    requires
        old(buffer)@.len() == width * height,
    ensures
        final(buffer)@ == stroke(
            old(buffer)@,
            width as int,
            x0 as int,
            y0 as int,
            x1 as int,
            y1 as int,
            color,
        ),
{
    let dx: i64 = if x0 <= x1 {
        x1 as i64 - x0 as i64
    } else {
        x0 as i64 - x1 as i64
    };
    let dy: i64 = if y0 <= y1 {
        y0 as i64 - y1 as i64
    } else {
        y1 as i64 - y0 as i64
    };
    let sx: i64 = if x0 < x1 {
        1
    } else {
        -1
    };
    let sy: i64 = if y0 < y1 {
        1
    } else {
        -1
    };
    let mut err: i64 = dx + dy;
    let mut x: i64 = x0 as i64;
    let mut y: i64 = y0 as i64;

    let ghost before = buffer@;
    assert(before.len() == buffer.len() <= usize::MAX);
    let ghost a = span(x0 as int, x1 as int);
    let ghost b = span(y0 as int, y1 as int);
    let ghost steps = line_steps(x0 as int, y0 as int, x1 as int, y1 as int);
    // Sample number, steps taken along each axis, and the two products that
    // the error term is made of.
    let ghost mut k: int = 0;
    let ghost mut i: int = 0;
    let ghost mut j: int = 0;
    let ghost mut aj: int = 0;
    let ghost mut bi: int = 0;
    proof {
        lemma_line_starts(x0 as int, y0 as int, x1 as int, y1 as int);
        assert(a * 0 == 0 && b * 0 == 0) by (nonlinear_arith);
        assert(buffer@ =~= partial_stroke(
            before,
            width as int,
            x0 as int,
            y0 as int,
            x1 as int,
            y1 as int,
            0,
            color,
        ));
    }
    loop
        invariant_except_break
            0 <= k <= steps,
            aj == a * j,
            bi == b * i,
            err == aj + a - bi - b,
            a >= b ==> i == k,
            a >= b && a > 0 ==> 2 * aj <= 2 * bi + a < 2 * aj + 2 * a,
            a == 0 && b == 0 ==> j == 0,
            a < b ==> j == k && 2 * bi <= 2 * aj + b < 2 * bi + 2 * b,
            buffer@ == partial_stroke(
                before,
                width as int,
                x0 as int,
                y0 as int,
                x1 as int,
                y1 as int,
                k,
                color,
            ),
        invariant
            before.len() == width * height,
            before.len() <= usize::MAX,
            a == span(x0 as int, x1 as int),
            b == span(y0 as int, y1 as int),
            steps == line_steps(x0 as int, y0 as int, x1 as int, y1 as int),
            dx == a,
            dy == -b,
            sx == if x0 < x1 { 1int } else { -1int },
            sy == if y0 < y1 { 1int } else { -1int },
            x == advance(x0 as int, x1 as int, i),
            y == advance(y0 as int, y1 as int, j),
        ensures
            buffer@ == stroke(
                before,
                width as int,
                x0 as int,
                y0 as int,
                x1 as int,
                y1 as int,
                color,
            ),
        decreases steps - k,
    {
        proof {
            // The current position is sample `k`.
            if a >= b {
                if a > 0 {
                    lemma_nearest_unique(b * k, a, j, aj);
                    lemma_minor_bounds(b, a, k);
                }
            } else {
                lemma_nearest_unique(a * k, b, i, bi);
                lemma_minor_bounds(a, b, k);
            }
            assert(0 <= i <= a && 0 <= j <= b);
            assert(line_point(x0 as int, y0 as int, x1 as int, y1 as int, k) == (
                x as int,
                y as int,
            ));
            assert(major_index(x0 as int, y0 as int, x1 as int, y1 as int, x as int, y as int)
                == k);
        }
        let ghost prior = buffer@;
        if x >= 0 && y >= 0 && (x as u64) < (width as u64) && (y as u64) < (height as u64) {
            proof {
                lemma_pixel_index(width as int, height as int, x as int, y as int);
            }
            buffer[y as usize * width + x as usize] = color;
        }
        proof {
            let next = partial_stroke(
                before,
                width as int,
                x0 as int,
                y0 as int,
                x1 as int,
                y1 as int,
                k + 1,
                color,
            );
            assert forall|p: int| 0 <= p < before.len() implies buffer@[p] == next[p] by {
                lemma_pixel_coords(width as int, height as int, p);
                let px = column_of(p, width as int);
                let py = row_of(p, width as int);
                if px == x && py == y {
                    assert(p == y * width + x);
                    assert(among_first(
                        x0 as int,
                        y0 as int,
                        x1 as int,
                        y1 as int,
                        k + 1,
                        px,
                        py,
                    ));
                } else {
                    assert(among_first(x0 as int, y0 as int, x1 as int, y1 as int, k + 1, px, py)
                        == among_first(x0 as int, y0 as int, x1 as int, y1 as int, k, px, py));
                    assert(buffer@[p] == prior[p]);
                }
            }
            assert(buffer@ =~= next);
        }
        if x == x1 as i64 && y == y1 as i64 {
            proof {
                // Only the last sample sits on the end point.
                assert(k == steps);
            }
            break ;
        }
        proof {
            lemma_line_ends(x0 as int, y0 as int, x1 as int, y1 as int);
            assert(k < steps);
        }
        let e2: i64 = 2 * err;
        if e2 >= dy {
            err += dy;
            x += sx;
            proof {
                assert(b * (i + 1) == b * i + b) by (nonlinear_arith);
                i = i + 1;
                bi = bi + b;
            }
        }
        if e2 <= dx {
            err += dx;
            y += sy;
            proof {
                assert(a * (j + 1) == a * j + a) by (nonlinear_arith);
                j = j + 1;
                aj = aj + a;
            }
        }
        proof {
            k = k + 1;
        }
    }
}

} // verus!
