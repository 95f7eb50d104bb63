//! The discretized straight line between two pixels.
//!
//! A line advances one pixel per step along its longer axis; the offset along
//! the shorter axis is the exact proportional offset rounded to the nearest
//! integer, a tie going to the smaller offset. The pixels are counted from the
//! smaller endpoint, so that a line does not depend on the order in which its
//! endpoints are given.

use vstd::prelude::*;
use crate::pixels::{fits, in_bounds, lemma_stamp, pixel, stamp, Pos, Rgba};

verus! {

/// Distance between two coordinates.
pub open spec fn span(from: int, to: int) -> int {
    if from <= to {
        to - from
    } else {
        from - to
    }
}

/// The coordinate `i` units away from `from`, on the side of `to`.
pub open spec fn toward(from: int, to: int, i: int) -> int {
    if from < to {
        from + i
    } else {
        from - i
    }
}

/// The quotient `n / d` rounded to the nearest integer, a tie rounded down.
pub open spec fn nearest(n: int, d: int) -> int {
    if d > 0 {
        (2 * n + d - 1) / (2 * d)
    } else {
        0
    }
}

/// Number of steps of the line from `from` to `to`.
pub open spec fn steps(from: Pos, to: Pos) -> int {
    let a = span(from.0 as int, to.0 as int);
    let b = span(from.1 as int, to.1 as int);
    if a >= b {
        a
    } else {
        b
    }
}

/// Column of the pixel reached after `k` steps from `from` towards `to`.
pub open spec fn trace_x(from: Pos, to: Pos, k: int) -> int {
    let a = span(from.0 as int, to.0 as int);
    let b = span(from.1 as int, to.1 as int);
    let i = if a >= b {
        k
    } else {
        nearest(k * a, b)
    };
    toward(from.0 as int, to.0 as int, i)
}

/// Row of the pixel reached after `k` steps from `from` towards `to`.
pub open spec fn trace_y(from: Pos, to: Pos, k: int) -> int {
    let a = span(from.0 as int, to.0 as int);
    let b = span(from.1 as int, to.1 as int);
    let j = if a >= b {
        nearest(k * b, a)
    } else {
        k
    };
    toward(from.1 as int, to.1 as int, j)
}

/// The pixel reached after `k` steps from `from` towards `to`.
pub open spec fn trace_pixel(from: Pos, to: Pos, k: int) -> Pos {
    (trace_x(from, to, k) as i32, trace_y(from, to, k) as i32)
}

/// The pixels from `from` to `to`, in the order in which they are reached.
pub open spec fn trace(from: Pos, to: Pos) -> Seq<Pos> {
    Seq::new((steps(from, to) + 1) as nat, |k: int| trace_pixel(from, to, k))
}

/// `p` comes before `q`, or is `q`, when pixels are ordered by column and then by row.
pub open spec fn precedes(p: Pos, q: Pos) -> bool {
    p.0 < q.0 || (p.0 == q.0 && p.1 <= q.1)
}

/// The smaller of two endpoints.
pub open spec fn lower(p: Pos, q: Pos) -> Pos {
    if precedes(p, q) {
        p
    } else {
        q
    }
}

/// The larger of two endpoints.
pub open spec fn upper(p: Pos, q: Pos) -> Pos {
    if precedes(p, q) {
        q
    } else {
        p
    }
}

/// The pixels of the line between `start` and `end`.
pub open spec fn line(start: Pos, end: Pos) -> Seq<Pos> {
    trace(lower(start, end), upper(start, end))
}

/// Two pixels touch: they differ by at most one column and at most one row.
pub open spec fn touching(p: Pos, q: Pos) -> bool {
    span(p.0 as int, q.0 as int) <= 1 && span(p.1 as int, q.1 as int) <= 1
}

/// `q` is `n / d` rounded to the nearest integer whenever `n / d` lies within
/// half a unit of it, the upper end included.
pub proof fn lemma_nearest(n: int, d: int, q: int)
    requires
        d > 0,
        (2 * q - 1) * d < 2 * n <= (2 * q + 1) * d,
    ensures
        nearest(n, d) == q,
{
    let r = 2 * n + d - 1 - q * (2 * d);
    assert(0 <= r < 2 * d) by (nonlinear_arith)
        requires
            (2 * q - 1) * d < 2 * n <= (2 * q + 1) * d,
            r == 2 * n + d - 1 - q * (2 * d),
    ;
    vstd::arithmetic::div_mod::lemma_fundamental_div_mod_converse(2 * n + d - 1, 2 * d, q, r);
}

/// The rounded quotient lies within half a unit of the exact one.
pub proof fn lemma_nearest_bounds(n: int, d: int)
    requires
        d > 0,
    ensures
        (2 * nearest(n, d) - 1) * d < 2 * n <= (2 * nearest(n, d) + 1) * d,
{
    let m = 2 * n + d - 1;
    let q = m / (2 * d);
    vstd::arithmetic::div_mod::lemma_fundamental_div_mod(m, 2 * d);
    vstd::arithmetic::div_mod::lemma_mod_bound(m, 2 * d);
    assert((2 * q - 1) * d < 2 * n <= (2 * q + 1) * d) by (nonlinear_arith)
        requires
            m == (2 * d) * q + m % (2 * d),
            0 <= m % (2 * d) < 2 * d,
            m == 2 * n + d - 1,
    ;
}

/// Rounding `k * m / d` for `0 <= k <= d` and `m <= d` starts at 0, ends at `m`,
/// never decreases and grows by at most one per step.
pub proof fn lemma_nearest_walk(k: int, m: int, d: int)
    requires
        d > 0,
        0 <= m <= d,
        0 <= k,
    ensures
        nearest(0, d) == 0,
        nearest(d * m, d) == m,
        0 <= nearest(k * m, d) <= nearest((k + 1) * m, d) <= nearest(k * m, d) + 1,
        k <= d ==> nearest(k * m, d) <= m,
{
    lemma_nearest(0, d, 0);
    assert((2 * m - 1) * d < 2 * (d * m) <= (2 * m + 1) * d) by (nonlinear_arith)
        requires
            d > 0,
            m >= 0,
    ;
    lemma_nearest(d * m, d, m);
    let q0 = nearest(k * m, d);
    let q1 = nearest((k + 1) * m, d);
    lemma_nearest_bounds(k * m, d);
    lemma_nearest_bounds((k + 1) * m, d);
    assert((k + 1) * m == k * m + m) by (nonlinear_arith);
    assert(0 <= k * m) by (nonlinear_arith)
        requires
            0 <= k,
            0 <= m,
    ;
    assert(0 <= q0 && q0 <= q1 <= q0 + 1) by (nonlinear_arith)
        requires
            d > 0,
            0 <= m <= d,
            0 <= k * m,
            (2 * q0 - 1) * d < 2 * (k * m) <= (2 * q0 + 1) * d,
            (2 * q1 - 1) * d < 2 * (k * m + m) <= (2 * q1 + 1) * d,
    ;
    if k <= d {
        assert(q0 <= m) by (nonlinear_arith)
            requires
                d > 0,
                0 <= m <= d,
                0 <= k <= d,
                (2 * q0 - 1) * d < 2 * (k * m),
        ;
    }
}

/// The offsets `i` along the columns and `j` along the rows, out of `a` and
/// `b` in all, belong to one pixel of the line: the offset along the shorter
/// axis is the proportional offset, rounded.
pub open spec fn on_track(a: int, b: int, i: int, j: int) -> bool {
    &&& 0 <= i <= a
    &&& 0 <= j <= b
    &&& if a >= b {
        a > 0 ==> 2 * (j * a) - a < 2 * (i * b) <= 2 * (j * a) + a
    } else {
        2 * (i * b) - b < 2 * (j * a) <= 2 * (i * b) + b
    }
}

/// The accumulated error at the offsets `i` and `j`.
pub open spec fn track_error(a: int, b: int, i: int, j: int) -> int {
    j * a + a - i * b - b
}

/// Whether the line moves on by a column from the offsets `i` and `j`.
pub open spec fn steps_x(a: int, b: int, i: int, j: int) -> bool {
    2 * track_error(a, b, i, j) > -b
}

/// Whether the line moves on by a row from the offsets `i` and `j`.
pub open spec fn steps_y(a: int, b: int, i: int, j: int) -> bool {
    2 * track_error(a, b, i, j) < a
}

/// The error accumulator leads from one pixel of the line to the next: it
/// always moves along the longer axis, never past the end, and keeps the
/// offset along the shorter axis rounded.
pub proof fn lemma_track_step(a: int, b: int, i: int, j: int)
    requires
        on_track(a, b, i, j),
        !(i == a && j == b),
    ensures
        steps_x(a, b, i, j) ==> i < a,
        steps_y(a, b, i, j) ==> j < b,
        a >= b ==> steps_x(a, b, i, j),
        a < b ==> steps_y(a, b, i, j),
        on_track(
            a,
            b,
            if steps_x(a, b, i, j) {
                i + 1
            } else {
                i
            },
            if steps_y(a, b, i, j) {
                j + 1
            } else {
                j
            },
        ),
{
    let ib = i * b;
    let ja = j * a;
    assert((i + 1) * b == ib + b) by (nonlinear_arith)
        requires
            ib == i * b,
    ;
    assert((j + 1) * a == ja + a) by (nonlinear_arith)
        requires
            ja == j * a,
    ;
    if a >= b {
        // At the last column the row is the last one too.
        assert(i < a) by (nonlinear_arith)
            requires
                0 <= i <= a,
                0 <= j <= b,
                b <= a,
                !(i == a && j == b),
                a > 0 ==> 2 * (j * a) - a < 2 * (i * b) <= 2 * (j * a) + a,
        ;
        if a == b {
            // An odd multiple of a positive `a` is not zero, so there is no tie.
            let odd = 2 * (i - j) - 1;
            assert(odd * a == 2 * (i * b) - 2 * (j * a) - a) by (nonlinear_arith)
                requires
                    odd == 2 * (i - j) - 1,
                    a == b,
            ;
            assert(odd * a != 0) by (nonlinear_arith)
                requires
                    odd != 0,
                    a > 0,
            ;
        }
        if steps_y(a, b, i, j) {
            assert(j < b) by (nonlinear_arith)
                requires
                    2 * (j * a) + a < 2 * (i * b) + 2 * b,
                    0 <= i < a,
                    0 <= j <= b,
                    0 <= b <= a,
            ;
        }
    } else {
        assert(j < b) by (nonlinear_arith)
            requires
                0 <= i <= a,
                0 <= j <= b,
                a < b,
                !(i == a && j == b),
                2 * (i * b) - b < 2 * (j * a) <= 2 * (i * b) + b,
        ;
        if steps_x(a, b, i, j) {
            assert(i < a) by (nonlinear_arith)
                requires
                    2 * (j * a) + 2 * a > 2 * (i * b) + b,
                    0 <= i <= a,
                    0 <= j < b,
                    0 <= a < b,
            ;
        }
    }
}

/// The offsets of a pixel of the line are those of the trace at that step.
pub proof fn lemma_track_pixel(from: Pos, to: Pos, i: int, j: int)
    requires
        on_track(span(from.0 as int, to.0 as int), span(from.1 as int, to.1 as int), i, j),
    ensures
        ({
            let k = if span(from.0 as int, to.0 as int) >= span(from.1 as int, to.1 as int) {
                i
            } else {
                j
            };
            &&& 0 <= k <= steps(from, to)
            &&& trace_x(from, to, k) == toward(from.0 as int, to.0 as int, i)
            &&& trace_y(from, to, k) == toward(from.1 as int, to.1 as int, j)
        }),
{
    let a = span(from.0 as int, to.0 as int);
    let b = span(from.1 as int, to.1 as int);
    if a >= b {
        if a > 0 {
            assert((2 * j - 1) * a == 2 * (j * a) - a && (2 * j + 1) * a == 2 * (j * a) + a)
                by (nonlinear_arith);
            lemma_nearest(i * b, a, j);
        }
    } else {
        assert((2 * i - 1) * b == 2 * (i * b) - b && (2 * i + 1) * b == 2 * (i * b) + b)
            by (nonlinear_arith);
        lemma_nearest(j * a, b, i);
    }
}

/// Every pixel of a trace lies between the two endpoints, column by column and
/// row by row.
pub proof fn lemma_trace_between(from: Pos, to: Pos, k: int)
    requires
        0 <= k <= steps(from, to),
    ensures
        span(from.0 as int, trace_x(from, to, k)) <= span(from.0 as int, to.0 as int),
        span(from.1 as int, trace_y(from, to, k)) <= span(from.1 as int, to.1 as int),
        span(trace_x(from, to, k), to.0 as int) <= span(from.0 as int, to.0 as int),
        span(trace_y(from, to, k), to.1 as int) <= span(from.1 as int, to.1 as int),
        i32::MIN <= trace_x(from, to, k) <= i32::MAX,
        i32::MIN <= trace_y(from, to, k) <= i32::MAX,
        trace_pixel(from, to, k).0 == trace_x(from, to, k),
        trace_pixel(from, to, k).1 == trace_y(from, to, k),
{
    let a = span(from.0 as int, to.0 as int);
    let b = span(from.1 as int, to.1 as int);
    if a >= b {
        if a > 0 {
            lemma_nearest_walk(k, b, a);
        }
    } else {
        lemma_nearest_walk(k, a, b);
    }
}

/// A trace starts at its first endpoint and ends at its second.
pub proof fn lemma_trace_ends(from: Pos, to: Pos)
    ensures
        trace(from, to).len() == steps(from, to) + 1,
        trace(from, to)[0] == from,
        trace(from, to)[steps(from, to)] == to,
{
    let a = span(from.0 as int, to.0 as int);
    let b = span(from.1 as int, to.1 as int);
    if a >= b {
        if a > 0 {
            lemma_nearest_walk(0, b, a);
            assert(a * b == steps(from, to) * b);
            assert(0 * b == 0);
        }
    } else {
        lemma_nearest_walk(0, a, b);
        assert(b * a == steps(from, to) * a);
        assert(0 * a == 0);
    }
}

/// Consecutive pixels of a trace touch.
pub proof fn lemma_trace_connected(from: Pos, to: Pos, k: int)
    requires
        0 <= k < steps(from, to),
    ensures
        touching(trace(from, to)[k], trace(from, to)[k + 1]),
{
    let a = span(from.0 as int, to.0 as int);
    let b = span(from.1 as int, to.1 as int);
    lemma_trace_between(from, to, k);
    lemma_trace_between(from, to, k + 1);
    if a >= b {
        lemma_nearest_walk(k, b, a);
    } else {
        lemma_nearest_walk(k, a, b);
    }
}

/// A line holds both of its endpoints, consecutive pixels of it touch, and it
/// is the same line whichever endpoint is given first.
pub proof fn lemma_line_complete(start: Pos, end: Pos)
    ensures
        line(start, end).contains(start),
        line(start, end).contains(end),
        forall|k: int|
            0 <= k < line(start, end).len() - 1 ==> touching(
                #[trigger] line(start, end)[k],
                line(start, end)[k + 1],
            ),
        line(start, end) == line(end, start),
{
    let from = lower(start, end);
    let to = upper(start, end);
    lemma_trace_ends(from, to);
    assert(trace(from, to)[0] == from);
    assert(trace(from, to)[steps(from, to)] == to);
    assert forall|k: int| 0 <= k < line(start, end).len() - 1 implies touching(
        #[trigger] line(start, end)[k],
        line(start, end)[k + 1],
    ) by {
        lemma_trace_connected(from, to, k);
    }
    assert(lower(start, end) == lower(end, start));
    assert(upper(start, end) == upper(end, start));
}

/// Stamping the line between two pixels of an image colours exactly the
/// pixels of the line, both endpoints among them, and keeps every other
/// pixel.
pub proof fn lemma_line_marks(
    image: Seq<u8>,
    width: u32,
    height: u32,
    start: Pos,
    end: Pos,
    color: Rgba,
)
    requires
        fits(image, width, height),
        in_bounds(start, width, height),
        in_bounds(end, width, height),
    ensures
        fits(stamp(image, width, line(start, end), color), width, height),
        forall|q: Pos|
            in_bounds(q, width, height) ==> #[trigger] pixel(
                stamp(image, width, line(start, end), color),
                width,
                q,
            ) == (if line(start, end).contains(q) {
                color
            } else {
                pixel(image, width, q)
            }),
        pixel(stamp(image, width, line(start, end), color), width, start) == color,
        pixel(stamp(image, width, line(start, end), color), width, end) == color,
{
    let from = lower(start, end);
    let to = upper(start, end);
    let pixels = line(start, end);
    assert forall|k: int| 0 <= k < pixels.len() implies in_bounds(
        #[trigger] pixels[k],
        width,
        height,
    ) by {
        lemma_trace_between(from, to, k);
    }
    lemma_stamp(image, width, height, pixels, color);
    lemma_line_complete(start, end);
}

} // verus!
