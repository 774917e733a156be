//! The arithmetic of the list view window search.
//!
//! Lengths are whole logical pixels. The search estimates the height of one
//! row from what is materialized, derives the first row and the number of
//! rows that cover the viewport, materializes them, measures where their
//! content ends, and widens the window while the viewport is not covered.

use vstd::prelude::*;

verus! {

/// `a / b` rounded up.
pub open spec fn ceil_div(a: int, b: int) -> int {
    (a + b - 1) / b
}

/// `x` cut down to fit a `u64`.
pub open spec fn clamp_u64(x: int) -> int {
    if x > u64::MAX {
        u64::MAX as int
    } else {
        x
    }
}

/// The smaller of `a` and `b`.
pub open spec fn min_int(a: int, b: int) -> int {
    if a <= b {
        a
    } else {
        b
    }
}

/// The larger of `a` and `b`.
pub open spec fn max_int(a: int, b: int) -> int {
    if a >= b {
        a
    } else {
        b
    }
}

/// The smallest row height the count estimate may use: the smallest seen
/// height or the average, whichever is smaller, and never below one.
pub open spec fn spec_min_height(min_seen: int, element_height: int) -> int {
    max_int(min_int(min_seen, element_height), 1)
}

/// The scroll position: the viewport's `y` turned positive, pulled back so
/// that the window does not scroll past the end of the content.
pub open spec fn spec_offset_y(
    viewport_y: int,
    element_height: int,
    row_count: int,
    listview_height: int,
    viewport_height: int,
) -> int {
    let oy = if viewport_y < 0 {
        -viewport_y
    } else {
        0
    };
    let total = element_height * row_count;
    if oy + listview_height > total && oy + listview_height > viewport_height {
        clamp_u64(max_int(total - listview_height, 0))
    } else {
        oy
    }
}

/// The first estimate of the number of rows: enough rows of the smallest
/// height to fill the viewport, never fewer than are materialized already,
/// never more than the model has.
pub open spec fn spec_initial_count(
    listview_height: int,
    min_height: int,
    materialized: int,
    row_count: int,
) -> int {
    min_int(max_int(ceil_div(listview_height, min_height), materialized), row_count)
}

/// The first row of the window: the row at the scroll position, pulled
/// back so that the window fits in the model.
pub open spec fn spec_initial_offset(
    offset_y: int,
    element_height: int,
    row_count: int,
    count: int,
) -> int {
    min_int(offset_y / max_int(element_height, 1), row_count - count)
}

/// The average height of the materialized rows, from where their content
/// ends.
pub open spec fn spec_measured_height(end: int, element_height: int, offset: int, count: int) -> int {
    if count == 0 {
        element_height
    } else {
        max_int(end - element_height * offset, 0) / count
    }
}

/// The wider window to try when the content does not reach the bottom of
/// the viewport and rows remain: `(count, offset, offset_y)`; `None` when
/// the window is final.
pub open spec fn spec_next_window(
    count: int,
    offset: int,
    offset_y: int,
    end: int,
    element_height: int,
    listview_height: int,
    row_count: int,
) -> Option<(int, int, int)> {
    let diff = listview_height + offset_y - end;
    if diff > 0 && count < row_count {
        let c = min_int(count + ceil_div(diff, max_int(element_height, 1)), row_count);
        if offset + c > row_count {
            Some((c, row_count - c, max_int(offset_y - diff, 0)))
        } else {
            Some((c, offset, offset_y))
        }
    } else {
        None
    }
}

/// The height of the scrollable content.
pub open spec fn spec_content_height(element_height: int, row_count: int, end: int) -> int {
    clamp_u64(max_int(element_height * row_count, end))
}

/// `a * b`, which always fits in a `u128`.
pub fn mul_wide(a: u64, b: usize) -> (r: u128)
    ensures
        r == a * b,
{
    proof {
        assert(a * b <= u64::MAX * u64::MAX) by (nonlinear_arith)
            requires
                a <= u64::MAX,
                b <= u64::MAX,
                0 <= a,
                0 <= b,
        {
        }
        assert(u64::MAX * u64::MAX <= u128::MAX);
    }
    a as u128 * b as u128
}

/// See [`spec_min_height`].
pub fn min_height(min_seen: u64, element_height: u64) -> (r: u64)
    ensures
        r == spec_min_height(min_seen as int, element_height as int),
{
    let m = if min_seen <= element_height {
        min_seen
    } else {
        element_height
    };
    if m >= 1 {
        m
    } else {
        1
    }
}

/// See [`spec_offset_y`].
pub fn clamp_offset_y(
    viewport_y: i64,
    element_height: u64,
    row_count: usize,
    listview_height: u64,
    viewport_height: u64,
) -> (r: u64)
    ensures
        r == spec_offset_y(
            viewport_y as int,
            element_height as int,
            row_count as int,
            listview_height as int,
            viewport_height as int,
        ),
{
    let oy: u64 = if viewport_y < 0 {
        (0i128 - viewport_y as i128) as u64
    } else {
        0
    };
    let total: u128 = mul_wide(element_height, row_count);
    let reach: u128 = oy as u128 + listview_height as u128;
    if reach > total && reach > viewport_height as u128 {
        let back: u128 = if total > listview_height as u128 {
            total - listview_height as u128
        } else {
            0
        };
        if back > u64::MAX as u128 {
            u64::MAX
        } else {
            back as u64
        }
    } else {
        oy
    }
}

/// See [`spec_initial_count`].
pub fn initial_count(listview_height: u64, min_height: u64, materialized: usize, row_count: usize) -> (r: usize)
    requires
        min_height >= 1,
    ensures
        r == spec_initial_count(
            listview_height as int,
            min_height as int,
            materialized as int,
            row_count as int,
        ),
{
    let fill: u128 = (listview_height / min_height) as u128 + if listview_height % min_height != 0 {
        1u128
    } else {
        0u128
    };
    proof {
        assert(fill == ceil_div(listview_height as int, min_height as int)) by (nonlinear_arith)
            requires
                fill == listview_height / min_height + if listview_height % min_height != 0 {
                    1int
                } else {
                    0int
                },
                min_height >= 1,
        {
        }
    }
    let c: u128 = if fill >= materialized as u128 {
        fill
    } else {
        materialized as u128
    };
    if c >= row_count as u128 {
        row_count
    } else {
        c as usize
    }
}

/// See [`spec_initial_offset`].
pub fn initial_offset(offset_y: u64, element_height: u64, row_count: usize, count: usize) -> (r: usize)
    requires
        count <= row_count,
    ensures
        r == spec_initial_offset(offset_y as int, element_height as int, row_count as int, count as int),
{
    let eh = if element_height >= 1 {
        element_height
    } else {
        1
    };
    let o = offset_y / eh;
    if o >= (row_count - count) as u64 {
        row_count - count
    } else {
        o as usize
    }
}

/// See [`spec_measured_height`].
pub fn measured_height(end: u64, element_height: u64, offset: usize, count: usize) -> (r: u64)
    ensures
        r == spec_measured_height(end as int, element_height as int, offset as int, count as int),
{
    if count == 0 {
        return element_height;
    }
    let before: u128 = mul_wide(element_height, offset);
    let span: u128 = if end as u128 > before {
        end as u128 - before
    } else {
        0
    };
    proof {
        assert((span as int) / (count as int) <= span as int) by (nonlinear_arith)
            requires
                count >= 1,
                span >= 0,
        {
        }
    }
    (span / count as u128) as u64
}

/// See [`spec_next_window`].
pub fn next_window(
    count: usize,
    offset: usize,
    offset_y: u64,
    end: u64,
    element_height: u64,
    listview_height: u64,
    row_count: usize,
) -> (r: Option<(usize, usize, u64)>)
    ensures
        match spec_next_window(
            count as int,
            offset as int,
            offset_y as int,
            end as int,
            element_height as int,
            listview_height as int,
            row_count as int,
        ) {
            Some((c, o, y)) => r == Some((c as usize, o as usize, y as u64)),
            None => r is None,
        },
        r matches Some((c, o, y)) ==> count < c <= row_count && o + c <= row_count,
{
    let reach: u128 = listview_height as u128 + offset_y as u128;
    if reach > end as u128 && count < row_count {
        let diff: u128 = reach - end as u128;
        let eh: u128 = if element_height >= 1 {
            element_height as u128
        } else {
            1
        };
        let more: u128 = diff / eh + if diff % eh != 0 {
            1u128
        } else {
            0u128
        };
        proof {
            assert(more == ceil_div(diff as int, eh as int)) by (nonlinear_arith)
                requires
                    more == diff / eh + if diff % eh != 0 {
                        1int
                    } else {
                        0int
                    },
                    eh >= 1,
            {
            }
            assert(more >= 1) by (nonlinear_arith)
                requires
                    more == diff / eh + if diff % eh != 0 {
                        1int
                    } else {
                        0int
                    },
                    eh >= 1,
                    diff >= 1,
            {
            }
        }
        let c: usize = if count as u128 + more >= row_count as u128 {
            row_count
        } else {
            (count as u128 + more) as usize
        };
        if offset as u128 + c as u128 > row_count as u128 {
            let y: u64 = if offset_y as u128 > diff {
                (offset_y as u128 - diff) as u64
            } else {
                0
            };
            Some((c, row_count - c, y))
        } else {
            Some((c, offset, offset_y))
        }
    } else {
        None
    }
}

/// See [`spec_content_height`].
pub fn content_height(element_height: u64, row_count: usize, end: u64) -> (r: u64)
    ensures
        r == spec_content_height(element_height as int, row_count as int, end as int),
{
    let total: u128 = mul_wide(element_height, row_count);
    let h: u128 = if total >= end as u128 {
        total
    } else {
        end as u128
    };
    if h > u64::MAX as u128 {
        u64::MAX
    } else {
        h as u64
    }
}

/// When every row is `h` high, a search that starts unscrolled on a fresh
/// repeater and seeds its estimate with one row settles at once on
/// `ceil(v / h)` rows (at most the `n` rows of the model) from the first
/// row, and publishes a content height of `n * h`.
pub proof fn lemma_fixed_height_convergence(n: int, h: int, v: int, viewport_height: int)
    requires
        1 <= n,
        1 <= h,
        1 <= v,
        0 <= viewport_height,
        n * h <= u64::MAX,
    ensures
        ({
            let eh = h;
            let m = spec_min_height(min_int(v, h), eh);
            let oy = spec_offset_y(0, eh, n, v, viewport_height);
            let count = spec_initial_count(v, m, 1, n);
            let offset = spec_initial_offset(oy, eh, n, count);
            let end = offset * eh + count * h;
            let eh1 = spec_measured_height(end, eh, offset, count);
            &&& oy == 0
            &&& count == min_int(ceil_div(v, h), n)
            &&& offset == 0
            &&& eh1 == h
            &&& spec_next_window(count, offset, oy, end, eh1, v, n) is None
            &&& spec_content_height(eh1, n, end) == n * h
        }),
{
    let m = spec_min_height(min_int(v, h), h);
    assert(ceil_div(v, m) == ceil_div(v, h)) by {
        if v < h {
            assert(m == v);
            assert(ceil_div(v, v) == 1) by (nonlinear_arith)
                requires
                    v >= 1,
            {
            }
            assert(ceil_div(v, h) == 1) by (nonlinear_arith)
                requires
                    1 <= v < h,
            {
            }
        }
    }
    assert(ceil_div(v, h) >= 1) by (nonlinear_arith)
        requires
            v >= 1,
            h >= 1,
    {
    }
    let oy = spec_offset_y(0, h, n, v, viewport_height);
    assert(oy == 0);
    let count = spec_initial_count(v, m, 1, n);
    assert(count == min_int(ceil_div(v, h), n));
    assert(0int / max_int(h, 1) == 0);
    let end = 0int * h + count * h;
    assert(end == count * h);
    assert((count * h) / count == h) by (nonlinear_arith)
        requires
            count >= 1,
    {
    }
    assert(h * 0 == 0);
    assert(max_int(end - h * 0, 0) == end);
    assert(spec_measured_height(end, h, 0, count) == h);
    assert(v <= ceil_div(v, h) * h) by (nonlinear_arith)
        requires
            v >= 1,
            h >= 1,
    {
    }
    assert(count * h <= n * h) by (nonlinear_arith)
        requires
            count <= n,
            h >= 1,
    {
    }
    if count < n {
        assert(count == ceil_div(v, h));
        assert(v - end <= 0);
    }
    let offset = spec_initial_offset(oy, h, n, count);
    assert(offset == 0);
    assert(spec_next_window(count, offset, oy, end, h, v, n) is None);
    assert(h * n == n * h) by (nonlinear_arith);
    assert(spec_content_height(h, n, end) == n * h);
}

} // verus!
