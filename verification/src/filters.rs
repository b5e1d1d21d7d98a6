//! The filters of the detector: absolute difference, dilation by a full
//! rectangular window, and binary threshold.

use vstd::prelude::*;
use vstd::arithmetic::div_mod::{lemma_fundamental_div_mod, lemma_fundamental_div_mod_converse};
use crate::frame::{lemma_index_in_range, Frame, Grid};

verus! {

/// The distance between two samples.
pub open spec fn sample_distance(a: u8, b: u8) -> u8 {
    if a >= b {
        (a - b) as u8
    } else {
        (b - a) as u8
    }
}

/// The per-pixel absolute difference of two grids of the same shape.
pub open spec fn difference(a: Grid, b: Grid) -> Grid {
    Grid {
        width: a.width,
        height: a.height,
        samples: Seq::new(a.samples.len(), |i: int| sample_distance(a.samples[i], b.samples[i])),
    }
}

/// The level a sample takes under a binary threshold: `fill` where the
/// sample reaches `cut`, zero elsewhere.
pub open spec fn sample_level(sample: u8, cut: u8, fill: u8) -> u8 {
    if sample >= cut {
        fill
    } else {
        0
    }
}

/// The binary threshold of a grid.
pub open spec fn binarized(g: Grid, cut: u8, fill: u8) -> Grid {
    Grid {
        width: g.width,
        height: g.height,
        samples: Seq::new(g.samples.len(), |i: int| sample_level(g.samples[i], cut, fill)),
    }
}

/// Computes the per-pixel absolute difference of two frames; `None` when
/// their dimensions differ.
pub fn abs_diff(a: &Frame, b: &Frame) -> (r: Option<Frame>)
    ensures
        r is Some <==> a@.same_shape(b@),
        r is Some ==> r->0@ == difference(a@, b@),
{
    if !a.same_shape(b) {
        return None;
    }
    proof {
        use_type_invariant(a);
        use_type_invariant(b);
    }
    let xs = a.samples();
    let ys = b.samples();
    let n = xs.len();
    let mut out: Vec<u8> = Vec::new();
    let mut i: usize = 0;
    while i < n
        invariant
            i <= n,
            n == xs@.len(),
            n == ys@.len(),
            out@.len() == i,
            forall|k: int| 0 <= k < i ==> out@[k] == sample_distance(xs@[k], ys@[k]),
        decreases n - i,
    {
        let p = xs[i];
        let q = ys[i];
        let d: u8 = if p >= q {
            p - q
        } else {
            q - p
        };
        out.push(d);
        i += 1;
    }
    assert(out@ =~= difference(a@, b@).samples);
    Some(Frame::with_samples(a, out))
}

/// Applies a binary threshold: samples that reach `cut` become `fill`, the
/// others become zero.
pub fn threshold(src: &Frame, cut: u8, fill: u8) -> (r: Frame)
    ensures
        r@ == binarized(src@, cut, fill),
{
    let xs = src.samples();
    let n = xs.len();
    let mut out: Vec<u8> = Vec::new();
    let mut i: usize = 0;
    while i < n
        invariant
            i <= n,
            n == xs@.len(),
            out@.len() == i,
            forall|k: int| 0 <= k < i ==> out@[k] == sample_level(xs@[k], cut, fill),
        decreases n - i,
    {
        let level: u8 = if xs[i] >= cut {
            fill
        } else {
            0
        };
        out.push(level);
        i += 1;
    }
    assert(out@ =~= binarized(src@, cut, fill).samples);
    Frame::with_samples(src, out)
}

/// Whether a window of `size` samples centred on `center` covers position
/// `q`. The window starts `size / 2` samples before its centre, so a window
/// of odd size is symmetric and one of even size reaches one sample further
/// back than forward.
pub open spec fn covers(center: int, size: int, q: int) -> bool {
    center - size / 2 <= q < center - size / 2 + size
}

/// Whether `v` is the largest sample of `g` inside the `rows` by `cols`
/// window centred on `(x, y)`. Positions of the window that fall outside the
/// grid do not count.
pub open spec fn is_window_max(g: Grid, rows: int, cols: int, x: int, y: int, v: u8) -> bool {
    &&& forall|i: int, j: int|
        #![trigger g.at(i, j)]
        g.contains(i, j) && covers(x, cols, i) && covers(y, rows, j) ==> g.at(i, j) <= v
    &&& exists|i: int, j: int|
        #![trigger g.at(i, j)]
        g.contains(i, j) && covers(x, cols, i) && covers(y, rows, j) && g.at(i, j) == v
}

/// Whether `out` is the dilation of `src` by a full `rows` by `cols` window:
/// every sample of `out` is the largest sample of `src` in the window centred
/// on it.
pub open spec fn is_dilation(src: Grid, rows: int, cols: int, out: Grid) -> bool {
    &&& out.wf()
    &&& out.same_shape(src)
    &&& forall|x: int, y: int|
        #![trigger out.at(x, y)]
        src.contains(x, y) ==> is_window_max(src, rows, cols, x, y, out.at(x, y))
}

/// The largest sample of `g` inside the window centred on `(x, y)`.
pub open spec fn window_max(g: Grid, rows: int, cols: int, x: int, y: int) -> u8 {
    choose|v: u8| is_window_max(g, rows, cols, x, y, v)
}

/// The dilation of a grid by a full `rows` by `cols` window.
pub open spec fn dilation(src: Grid, rows: int, cols: int) -> Grid {
    Grid {
        width: src.width,
        height: src.height,
        samples: Seq::new(
            src.samples.len(),
            |k: int| window_max(src, rows, cols, k % (src.width as int), k / (src.width as int)),
        ),
    }
}

/// A window has one largest sample.
pub proof fn lemma_window_max_unique(g: Grid, rows: int, cols: int, x: int, y: int, v: u8)
    requires
        is_window_max(g, rows, cols, x, y, v),
    ensures
        window_max(g, rows, cols, x, y) == v,
{
    let m = window_max(g, rows, cols, x, y);
    assert(is_window_max(g, rows, cols, x, y, m));
    let (i, j) = choose|i: int, j: int|
        #![trigger g.at(i, j)]
        g.contains(i, j) && covers(x, cols, i) && covers(y, rows, j) && g.at(i, j) == v;
    assert(g.at(i, j) <= m);
    let (a, b) = choose|a: int, b: int|
        #![trigger g.at(a, b)]
        g.contains(a, b) && covers(x, cols, a) && covers(y, rows, b) && g.at(a, b) == m;
    assert(g.at(a, b) <= v);
}

/// The dilation of a grid is the one grid that holds, at every pixel, the
/// largest sample of the window centred on it.
pub proof fn lemma_dilation_unique(src: Grid, rows: int, cols: int, out: Grid)
    requires
        src.wf(),
        is_dilation(src, rows, cols, out),
    ensures
        out == dilation(src, rows, cols),
{
    let w = src.width as int;
    let expected = dilation(src, rows, cols);
    assert(out.samples.len() == src.samples.len());
    assert forall|k: int| 0 <= k < out.samples.len() implies out.samples[k]
        == expected.samples[k] by {
        if w == 0 {
            assert(w * (src.height as int) == 0) by (nonlinear_arith)
                requires
                    w == 0,
            ;
        } else {
            let x = k % w;
            let y = k / w;
            lemma_fundamental_div_mod(k, w);
            assert(w * y == y * w) by (nonlinear_arith);
            assert(y >= 0) by (nonlinear_arith)
                requires
                    k >= 0,
                    w > 0,
                    y == k / w,
            ;
            assert(y < src.height) by (nonlinear_arith)
                requires
                    y * w + x == k,
                    0 <= x < w,
                    k < w * (src.height as int),
            ;
            assert(out.at(x, y) == out.samples[k]);
            lemma_window_max_unique(src, rows, cols, x, y, out.at(x, y));
        }
    }
    assert(out.samples =~= expected.samples);
}

/// Whether `v` is the largest sample of row `y` of `g` among the columns
/// that a window of `cols` samples centred on `x` covers.
pub open spec fn is_row_max(g: Grid, cols: int, x: int, y: int, v: u8) -> bool {
    &&& forall|i: int|
        #![trigger g.at(i, y)]
        0 <= i < g.width && covers(x, cols, i) ==> g.at(i, y) <= v
    &&& exists|i: int|
        #![trigger g.at(i, y)]
        0 <= i < g.width && covers(x, cols, i) && g.at(i, y) == v
}

/// Whether `v` is the largest sample of column `x` of `g` among the rows
/// that a window of `rows` samples centred on `y` covers.
pub open spec fn is_col_max(g: Grid, rows: int, x: int, y: int, v: u8) -> bool {
    &&& forall|j: int|
        #![trigger g.at(x, j)]
        0 <= j < g.height && covers(y, rows, j) ==> g.at(x, j) <= v
    &&& exists|j: int|
        #![trigger g.at(x, j)]
        0 <= j < g.height && covers(y, rows, j) && g.at(x, j) == v
}

/// A row-major index determines its pixel.
proof fn lemma_pixel_of_index(width: int, x: int, y: int)
    requires
        0 <= x < width,
    ensures
        (y * width + x) % width == x,
        (y * width + x) / width == y,
{
    lemma_fundamental_div_mod_converse(y * width + x, width, y, x);
}

/// The maximum over a rectangular window is the maximum, down a column, of
/// the maxima along the rows.
proof fn lemma_window_max_by_passes(
    src: Grid,
    mid: Grid,
    rows: int,
    cols: int,
    x: int,
    y: int,
    v: u8,
)
    requires
        mid.same_shape(src),
        src.contains(x, y),
        forall|a: int, b: int|
            #![trigger mid.at(a, b)]
            src.contains(a, b) ==> is_row_max(src, cols, a, b, mid.at(a, b)),
        is_col_max(mid, rows, x, y, v),
    ensures
        is_window_max(src, rows, cols, x, y, v),
{
    assert forall|i: int, j: int|
        #![trigger src.at(i, j)]
        src.contains(i, j) && covers(x, cols, i) && covers(y, rows, j) implies src.at(i, j)
        <= v by {
        assert(is_row_max(src, cols, x, j, mid.at(x, j)));
        assert(src.at(i, j) <= mid.at(x, j));
    }
    let j = choose|j: int|
        #![trigger mid.at(x, j)]
        0 <= j < mid.height && covers(y, rows, j) && mid.at(x, j) == v;
    assert(is_row_max(src, cols, x, j, mid.at(x, j)));
    let i = choose|i: int|
        #![trigger src.at(i, j)]
        0 <= i < src.width && covers(x, cols, i) && src.at(i, j) == mid.at(x, j);
    assert(src.contains(i, j) && covers(x, cols, i) && covers(y, rows, j) && src.at(i, j) == v);
}

/// Replaces every sample by the largest sample of its row within the window
/// of `cols` columns centred on it.
fn row_pass(src: &Frame, cols: usize) -> (out: Frame)
    requires
        cols >= 1,
    ensures
        out@.wf(),
        out@.same_shape(src@),
        forall|x: int, y: int|
            #![trigger out@.at(x, y)]
            src@.contains(x, y) ==> is_row_max(src@, cols as int, x, y, out@.at(x, y)),
{
    proof {
        use_type_invariant(src);
    }
    let w = src.width();
    let h = src.height();
    let xs = src.samples();
    let n = xs.len();
    let left = cols / 2;
    let right = cols - left;
    let mut out: Vec<u8> = Vec::new();
    let mut y: usize = 0;
    while y < h
        invariant
            src@.wf(),
            w == src@.width,
            h == src@.height,
            xs@ == src@.samples,
            n == xs@.len(),
            cols >= 1,
            left == cols / 2,
            right == cols - left,
            y <= h,
            out@.len() == y * w,
            forall|k: int|
                0 <= k < out@.len() ==> is_row_max(
                    src@,
                    cols as int,
                    k % (w as int),
                    k / (w as int),
                    #[trigger] out@[k],
                ),
        decreases h - y,
    {
        let mut x: usize = 0;
        while x < w
            invariant
                src@.wf(),
                w == src@.width,
                h == src@.height,
                xs@ == src@.samples,
                n == xs@.len(),
                cols >= 1,
                left == cols / 2,
                right == cols - left,
                y < h,
                x <= w,
                out@.len() == y * w + x,
                forall|k: int|
                    0 <= k < out@.len() ==> is_row_max(
                        src@,
                        cols as int,
                        k % (w as int),
                        k / (w as int),
                        #[trigger] out@[k],
                    ),
            decreases w - x,
        {
            let lo: usize = if x >= left {
                x - left
            } else {
                0
            };
            let hi: usize = if right >= w - x {
                w
            } else {
                x + right
            };
            proof {
                lemma_index_in_range(w as int, h as int, lo as int, y as int);
            }
            let mut best: u8 = xs[y * w + lo];
            let ghost mut arg: int = lo as int;
            let mut j: usize = lo + 1;
            while j < hi
                invariant
                    src@.wf(),
                    w == src@.width,
                    h == src@.height,
                    xs@ == src@.samples,
                    n == xs@.len(),
                    y < h,
                    lo < j <= hi <= w,
                    lo <= arg < j,
                    src@.at(arg, y as int) == best,
                    forall|i: int| lo <= i < j ==> #[trigger] src@.at(i, y as int) <= best,
                decreases hi - j,
            {
                proof {
                    lemma_index_in_range(w as int, h as int, j as int, y as int);
                }
                let s = xs[y * w + j];
                if s > best {
                    best = s;
                    proof {
                        arg = j as int;
                    }
                }
                j += 1;
            }
            proof {
                lemma_pixel_of_index(w as int, x as int, y as int);
                assert(covers(x as int, cols as int, arg));
                assert(is_row_max(src@, cols as int, x as int, y as int, best));
            }
            out.push(best);
            x += 1;
        }
        proof {
            assert((y + 1) * w == y * w + w) by (nonlinear_arith);
        }
        y += 1;
    }
    proof {
        assert(h * w == w * h) by (nonlinear_arith);
    }
    let r = Frame::with_samples(src, out);
    proof {
        assert forall|x: int, y: int|
            #![trigger r@.at(x, y)]
            src@.contains(x, y) implies is_row_max(src@, cols as int, x, y, r@.at(x, y)) by {
            lemma_index_in_range(w as int, h as int, x, y);
            lemma_pixel_of_index(w as int, x, y);
        }
    }
    r
}

/// Replaces every sample by the largest sample of its column within the
/// window of `rows` rows centred on it.
fn col_pass(src: &Frame, rows: usize) -> (out: Frame)
    requires
        rows >= 1,
    ensures
        out@.wf(),
        out@.same_shape(src@),
        forall|x: int, y: int|
            #![trigger out@.at(x, y)]
            src@.contains(x, y) ==> is_col_max(src@, rows as int, x, y, out@.at(x, y)),
{
    proof {
        use_type_invariant(src);
    }
    let w = src.width();
    let h = src.height();
    let xs = src.samples();
    let n = xs.len();
    let above = rows / 2;
    let below = rows - above;
    let mut out: Vec<u8> = Vec::new();
    let mut y: usize = 0;
    while y < h
        invariant
            src@.wf(),
            w == src@.width,
            h == src@.height,
            xs@ == src@.samples,
            n == xs@.len(),
            rows >= 1,
            above == rows / 2,
            below == rows - above,
            y <= h,
            out@.len() == y * w,
            forall|k: int|
                0 <= k < out@.len() ==> is_col_max(
                    src@,
                    rows as int,
                    k % (w as int),
                    k / (w as int),
                    #[trigger] out@[k],
                ),
        decreases h - y,
    {
        let lo: usize = if y >= above {
            y - above
        } else {
            0
        };
        let hi: usize = if below >= h - y {
            h
        } else {
            y + below
        };
        let mut x: usize = 0;
        while x < w
            invariant
                src@.wf(),
                w == src@.width,
                h == src@.height,
                xs@ == src@.samples,
                n == xs@.len(),
                rows >= 1,
                y < h,
                x <= w,
                lo <= y < hi <= h,
                lo == if y >= rows / 2 {
                    y - rows / 2
                } else {
                    0
                },
                hi == if y - rows / 2 + rows >= h {
                    h as int
                } else {
                    y - rows / 2 + rows
                },
                out@.len() == y * w + x,
                forall|k: int|
                    0 <= k < out@.len() ==> is_col_max(
                        src@,
                        rows as int,
                        k % (w as int),
                        k / (w as int),
                        #[trigger] out@[k],
                    ),
            decreases w - x,
        {
            proof {
                lemma_index_in_range(w as int, h as int, x as int, lo as int);
            }
            let mut best: u8 = xs[lo * w + x];
            let ghost mut arg: int = lo as int;
            let mut j: usize = lo + 1;
            while j < hi
                invariant
                    src@.wf(),
                    w == src@.width,
                    h == src@.height,
                    xs@ == src@.samples,
                    n == xs@.len(),
                    x < w,
                    lo < j <= hi <= h,
                    lo <= arg < j,
                    src@.at(x as int, arg) == best,
                    forall|i: int| lo <= i < j ==> #[trigger] src@.at(x as int, i) <= best,
                decreases hi - j,
            {
                proof {
                    lemma_index_in_range(w as int, h as int, x as int, j as int);
                }
                let s = xs[j * w + x];
                if s > best {
                    best = s;
                    proof {
                        arg = j as int;
                    }
                }
                j += 1;
            }
            proof {
                lemma_pixel_of_index(w as int, x as int, y as int);
                assert(covers(y as int, rows as int, arg));
                assert(is_col_max(src@, rows as int, x as int, y as int, best));
            }
            out.push(best);
            x += 1;
        }
        proof {
            assert((y + 1) * w == y * w + w) by (nonlinear_arith);
        }
        y += 1;
    }
    proof {
        assert(h * w == w * h) by (nonlinear_arith);
    }
    let r = Frame::with_samples(src, out);
    proof {
        assert forall|x: int, y: int|
            #![trigger r@.at(x, y)]
            src@.contains(x, y) implies is_col_max(src@, rows as int, x, y, r@.at(x, y)) by {
            lemma_index_in_range(w as int, h as int, x, y);
            lemma_pixel_of_index(w as int, x, y);
        }
    }
    r
}

/// Dilates a frame by a full `rows` by `cols` window centred on each pixel,
/// once. Window positions outside the frame do not count, which for a
/// maximum is the same as repeating the border samples. `None` when the
/// window is empty.
pub fn dilate(src: &Frame, rows: usize, cols: usize) -> (r: Option<Frame>)
    ensures
        r is Some <==> rows >= 1 && cols >= 1,
        r is Some ==> is_dilation(src@, rows as int, cols as int, r->0@),
        r is Some ==> r->0@ == dilation(src@, rows as int, cols as int),
{
    if rows == 0 || cols == 0 {
        return None;
    }
    let mid = row_pass(src, cols);
    let out = col_pass(&mid, rows);
    proof {
        assert forall|x: int, y: int|
            #![trigger out@.at(x, y)]
            src@.contains(x, y) implies is_window_max(
            src@,
            rows as int,
            cols as int,
            x,
            y,
            out@.at(x, y),
        ) by {
            lemma_window_max_by_passes(
                src@,
                mid@,
                rows as int,
                cols as int,
                x,
                y,
                out@.at(x, y),
            );
        }
        use_type_invariant(src);
        lemma_dilation_unique(src@, rows as int, cols as int, out@);
    }
    Some(out)
}

/// A grid differs nowhere from itself.
pub proof fn lemma_difference_with_self_is_blank(g: Grid)
    ensures
        difference(g, g).is_blank(),
{
}

/// Dilating a grid without foreground leaves it without foreground.
pub proof fn lemma_dilation_keeps_blank(src: Grid, rows: int, cols: int)
    requires
        src.wf(),
        src.is_blank(),
        rows >= 1,
        cols >= 1,
    ensures
        dilation(src, rows, cols).is_blank(),
{
    let w = src.width as int;
    let out = dilation(src, rows, cols);
    assert forall|k: int| 0 <= k < out.samples.len() implies out.samples[k] == 0 by {
        if w == 0 {
            assert(w * (src.height as int) == 0) by (nonlinear_arith)
                requires
                    w == 0,
            ;
        } else {
            let x = k % w;
            let y = k / w;
            lemma_fundamental_div_mod(k, w);
            assert(w * y == y * w) by (nonlinear_arith);
            assert(y >= 0) by (nonlinear_arith)
                requires
                    k >= 0,
                    w > 0,
                    y == k / w,
            ;
            assert(y < src.height) by (nonlinear_arith)
                requires
                    y * w + x == k,
                    0 <= x < w,
                    k < w * (src.height as int),
            ;
            assert(src.at(x, y) == 0);
            assert(covers(x, cols, x) && covers(y, rows, y));
            assert forall|i: int, j: int|
                #![trigger src.at(i, j)]
                src.contains(i, j) implies src.at(i, j) == 0 by {
                lemma_index_in_range(w, src.height as int, i, j);
            }
            assert(is_window_max(src, rows, cols, x, y, 0));
            lemma_window_max_unique(src, rows, cols, x, y, 0);
        }
    }
}

/// A threshold that does not let zero samples through keeps a grid without
/// foreground as it is.
pub proof fn lemma_binarized_keeps_blank(g: Grid, cut: u8, fill: u8)
    requires
        g.is_blank(),
        cut > 0 || fill == 0,
    ensures
        binarized(g, cut, fill).is_blank(),
{
}

} // verus!
