//! The three stages of the pipeline, each over buffers of `width * height` entries.
use crate::grid::{
    bit_if, block_sum, feature_at, feature_grid, in_feature_region, in_rect_region, integral_at,
    integral_grid, ints, lab_code_at, lemma_block_sum_bounds, lemma_block_sum_from_prefixes,
    lemma_block_sum_no_columns, lemma_index, lemma_row_sum_bounds, rect_sum_at, rect_sum_grid,
    row_sum, sample_values,
};
use vstd::prelude::*;

verus! {

/// Widens each sample into `dest`.
pub(crate) fn copy_samples(samples: &[u8], dest: &mut Vec<i64>)
    requires
        old(dest).len() == samples@.len(),
    ensures
        final(dest).len() == samples@.len(),
        forall|i: int| 0 <= i < samples@.len() ==> #[trigger] final(dest)@[i] == samples@[i] as i64,
        ints(final(dest)@) == sample_values(samples@),
{
    let n = samples.len();
    let mut k: usize = 0;
    while k < n
        invariant
            n == samples@.len(),
            dest.len() == n,
            0 <= k <= n,
            forall|j: int| 0 <= j < k ==> #[trigger] dest@[j] == samples@[j] as i64,
        decreases n - k,
    {
        dest[k] = samples[k] as i64;
        k = k + 1;
    }
    assert(ints(dest@) =~= sample_values(samples@));
}

/// Writes the square of each value of `src` into `dest`.
pub(crate) fn square_samples(src: &Vec<i64>, dest: &mut Vec<i64>)
    requires
        old(dest).len() == src.len(),
        forall|i: int| 0 <= i < src.len() ==> 0 <= #[trigger] src@[i] <= 255,
    ensures
        final(dest).len() == src.len(),
        forall|i: int| 0 <= i < src.len() ==> 0 <= #[trigger] final(dest)@[i] <= 255 * 255,
        forall|i: int|
            0 <= i < src.len() ==> #[trigger] final(dest)@[i] as int == (src@[i] as int) * (
            src@[i] as int),
{
    let n = src.len();
    let mut k: usize = 0;
    while k < n
        invariant
            n == src.len(),
            dest.len() == n,
            0 <= k <= n,
            forall|i: int| 0 <= i < src.len() ==> 0 <= #[trigger] src@[i] <= 255,
            forall|j: int| 0 <= j < k ==> 0 <= #[trigger] dest@[j] <= 255 * 255,
            forall|j: int|
                0 <= j < k ==> #[trigger] dest@[j] as int == (src@[j] as int) * (src@[j] as int),
        decreases n - k,
    {
        let v = src[k];
        assert(0 <= v * v <= 255 * 255) by (nonlinear_arith)
            requires
                0 <= v <= 255,
        ;
        dest[k] = v * v;
        k = k + 1;
    }
}

/// Turns a `width` x `height` grid of values in `[0, 255 * 255]` into its
/// summed-area table, in place: each entry becomes the sum of the block from
/// the grid's top-left cell to it.
pub(crate) fn compute_integral(data: &mut Vec<i64>, width: usize, height: usize)
    requires
        old(data).len() == width * height,
        forall|i: int| 0 <= i < old(data).len() ==> 0 <= #[trigger] old(data)@[i] <= 255 * 255,
        width * height * (255 * 255) <= i64::MAX,
    ensures
        final(data).len() == old(data).len(),
        ints(final(data)@) == integral_grid(ints(old(data)@), width as nat, height as nat),
{
    let ghost g = ints(data@);
    let ghost w = width as int;
    let ghost h = height as int;
    let mut k: usize = 0;
    let mut r: usize = 0;
    while r < height
        invariant
            g == ints(old(data)@),
            w == width,
            h == height,
            g.len() == w * h,
            forall|i: int| 0 <= i < g.len() ==> 0 <= #[trigger] g[i] <= 255 * 255,
            width * height * (255 * 255) <= i64::MAX,
            data.len() == w * h,
            0 <= r <= height,
            k == r * w,
            forall|j: int| 0 <= j < k ==> #[trigger] data@[j] as int == integral_at(g, w, j),
            forall|j: int| k <= j < data.len() ==> #[trigger] data@[j] == old(data)@[j],
        decreases height - r,
    {
        let mut s: i64 = 0;
        let mut c: usize = 0;
        while c < width
            invariant
                g == ints(old(data)@),
                w == width,
                h == height,
                g.len() == w * h,
                forall|i: int| 0 <= i < g.len() ==> 0 <= #[trigger] g[i] <= 255 * 255,
                width * height * (255 * 255) <= i64::MAX,
                data.len() == w * h,
                0 <= r < height,
                0 <= c <= width,
                k == r * w + c,
                s as int == row_sum(g, w, r as int, 0, c as int),
                forall|j: int| 0 <= j < k ==> #[trigger] data@[j] as int == integral_at(g, w, j),
                forall|j: int| k <= j < data.len() ==> #[trigger] data@[j] == old(data)@[j],
            decreases width - c,
        {
            proof {
                lemma_index(w, h, r as int, c as int);
                lemma_row_sum_bounds(g, w, h, r as int, 0, c as int + 1, (255 * 255) as int);
                lemma_block_sum_bounds(
                    g,
                    w,
                    h,
                    0,
                    0,
                    r as int + 1,
                    c as int + 1,
                    (255 * 255) as int,
                );
                assert((255 * 255) * (r + 1) * (c + 1) <= width * height * (255 * 255))
                    by (nonlinear_arith)
                    requires
                        0 <= r < height,
                        0 <= c < width,
                ;
                assert((255 * 255) * (c + 1) <= width * height * (255 * 255)) by (nonlinear_arith)
                    requires
                        0 <= r < height,
                        0 <= c < width,
                ;
            }
            s = s + data[k];
            let above: i64 = if r > 0 {
                proof {
                    lemma_index(w, h, r - 1, c as int);
                    assert((r - 1) * w + c == k - w) by (nonlinear_arith)
                        requires
                            k == r * w + c,
                    ;
                }
                data[k - width]
            } else {
                0
            };
            data[k] = above + s;
            proof {
                assert(g[k as int] == old(data)@[k as int] as int);
                assert(block_sum(g, w, 0, 0, r + 1, c + 1) == block_sum(g, w, 0, 0, r as int, c + 1)
                    + row_sum(g, w, r as int, 0, c + 1));
                assert(data@[k as int] as int == integral_at(g, w, k as int));
            }
            k = k + 1;
            c = c + 1;
        }
        proof {
            assert(k == (r + 1) * w) by (nonlinear_arith)
                requires
                    k == r * w + w,
            ;
        }
        r = r + 1;
    }
    proof {
        assert(k == w * h) by (nonlinear_arith)
            requires
                k == r * w,
                r == h,
        ;
    }
    assert(ints(data@) =~= integral_grid(g, width as nat, height as nat));
}

/// The sum of the block from the grid's top-left cell that spans `r` rows and
/// `c` columns, read from the summed-area table.
fn prefix(
    int_img: &Vec<i64>,
    width: usize,
    height: usize,
    r: usize,
    c: usize,
    Ghost(g): Ghost<Seq<int>>,
) -> (p: i64)
    requires
        r <= height,
        c <= width,
        int_img.len() == width * height,
        ints(int_img@) == integral_grid(g, width as nat, height as nat),
    ensures
        p as int == block_sum(g, width as int, 0, 0, r as int, c as int),
{
    if r == 0 || c == 0 {
        proof {
            lemma_block_sum_no_columns(g, width as int, 0, 0, r as int);
        }
        0
    } else {
        proof {
            lemma_index(width as int, height as int, r - 1, c - 1);
            assert(ints(int_img@)[(r - 1) * width + (c - 1)] == int_img@[(r - 1) * width + (c
                - 1)] as int);
        }
        int_img[(r - 1) * width + (c - 1)]
    }
}

/// Fills `rect_sum` with the sum of the `rect_width` x `rect_height` block at
/// every anchor whose block lies in the meaningful region, and leaves the
/// other entries as they were.
pub(crate) fn compute_rect_sum(
    int_img: &Vec<i64>,
    rect_sum: &mut Vec<i64>,
    width: usize,
    height: usize,
    rect_width: usize,
    rect_height: usize,
    Ghost(g): Ghost<Seq<int>>,
)
    requires
        g.len() == width * height,
        forall|i: int| 0 <= i < g.len() ==> 0 <= #[trigger] g[i] <= 255,
        width * height * (255 * 255) <= i64::MAX,
        int_img.len() == width * height,
        ints(int_img@) == integral_grid(g, width as nat, height as nat),
        old(rect_sum).len() == width * height,
    ensures
        final(rect_sum).len() == width * height,
        ints(final(rect_sum)@) == rect_sum_grid(
            ints(old(rect_sum)@),
            g,
            width as nat,
            height as nat,
            rect_width as nat,
            rect_height as nat,
        ),
{
    let ghost w = width as int;
    let ghost h = height as int;
    let ghost rw = rect_width as int;
    let ghost rh = rect_height as int;
    let mut k: usize = 0;
    let mut r: usize = 0;
    while r < height
        invariant
            w == width,
            h == height,
            rw == rect_width,
            rh == rect_height,
            g.len() == w * h,
            forall|i: int| 0 <= i < g.len() ==> 0 <= #[trigger] g[i] <= 255,
            width * height * (255 * 255) <= i64::MAX,
            int_img.len() == w * h,
            ints(int_img@) == integral_grid(g, width as nat, height as nat),
            rect_sum.len() == w * h,
            old(rect_sum).len() == w * h,
            0 <= r <= height,
            k == r * w,
            forall|j: int|
                0 <= j < k ==> #[trigger] rect_sum@[j] as int == rect_sum_at(
                    ints(old(rect_sum)@),
                    g,
                    w,
                    h,
                    rw,
                    rh,
                    j,
                ),
            forall|j: int| k <= j < rect_sum.len() ==> #[trigger] rect_sum@[j] == old(rect_sum)@[j],
        decreases height - r,
    {
        let mut c: usize = 0;
        while c < width
            invariant
                w == width,
                h == height,
                rw == rect_width,
                rh == rect_height,
                g.len() == w * h,
                forall|i: int| 0 <= i < g.len() ==> 0 <= #[trigger] g[i] <= 255,
                width * height * (255 * 255) <= i64::MAX,
                int_img.len() == w * h,
                ints(int_img@) == integral_grid(g, width as nat, height as nat),
                rect_sum.len() == w * h,
                old(rect_sum).len() == w * h,
                0 <= r < height,
                0 <= c <= width,
                k == r * w + c,
                forall|j: int|
                    0 <= j < k ==> #[trigger] rect_sum@[j] as int == rect_sum_at(
                        ints(old(rect_sum)@),
                        g,
                        w,
                        h,
                        rw,
                        rh,
                        j,
                    ),
                forall|j: int|
                    k <= j < rect_sum.len() ==> #[trigger] rect_sum@[j] == old(rect_sum)@[j],
            decreases width - c,
        {
            proof {
                lemma_index(w, h, r as int, c as int);
                assert(ints(old(rect_sum)@)[k as int] == old(rect_sum)@[k as int] as int);
            }
            if rect_height < height - r && rect_width < width - c {
                let bottom_right = prefix(
                    int_img,
                    width,
                    height,
                    r + rect_height,
                    c + rect_width,
                    Ghost(g),
                );
                let top_right = prefix(int_img, width, height, r, c + rect_width, Ghost(g));
                let bottom_left = prefix(int_img, width, height, r + rect_height, c, Ghost(g));
                let top_left = prefix(int_img, width, height, r, c, Ghost(g));
                proof {
                    lemma_block_sum_from_prefixes(g, w, r as int, c as int, rh, rw);
                    lemma_block_sum_bounds(g, w, h, r as int, 0, rh, c + rw, 255);
                    lemma_block_sum_bounds(g, w, h, r as int, 0, rh, c as int, 255);
                    assert(255 * rh * (c + rw) <= width * height * (255 * 255))
                        by (nonlinear_arith)
                        requires
                            0 <= rh <= height,
                            0 <= c + rw <= width,
                    ;
                    assert(255 * rh * c <= width * height * (255 * 255)) by (nonlinear_arith)
                        requires
                            0 <= rh <= height,
                            0 <= c <= width,
                    ;
                }
                rect_sum[k] = (bottom_right - top_right) - (bottom_left - top_left);
            }
            k = k + 1;
            c = c + 1;
        }
        proof {
            assert(k == (r + 1) * w) by (nonlinear_arith)
                requires
                    k == r * w + w,
            ;
        }
        r = r + 1;
    }
    proof {
        assert(k == w * h) by (nonlinear_arith)
            requires
                k == r * w,
                r == h,
        ;
    }
    assert(ints(rect_sum@) =~= rect_sum_grid(
        ints(old(rect_sum)@),
        g,
        width as nat,
        height as nat,
        rect_width as nat,
        rect_height as nat,
    ));
}

/// The sum of the `rect_width` x `rect_height` block anchored at (`r`, `c`),
/// read from the grid of block sums.
fn block_at(
    rect_sum: &Vec<i64>,
    width: usize,
    height: usize,
    rect_width: usize,
    rect_height: usize,
    r: usize,
    c: usize,
    Ghost(g): Ghost<Seq<int>>,
    Ghost(rs_prev): Ghost<Seq<int>>,
) -> (s: i64)
    requires
        in_rect_region(
            width as int,
            height as int,
            rect_width as int,
            rect_height as int,
            r as int,
            c as int,
        ),
        rect_sum.len() == width * height,
        ints(rect_sum@) == rect_sum_grid(
            rs_prev,
            g,
            width as nat,
            height as nat,
            rect_width as nat,
            rect_height as nat,
        ),
    ensures
        s as int == block_sum(
            g,
            width as int,
            r as int,
            c as int,
            rect_height as int,
            rect_width as int,
        ),
{
    proof {
        lemma_index(width as int, height as int, r as int, c as int);
        assert(ints(rect_sum@)[r * width + c] == rect_sum@[r * width + c] as int);
    }
    rect_sum[r * width + c]
}

/// `mask` when `set` holds, else no bit.
fn bit(set: bool, mask: u8) -> (b: u8)
    ensures
        b == bit_if(set, mask),
{
    if set {
        mask
    } else {
        0
    }
}

/// The descriptor byte of output pixel (`r`, `c`): the centre block of its
/// 3x3 neighbourhood compared with each of the eight around it.
fn lab_byte(
    rect_sum: &Vec<i64>,
    width: usize,
    height: usize,
    rect_width: usize,
    rect_height: usize,
    r: usize,
    c: usize,
    Ghost(g): Ghost<Seq<int>>,
    Ghost(rs_prev): Ghost<Seq<int>>,
) -> (b: u8)
    requires
        in_feature_region(
            width as int,
            height as int,
            rect_width as int,
            rect_height as int,
            r as int,
            c as int,
        ),
        rect_sum.len() == width * height,
        ints(rect_sum@) == rect_sum_grid(
            rs_prev,
            g,
            width as nat,
            height as nat,
            rect_width as nat,
            rect_height as nat,
        ),
    ensures
        b == lab_code_at(
            g,
            width as int,
            rect_width as int,
            rect_height as int,
            r as int,
            c as int,
        ),
{
    let (w, h, rw, rh) = (width, height, rect_width, rect_height);
    let r1 = r + rh;
    let r2 = r1 + rh;
    let c1 = c + rw;
    let c2 = c1 + rw;
    let (gg, gp) = (Ghost(g), Ghost(rs_prev));
    let center = block_at(rect_sum, w, h, rw, rh, r1, c1, gg, gp);
    let top_left = block_at(rect_sum, w, h, rw, rh, r, c, gg, gp);
    let top_mid = block_at(rect_sum, w, h, rw, rh, r, c1, gg, gp);
    let top_right = block_at(rect_sum, w, h, rw, rh, r, c2, gg, gp);
    let mid_left = block_at(rect_sum, w, h, rw, rh, r1, c, gg, gp);
    let mid_right = block_at(rect_sum, w, h, rw, rh, r1, c2, gg, gp);
    let bottom_left = block_at(rect_sum, w, h, rw, rh, r2, c, gg, gp);
    let bottom_mid = block_at(rect_sum, w, h, rw, rh, r2, c1, gg, gp);
    let bottom_right = block_at(rect_sum, w, h, rw, rh, r2, c2, gg, gp);
    bit(center >= top_left, 0x80) | bit(center >= top_mid, 0x40) | bit(center >= top_right, 0x20)
        | bit(center >= mid_left, 0x10) | bit(center >= mid_right, 0x08) | bit(
        center >= bottom_left,
        0x04,
    ) | bit(center >= bottom_mid, 0x02) | bit(center >= bottom_right, 0x01)
}

/// Fills `feat_map` with the descriptor byte of every output pixel whose 3x3
/// neighbourhood of `rect_width` x `rect_height` blocks lies in the image, and
/// leaves the other entries as they were.
pub(crate) fn compute_feature_map(
    rect_sum: &Vec<i64>,
    feat_map: &mut Vec<u8>,
    width: usize,
    height: usize,
    rect_width: u32,
    rect_height: u32,
    Ghost(g): Ghost<Seq<int>>,
    Ghost(rs_prev): Ghost<Seq<int>>,
)
    requires
        rect_sum.len() == width * height,
        ints(rect_sum@) == rect_sum_grid(
            rs_prev,
            g,
            width as nat,
            height as nat,
            rect_width as nat,
            rect_height as nat,
        ),
        old(feat_map).len() == width * height,
    ensures
        final(feat_map).len() == width * height,
        final(feat_map)@ == feature_grid(
            old(feat_map)@,
            g,
            width as nat,
            height as nat,
            rect_width as nat,
            rect_height as nat,
        ),
{
    let ghost w = width as int;
    let ghost h = height as int;
    let ghost rw = rect_width as int;
    let ghost rh = rect_height as int;
    let span_w: u64 = 3 * (rect_width as u64);
    let span_h: u64 = 3 * (rect_height as u64);
    let mut k: usize = 0;
    let mut r: usize = 0;
    while r < height
        invariant
            w == width,
            h == height,
            rw == rect_width,
            rh == rect_height,
            span_w == 3 * rw,
            span_h == 3 * rh,
            rect_sum.len() == w * h,
            ints(rect_sum@) == rect_sum_grid(
                rs_prev,
                g,
                width as nat,
                height as nat,
                rw as nat,
                rh as nat,
            ),
            feat_map.len() == w * h,
            old(feat_map).len() == w * h,
            0 <= r <= height,
            k == r * w,
            forall|j: int|
                0 <= j < k ==> #[trigger] feat_map@[j] == feature_at(
                    old(feat_map)@,
                    g,
                    w,
                    h,
                    rw,
                    rh,
                    j,
                ),
            forall|j: int| k <= j < feat_map.len() ==> #[trigger] feat_map@[j] == old(feat_map)@[j],
        decreases height - r,
    {
        let mut c: usize = 0;
        while c < width
            invariant
                w == width,
                h == height,
                rw == rect_width,
                rh == rect_height,
                span_w == 3 * rw,
                span_h == 3 * rh,
                rect_sum.len() == w * h,
                ints(rect_sum@) == rect_sum_grid(
                    rs_prev,
                    g,
                    width as nat,
                    height as nat,
                    rw as nat,
                    rh as nat,
                ),
                feat_map.len() == w * h,
                old(feat_map).len() == w * h,
                0 <= r < height,
                0 <= c <= width,
                k == r * w + c,
                forall|j: int|
                    0 <= j < k ==> #[trigger] feat_map@[j] == feature_at(
                        old(feat_map)@,
                        g,
                        w,
                        h,
                        rw,
                        rh,
                        j,
                    ),
                forall|j: int|
                    k <= j < feat_map.len() ==> #[trigger] feat_map@[j] == old(feat_map)@[j],
            decreases width - c,
        {
            proof {
                lemma_index(w, h, r as int, c as int);
            }
            if span_h < (height - r) as u64 && span_w < (width - c) as u64 {
                feat_map[k] = lab_byte(
                    rect_sum,
                    width,
                    height,
                    rect_width as usize,
                    rect_height as usize,
                    r,
                    c,
                    Ghost(g),
                    Ghost(rs_prev),
                );
            }
            k = k + 1;
            c = c + 1;
        }
        proof {
            assert(k == (r + 1) * w) by (nonlinear_arith)
                requires
                    k == r * w + w,
            ;
        }
        r = r + 1;
    }
    proof {
        assert(k == w * h) by (nonlinear_arith)
            requires
                k == r * w,
                r == h,
        ;
    }
    assert(feat_map@ =~= feature_grid(
        old(feat_map)@,
        g,
        width as nat,
        height as nat,
        rw as nat,
        rh as nat,
    ));
}

} // verus!
