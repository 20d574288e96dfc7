//! The mathematical model of the pipeline: row-major grids of integers, the
//! sums of their blocks, and the descriptor byte of a 3x3 neighbourhood.
use vstd::arithmetic::div_mod::lemma_fundamental_div_mod_converse;
use vstd::prelude::*;

verus! {

/// The values of a sequence of 64-bit integers, as mathematical integers.
pub open spec fn ints(v: Seq<i64>) -> Seq<int> {
    v.map_values(|x: i64| x as int)
}

/// The samples of an image, as integers.
pub open spec fn sample_values(s: Seq<u8>) -> Seq<int> {
    Seq::new(s.len(), |i: int| s[i] as int)
}

/// The squares of the samples of an image, as integers.
pub open spec fn square_values(s: Seq<u8>) -> Seq<int> {
    Seq::new(s.len(), |i: int| (s[i] as int) * (s[i] as int))
}

/// The cell at row `r`, column `c` of a row-major grid `g` that is `w` cells wide.
pub open spec fn cell(g: Seq<int>, w: int, r: int, c: int) -> int {
    g[r * w + c]
}

/// Sum of the `n` cells of row `r` starting at column `c`.
pub open spec fn row_sum(g: Seq<int>, w: int, r: int, c: int, n: int) -> int
    decreases n,
{
    if n <= 0 {
        0
    } else {
        row_sum(g, w, r, c, n - 1) + cell(g, w, r, c + n - 1)
    }
}

/// Sum of the cells of the block of `h` rows and `n` columns whose top-left
/// cell is (`r`, `c`).
pub open spec fn block_sum(g: Seq<int>, w: int, r: int, c: int, h: int, n: int) -> int
    decreases h,
{
    if h <= 0 {
        0
    } else {
        block_sum(g, w, r, c, h - 1, n) + row_sum(g, w, r + h - 1, c, n)
    }
}

/// Entry `i` of the summed-area table: the sum of every cell in rows `0..=i / w`
/// and columns `0..=i % w`.
pub open spec fn integral_at(g: Seq<int>, w: int, i: int) -> int {
    block_sum(g, w, 0, 0, i / w + 1, i % w + 1)
}

/// The summed-area table of a `w` x `h` grid.
pub open spec fn integral_grid(g: Seq<int>, w: nat, h: nat) -> Seq<int> {
    Seq::new(w * h, |i: int| integral_at(g, w as int, i))
}

/// Whether the `rw` x `rh` block anchored at (`r`, `c`) has a meaningful sum.
pub open spec fn in_rect_region(w: int, h: int, rw: int, rh: int, r: int, c: int) -> bool {
    r + rh < h && c + rw < w
}

/// Entry `i` of the block-sum grid: the sum of the `rw` x `rh` block anchored
/// at pixel `i` where that block has a meaningful sum, and the earlier content
/// `prev[i]` elsewhere.
pub open spec fn rect_sum_at(
    prev: Seq<int>,
    g: Seq<int>,
    w: int,
    h: int,
    rw: int,
    rh: int,
    i: int,
) -> int {
    if in_rect_region(w, h, rw, rh, i / w, i % w) {
        block_sum(g, w, i / w, i % w, rh, rw)
    } else {
        prev[i]
    }
}

/// The grid of block sums of a `w` x `h` grid, for blocks of `rw` x `rh` cells,
/// written over the earlier content `prev`.
pub open spec fn rect_sum_grid(
    prev: Seq<int>,
    g: Seq<int>,
    w: nat,
    h: nat,
    rw: nat,
    rh: nat,
) -> Seq<int> {
    Seq::new(w * h, |i: int| rect_sum_at(prev, g, w as int, h as int, rw as int, rh as int, i))
}

/// `mask` when `set` holds, else no bit.
pub open spec fn bit_if(set: bool, mask: u8) -> u8 {
    if set {
        mask
    } else {
        0
    }
}

/// The descriptor byte of a 3x3 neighbourhood of block sums: one bit for each
/// surrounding block whose sum the centre block's sum reaches.
pub open spec fn lab_code(
    center: int,
    top_left: int,
    top_mid: int,
    top_right: int,
    mid_left: int,
    mid_right: int,
    bottom_left: int,
    bottom_mid: int,
    bottom_right: int,
) -> u8 {
    bit_if(center >= top_left, 0x80) | bit_if(center >= top_mid, 0x40) | bit_if(
        center >= top_right,
        0x20,
    ) | bit_if(center >= mid_left, 0x10) | bit_if(center >= mid_right, 0x08) | bit_if(
        center >= bottom_left,
        0x04,
    ) | bit_if(center >= bottom_mid, 0x02) | bit_if(center >= bottom_right, 0x01)
}

/// Sum of block (`i`, `j`) of the 3x3 neighbourhood of output pixel (`r`, `c`).
pub open spec fn neighbour_sum(
    g: Seq<int>,
    w: int,
    rw: int,
    rh: int,
    r: int,
    c: int,
    i: int,
    j: int,
) -> int {
    block_sum(g, w, r + i * rh, c + j * rw, rh, rw)
}

/// The descriptor byte of output pixel (`r`, `c`).
pub open spec fn lab_code_at(g: Seq<int>, w: int, rw: int, rh: int, r: int, c: int) -> u8 {
    lab_code(
        neighbour_sum(g, w, rw, rh, r, c, 1, 1),
        neighbour_sum(g, w, rw, rh, r, c, 0, 0),
        neighbour_sum(g, w, rw, rh, r, c, 0, 1),
        neighbour_sum(g, w, rw, rh, r, c, 0, 2),
        neighbour_sum(g, w, rw, rh, r, c, 1, 0),
        neighbour_sum(g, w, rw, rh, r, c, 1, 2),
        neighbour_sum(g, w, rw, rh, r, c, 2, 0),
        neighbour_sum(g, w, rw, rh, r, c, 2, 1),
        neighbour_sum(g, w, rw, rh, r, c, 2, 2),
    )
}

/// Whether the block of `h` rows and `n` columns anchored at (`r`, `c`) holds
/// the cell (`sr`, `sc`).
pub open spec fn block_holds(r: int, c: int, h: int, n: int, sr: int, sc: int) -> bool {
    r <= sr < r + h && c <= sc < c + n
}

/// The bit of the descriptor byte that block (`i`, `j`) of the 3x3
/// neighbourhood decides; the centre block decides none.
pub open spec fn neighbour_mask(i: int, j: int) -> u8 {
    if i == 0 && j == 0 {
        0x80
    } else if i == 0 && j == 1 {
        0x40
    } else if i == 0 && j == 2 {
        0x20
    } else if i == 1 && j == 0 {
        0x10
    } else if i == 1 && j == 2 {
        0x08
    } else if i == 2 && j == 0 {
        0x04
    } else if i == 2 && j == 1 {
        0x02
    } else if i == 2 && j == 2 {
        0x01
    } else {
        0
    }
}

/// Whether output pixel (`r`, `c`) has a meaningful descriptor byte.
pub open spec fn in_feature_region(w: int, h: int, rw: int, rh: int, r: int, c: int) -> bool {
    r + 3 * rh < h && c + 3 * rw < w
}

/// Entry `i` of the descriptor map: the descriptor byte of pixel `i` where it
/// is meaningful, and the earlier content `prev[i]` elsewhere.
pub open spec fn feature_at(
    prev: Seq<u8>,
    g: Seq<int>,
    w: int,
    h: int,
    rw: int,
    rh: int,
    i: int,
) -> u8 {
    if in_feature_region(w, h, rw, rh, i / w, i % w) {
        lab_code_at(g, w, rw, rh, i / w, i % w)
    } else {
        prev[i]
    }
}

/// The descriptor map of a `w` x `h` grid, for blocks of `rw` x `rh` cells,
/// written over the earlier content `prev`.
pub open spec fn feature_grid(
    prev: Seq<u8>,
    g: Seq<int>,
    w: nat,
    h: nat,
    rw: nat,
    rh: nat,
) -> Seq<u8> {
    Seq::new(w * h, |i: int| feature_at(prev, g, w as int, h as int, rw as int, rh as int, i))
}

/// A buffer resized to `n` entries: it keeps its entries below `n` and gains
/// `fill` in each new one.
pub open spec fn resized<A>(prev: Seq<A>, n: nat, fill: A) -> Seq<A> {
    Seq::new(n, |i: int| if i < prev.len() { prev[i] } else { fill })
}

/// Block (`i`, `j`) of a 3x3 neighbourhood lies inside the neighbourhood.
pub proof fn lemma_neighbour_inside(i: int, j: int, rw: int, rh: int)
    requires
        0 <= i < 3,
        0 <= j < 3,
        0 <= rw,
        0 <= rh,
    ensures
        0 <= i * rh,
        i * rh + rh <= 3 * rh,
        0 <= j * rw,
        j * rw + rw <= 3 * rw,
{
    assert(0 <= i * rh && i * rh + rh <= 3 * rh) by (nonlinear_arith)
        requires
            0 <= i < 3,
            0 <= rh,
    ;
    assert(0 <= j * rw && j * rw + rw <= 3 * rw) by (nonlinear_arith)
        requires
            0 <= j < 3,
            0 <= rw,
    ;
}

/// Row `r`, column `c` of a `w` x `h` grid is at flat index `r * w + c`, and
/// that index gives the row and column back.
pub proof fn lemma_index(w: int, h: int, r: int, c: int)
    requires
        0 <= r < h,
        0 <= c < w,
    ensures
        0 <= r * w + c < w * h,
        (r * w + c) / w == r,
        (r * w + c) % w == c,
{
    lemma_fundamental_div_mod_converse(r * w + c, w, r, c);
    assert(0 <= r * w + c < w * h) by (nonlinear_arith)
        requires
            0 <= r < h,
            0 <= c < w,
    ;
}

/// A row sum of cells that lie in `[0, m]` lies in `[0, m * n]`.
pub proof fn lemma_row_sum_bounds(g: Seq<int>, w: int, h: int, r: int, c: int, n: int, m: int)
    requires
        g.len() == w * h,
        0 <= r < h,
        0 <= c,
        0 <= n,
        c + n <= w,
        0 <= m,
        forall|i: int| 0 <= i < g.len() ==> 0 <= #[trigger] g[i] <= m,
    ensures
        0 <= row_sum(g, w, r, c, n) <= m * n,
    decreases n,
{
    if n > 0 {
        lemma_row_sum_bounds(g, w, h, r, c, n - 1, m);
        lemma_index(w, h, r, c + n - 1);
        assert(m * (n - 1) + m == m * n) by (nonlinear_arith);
    }
}

/// A block sum of cells that lie in `[0, m]` lies in `[0, m * h * n]`.
pub proof fn lemma_block_sum_bounds(
    g: Seq<int>,
    w: int,
    h: int,
    r: int,
    c: int,
    bh: int,
    n: int,
    m: int,
)
    requires
        g.len() == w * h,
        0 <= r,
        0 <= bh,
        r + bh <= h,
        0 <= c,
        0 <= n,
        c + n <= w,
        0 <= m,
        forall|i: int| 0 <= i < g.len() ==> 0 <= #[trigger] g[i] <= m,
    ensures
        0 <= block_sum(g, w, r, c, bh, n) <= m * bh * n,
    decreases bh,
{
    if bh > 0 {
        lemma_block_sum_bounds(g, w, h, r, c, bh - 1, n, m);
        lemma_row_sum_bounds(g, w, h, r + bh - 1, c, n, m);
        assert(m * (bh - 1) * n + m * n == m * bh * n) by (nonlinear_arith);
    }
}

/// A block of no columns sums to zero.
pub proof fn lemma_block_sum_no_columns(g: Seq<int>, w: int, r: int, c: int, bh: int)
    ensures
        block_sum(g, w, r, c, bh, 0) == 0,
    decreases bh,
{
    if bh > 0 {
        lemma_block_sum_no_columns(g, w, r, c, bh - 1);
    }
}

/// A row sum splits at any column.
pub proof fn lemma_row_sum_split(g: Seq<int>, w: int, r: int, c: int, n1: int, n2: int)
    requires
        0 <= n1,
        0 <= n2,
    ensures
        row_sum(g, w, r, c, n1 + n2) == row_sum(g, w, r, c, n1) + row_sum(g, w, r, c + n1, n2),
    decreases n2,
{
    if n2 > 0 {
        lemma_row_sum_split(g, w, r, c, n1, n2 - 1);
    }
}

/// A block sum splits at any column.
pub proof fn lemma_block_sum_split_columns(
    g: Seq<int>,
    w: int,
    r: int,
    c: int,
    bh: int,
    n1: int,
    n2: int,
)
    requires
        0 <= n1,
        0 <= n2,
    ensures
        block_sum(g, w, r, c, bh, n1 + n2) == block_sum(g, w, r, c, bh, n1) + block_sum(
            g,
            w,
            r,
            c + n1,
            bh,
            n2,
        ),
    decreases bh,
{
    if bh > 0 {
        lemma_block_sum_split_columns(g, w, r, c, bh - 1, n1, n2);
        lemma_row_sum_split(g, w, r + bh - 1, c, n1, n2);
    }
}

/// A block sum splits at any row.
pub proof fn lemma_block_sum_split_rows(
    g: Seq<int>,
    w: int,
    r: int,
    c: int,
    h1: int,
    h2: int,
    n: int,
)
    requires
        0 <= h1,
        0 <= h2,
    ensures
        block_sum(g, w, r, c, h1 + h2, n) == block_sum(g, w, r, c, h1, n) + block_sum(
            g,
            w,
            r + h1,
            c,
            h2,
            n,
        ),
    decreases h2,
{
    if h2 > 0 {
        lemma_block_sum_split_rows(g, w, r, c, h1, h2 - 1, n);
    }
}

/// The sum of any block follows from four entries of the summed-area table:
/// the block anchored at (`r`, `c`) is what the rectangle up to its far corner
/// holds, less the rectangles above and to its left, plus their overlap.
pub proof fn lemma_block_sum_from_prefixes(g: Seq<int>, w: int, r: int, c: int, bh: int, n: int)
    requires
        0 <= r,
        0 <= c,
        0 <= bh,
        0 <= n,
    ensures
        block_sum(g, w, 0, 0, r + bh, c + n) - block_sum(g, w, 0, 0, r, c + n) == block_sum(
            g,
            w,
            r,
            0,
            bh,
            c + n,
        ),
        block_sum(g, w, 0, 0, r + bh, c) - block_sum(g, w, 0, 0, r, c) == block_sum(
            g,
            w,
            r,
            0,
            bh,
            c,
        ),
        block_sum(g, w, r, c, bh, n) == block_sum(g, w, 0, 0, r + bh, c + n) - block_sum(
            g,
            w,
            0,
            0,
            r,
            c + n,
        ) - block_sum(g, w, 0, 0, r + bh, c) + block_sum(g, w, 0, 0, r, c),
{
    lemma_block_sum_split_rows(g, w, 0, 0, r, bh, c + n);
    lemma_block_sum_split_rows(g, w, 0, 0, r, bh, c);
    lemma_block_sum_split_columns(g, w, r, 0, bh, c, n);
}

/// Two grids whose cells agree over a block have the same sum over it.
pub proof fn lemma_block_sum_agree(
    g1: Seq<int>,
    g2: Seq<int>,
    w: int,
    r: int,
    c: int,
    bh: int,
    n: int,
)
    requires
        forall|rr: int, cc: int|
            r <= rr < r + bh && c <= cc < c + n ==> #[trigger] cell(g1, w, rr, cc) == cell(
                g2,
                w,
                rr,
                cc,
            ),
    ensures
        block_sum(g1, w, r, c, bh, n) == block_sum(g2, w, r, c, bh, n),
    decreases bh,
{
    if bh > 0 {
        lemma_block_sum_agree(g1, g2, w, r, c, bh - 1, n);
        lemma_row_sum_agree(g1, g2, w, r + bh - 1, c, n);
    }
}

/// Two grids whose cells agree over part of a row have the same sum over it.
pub proof fn lemma_row_sum_agree(g1: Seq<int>, g2: Seq<int>, w: int, r: int, c: int, n: int)
    requires
        forall|cc: int| c <= cc < c + n ==> #[trigger] cell(g1, w, r, cc) == cell(g2, w, r, cc),
    ensures
        row_sum(g1, w, r, c, n) == row_sum(g2, w, r, c, n),
    decreases n,
{
    if n > 0 {
        lemma_row_sum_agree(g1, g2, w, r, c, n - 1);
    }
}

/// Part of a row that holds the one cell (`r`, `sc`) on which two grids differ
/// has sums that differ by exactly what that cell differs by.
pub proof fn lemma_row_sum_one_cell(
    g1: Seq<int>,
    g2: Seq<int>,
    w: int,
    r: int,
    c: int,
    n: int,
    sc: int,
)
    requires
        c <= sc < c + n,
        forall|cc: int|
            c <= cc < c + n && cc != sc ==> #[trigger] cell(g1, w, r, cc) == cell(g2, w, r, cc),
    ensures
        row_sum(g2, w, r, c, n) - row_sum(g1, w, r, c, n) == cell(g2, w, r, sc) - cell(
            g1,
            w,
            r,
            sc,
        ),
    decreases n,
{
    if c + n - 1 == sc {
        lemma_row_sum_agree(g1, g2, w, r, c, n - 1);
    } else {
        lemma_row_sum_one_cell(g1, g2, w, r, c, n - 1, sc);
    }
}

/// A block that holds the one cell (`sr`, `sc`) on which two grids differ has
/// sums that differ by exactly what that cell differs by.
pub proof fn lemma_block_sum_one_cell(
    g1: Seq<int>,
    g2: Seq<int>,
    w: int,
    r: int,
    c: int,
    bh: int,
    n: int,
    sr: int,
    sc: int,
)
    requires
        block_holds(r, c, bh, n, sr, sc),
        forall|rr: int, cc: int|
            r <= rr < r + bh && c <= cc < c + n && !(rr == sr && cc == sc) ==> #[trigger] cell(
                g1,
                w,
                rr,
                cc,
            ) == cell(g2, w, rr, cc),
    ensures
        block_sum(g2, w, r, c, bh, n) - block_sum(g1, w, r, c, bh, n) == cell(g2, w, sr, sc)
            - cell(g1, w, sr, sc),
    decreases bh,
{
    assert forall|cc: int| c <= cc < c + n && cc != sc implies #[trigger] cell(g1, w, sr, cc)
        == cell(g2, w, sr, cc) by {}
    if r + bh - 1 == sr {
        lemma_block_sum_agree(g1, g2, w, r, c, bh - 1, n);
        lemma_row_sum_one_cell(g1, g2, w, sr, c, n, sc);
    } else {
        lemma_block_sum_one_cell(g1, g2, w, r, c, bh - 1, n, sr, sc);
        lemma_row_sum_agree(g1, g2, w, r + bh - 1, c, n);
    }
}

/// A block of cells that all hold `v` sums to `v * h * n`.
pub proof fn lemma_block_sum_uniform(g: Seq<int>, w: int, r: int, c: int, bh: int, n: int, v: int)
    requires
        0 <= bh,
        0 <= n,
        forall|rr: int, cc: int|
            r <= rr < r + bh && c <= cc < c + n ==> #[trigger] cell(g, w, rr, cc) == v,
    ensures
        block_sum(g, w, r, c, bh, n) == v * bh * n,
    decreases bh,
{
    if bh > 0 {
        lemma_block_sum_uniform(g, w, r, c, bh - 1, n, v);
        lemma_row_sum_uniform(g, w, r + bh - 1, c, n, v);
        assert(v * (bh - 1) * n + v * n == v * bh * n) by (nonlinear_arith);
    } else {
        assert(v * bh * n == 0) by (nonlinear_arith)
            requires
                bh == 0,
        ;
    }
}

/// Part of a row whose cells all hold `v` sums to `v * n`.
pub proof fn lemma_row_sum_uniform(g: Seq<int>, w: int, r: int, c: int, n: int, v: int)
    requires
        0 <= n,
        forall|cc: int| c <= cc < c + n ==> #[trigger] cell(g, w, r, cc) == v,
    ensures
        row_sum(g, w, r, c, n) == v * n,
    decreases n,
{
    if n > 0 {
        lemma_row_sum_uniform(g, w, r, c, n - 1, v);
        assert(v * (n - 1) + v == v * n) by (nonlinear_arith);
    } else {
        assert(v * n == 0) by (nonlinear_arith)
            requires
                n == 0,
        ;
    }
}

} // verus!
