//! Properties of the descriptor map that hold for every image.
use crate::feature_map::{computed, FeatureMapModel};
use crate::grid::{
    bit_if, block_holds, block_sum, cell, feature_grid, in_feature_region, in_rect_region,
    integral_grid, lab_code, lab_code_at, lemma_block_sum_agree, lemma_block_sum_one_cell,
    lemma_block_sum_uniform, lemma_index, lemma_neighbour_inside, neighbour_mask, neighbour_sum,
    rect_sum_grid, resized, sample_values,
};
use vstd::prelude::*;

verus! {

/// Entry (`r`, `c`) of the summed-area table of an image is the sum of the
/// samples in rows `0..=r` and columns `0..=c`.
pub proof fn lemma_integral_entry(s: Seq<u8>, w: nat, h: nat, r: int, c: int)
    requires
        s.len() == w * h,
        0 <= r < h,
        0 <= c < w,
    ensures
        integral_grid(sample_values(s), w, h)[r * w + c]
            == block_sum(sample_values(s), w as int, 0, 0, r + 1, c + 1),
{
    lemma_index(w as int, h as int, r, c);
}

/// The block sum stored for a meaningful anchor (`r`, `c`) is the sum of the
/// samples of the `rw` x `rh` block whose top-left sample is (`r`, `c`).
pub proof fn lemma_rect_sum_entry(
    prev: Seq<int>,
    s: Seq<u8>,
    w: nat,
    h: nat,
    rw: nat,
    rh: nat,
    r: int,
    c: int,
)
    requires
        s.len() == w * h,
        0 <= r,
        0 <= c,
        in_rect_region(w as int, h as int, rw as int, rh as int, r, c),
    ensures
        rect_sum_grid(prev, sample_values(s), w, h, rw, rh)[r * w + c]
            == block_sum(sample_values(s), w as int, r, c, rh as int, rw as int),
{
    lemma_index(w as int, h as int, r, c);
}

/// At a meaningful pixel, the bit of each of the eight surrounding blocks is
/// set exactly when the centre block's sum reaches that block's sum; a tie
/// sets the bit.
pub proof fn lemma_descriptor_bits(
    prev: Seq<u8>,
    s: Seq<u8>,
    w: nat,
    h: nat,
    rw: nat,
    rh: nat,
    r: int,
    c: int,
)
    requires
        s.len() == w * h,
        0 <= r,
        0 <= c,
        in_feature_region(w as int, h as int, rw as int, rh as int, r, c),
    ensures
        forall|bi: int, bj: int|
            0 <= bi < 3 && 0 <= bj < 3 && !(bi == 1 && bj == 1) ==> ((
            feature_grid(prev, sample_values(s), w, h, rw, rh)[r * w + c] & #[trigger] neighbour_mask(bi, bj))
                == neighbour_mask(bi, bj) <==> neighbour_sum(
                sample_values(s),
                w as int,
                rw as int,
                rh as int,
                r,
                c,
                1,
                1,
            ) >= neighbour_sum(sample_values(s), w as int, rw as int, rh as int, r, c, bi, bj)),
{
    let g = sample_values(s);
    let (wi, rwi, rhi) = (w as int, rw as int, rh as int);
    lemma_index(wi, h as int, r, c);
    let x = neighbour_sum(g, wi, rwi, rhi, r, c, 1, 1);
    let b0 = bit_if(x >= neighbour_sum(g, wi, rwi, rhi, r, c, 0, 0), 0x80);
    let b1 = bit_if(x >= neighbour_sum(g, wi, rwi, rhi, r, c, 0, 1), 0x40);
    let b2 = bit_if(x >= neighbour_sum(g, wi, rwi, rhi, r, c, 0, 2), 0x20);
    let b3 = bit_if(x >= neighbour_sum(g, wi, rwi, rhi, r, c, 1, 0), 0x10);
    let b4 = bit_if(x >= neighbour_sum(g, wi, rwi, rhi, r, c, 1, 2), 0x08);
    let b5 = bit_if(x >= neighbour_sum(g, wi, rwi, rhi, r, c, 2, 0), 0x04);
    let b6 = bit_if(x >= neighbour_sum(g, wi, rwi, rhi, r, c, 2, 1), 0x02);
    let b7 = bit_if(x >= neighbour_sum(g, wi, rwi, rhi, r, c, 2, 2), 0x01);
    let byte = b0 | b1 | b2 | b3 | b4 | b5 | b6 | b7;
    assert(feature_grid(prev, g, w, h, rw, rh)[r * w + c] == byte);
    assert((byte & 0x80 == 0x80 <==> b0 == 0x80) && (byte & 0x40 == 0x40 <==> b1 == 0x40) && (
    byte & 0x20 == 0x20 <==> b2 == 0x20) && (byte & 0x10 == 0x10 <==> b3 == 0x10) && (byte & 0x08
        == 0x08 <==> b4 == 0x08) && (byte & 0x04 == 0x04 <==> b5 == 0x04) && (byte & 0x02 == 0x02
        <==> b6 == 0x02) && (byte & 0x01 == 0x01 <==> b7 == 0x01)) by (bit_vector)
        requires
            byte == b0 | b1 | b2 | b3 | b4 | b5 | b6 | b7,
            b0 == 0 || b0 == 0x80,
            b1 == 0 || b1 == 0x40,
            b2 == 0 || b2 == 0x20,
            b3 == 0 || b3 == 0x10,
            b4 == 0 || b4 == 0x08,
            b5 == 0 || b5 == 0x04,
            b6 == 0 || b6 == 0x02,
            b7 == 0 || b7 == 0x01,
    ;
}

/// In an image whose samples are all equal, every block of a given size has
/// the same sum, so every meaningful descriptor byte has all eight bits set.
pub proof fn lemma_uniform_image_sets_every_bit(
    prev: Seq<u8>,
    s: Seq<u8>,
    w: nat,
    h: nat,
    rw: nat,
    rh: nat,
)
    requires
        s.len() == w * h,
        forall|i: int, j: int| 0 <= i < s.len() && 0 <= j < s.len() ==> s[i] == s[j],
    ensures
        forall|i: int|
            0 <= i < w * h && in_feature_region(w as int, h as int, rw as int, rh as int, i / w as int, i % w as int)
                ==> #[trigger] feature_grid(prev, sample_values(s), w, h, rw, rh)[i] == 0xFF,
{
    let g = sample_values(s);
    let wi = w as int;
    let hi = h as int;
    assert forall|i: int|
        0 <= i < w * h && in_feature_region(wi, hi, rw as int, rh as int, i / wi, i % wi)
        implies #[trigger] feature_grid(prev, g, w, h, rw, rh)[i] == 0xFF by {
        let v = s[0] as int;
        let r = i / wi;
        let c = i % wi;
        assert forall|rr: int, cc: int| 0 <= rr < h && 0 <= cc < w
            implies #[trigger] cell(g, wi, rr, cc) == v by {
            lemma_index(wi, hi, rr, cc);
        }
        let x = v * rh * rw;
        assert forall|bi: int, bj: int| 0 <= bi < 3 && 0 <= bj < 3
            implies #[trigger] neighbour_sum(g, wi, rw as int, rh as int, r, c, bi, bj) == x by {
            lemma_neighbour_inside(bi, bj, rw as int, rh as int);
            lemma_block_sum_uniform(g, wi, r + bi * rh, c + bj * rw, rh as int, rw as int, v);
        }
        assert(lab_code(x, x, x, x, x, x, x, x, x) == 0xFF) by {
            assert(0x80u8 | 0x40u8 | 0x20u8 | 0x10u8 | 0x08u8 | 0x04u8 | 0x02u8 | 0x01u8 == 0xFFu8)
                by (bit_vector);
        }
    }
}

/// Where the centre block of a meaningful pixel sums to less than each of the
/// eight blocks around it, its descriptor byte has no bit set.
pub proof fn lemma_center_below_all_clears_byte(
    prev: Seq<u8>,
    s: Seq<u8>,
    w: nat,
    h: nat,
    rw: nat,
    rh: nat,
    r: int,
    c: int,
)
    requires
        s.len() == w * h,
        0 <= r,
        0 <= c,
        in_feature_region(w as int, h as int, rw as int, rh as int, r, c),
        forall|bi: int, bj: int|
            0 <= bi < 3 && 0 <= bj < 3 && !(bi == 1 && bj == 1)
                ==> neighbour_sum(sample_values(s), w as int, rw as int, rh as int, r, c, 1, 1)
                < #[trigger] neighbour_sum(sample_values(s), w as int, rw as int, rh as int, r, c, bi, bj),
    ensures
        feature_grid(prev, sample_values(s), w, h, rw, rh)[r * w + c] == 0,
{
    lemma_index(w as int, h as int, r, c);
    assert(0u8 | 0u8 | 0u8 | 0u8 | 0u8 | 0u8 | 0u8 | 0u8 == 0u8) by (bit_vector);
    assert(lab_code_at(sample_values(s), w as int, rw as int, rh as int, r, c) == 0);
}

/// Computing the same image twice in a row leaves the same state as computing
/// it once: in particular the same descriptor map.
pub proof fn lemma_compute_idempotent(m: FeatureMapModel, s: Seq<u8>, width: nat, height: nat)
    ensures
        computed(computed(m, s, width, height), s, width, height) == computed(m, s, width, height),
{
    let once = computed(m, s, width, height);
    let twice = computed(once, s, width, height);
    assert(resized(once.rect_sums, width * height, 0) =~= once.rect_sums);
    assert(resized(once.features, width * height, 0) =~= once.features);
    assert(twice.rect_sums =~= once.rect_sums);
    assert(twice.features =~= once.features);
}

/// Changing one sample, at row `sr`, column `sc`, changes no block sum whose
/// block leaves that sample out, and no descriptor byte whose 3x3
/// neighbourhood of blocks leaves it out. The meaningful block sums whose
/// block holds the sample change by exactly what the sample changed by.
pub proof fn lemma_single_sample_locality(
    prev_sums: Seq<int>,
    prev_bytes: Seq<u8>,
    s1: Seq<u8>,
    s2: Seq<u8>,
    w: nat,
    h: nat,
    rw: nat,
    rh: nat,
    sr: int,
    sc: int,
)
    requires
        s1.len() == w * h,
        s2.len() == w * h,
        0 <= sr < h,
        0 <= sc < w,
        forall|i: int| 0 <= i < w * h && i != sr * w + sc ==> s1[i] == s2[i],
    ensures
        forall|i: int|
            0 <= i < w * h && !block_holds(i / w as int, i % w as int, rh as int, rw as int, sr, sc)
                ==> #[trigger] rect_sum_grid(prev_sums, sample_values(s1), w, h, rw, rh)[i]
                == rect_sum_grid(prev_sums, sample_values(s2), w, h, rw, rh)[i],
        forall|i: int|
            0 <= i < w * h && !block_holds(i / w as int, i % w as int, 3 * rh as int, 3 * rw as int, sr, sc)
                ==> #[trigger] feature_grid(prev_bytes, sample_values(s1), w, h, rw, rh)[i]
                == feature_grid(prev_bytes, sample_values(s2), w, h, rw, rh)[i],
        forall|i: int|
            0 <= i < w * h && block_holds(i / w as int, i % w as int, rh as int, rw as int, sr, sc)
                && in_rect_region(w as int, h as int, rw as int, rh as int, i / w as int, i % w as int)
                ==> #[trigger] rect_sum_grid(prev_sums, sample_values(s2), w, h, rw, rh)[i]
                - rect_sum_grid(prev_sums, sample_values(s1), w, h, rw, rh)[i]
                == s2[sr * w + sc] - s1[sr * w + sc],
{
    let g1 = sample_values(s1);
    let g2 = sample_values(s2);
    let wi = w as int;
    let hi = h as int;
    assert forall|rr: int, cc: int| 0 <= rr < h && 0 <= cc < w && !(rr == sr && cc == sc)
        implies #[trigger] cell(g1, wi, rr, cc) == cell(g2, wi, rr, cc) by {
        lemma_index(wi, hi, rr, cc);
        lemma_index(wi, hi, sr, sc);
    }
    assert forall|i: int|
        0 <= i < w * h && !block_holds(i / wi, i % wi, rh as int, rw as int, sr, sc)
        implies #[trigger] rect_sum_grid(prev_sums, g1, w, h, rw, rh)[i] == rect_sum_grid(prev_sums, g2, w, h, rw, rh)[i] by {
        let r = i / wi;
        let c = i % wi;
        if in_rect_region(wi, hi, rw as int, rh as int, r, c) {
            lemma_block_sum_agree(g1, g2, wi, r, c, rh as int, rw as int);
        }
    }
    assert forall|i: int|
        0 <= i < w * h && block_holds(i / wi, i % wi, rh as int, rw as int, sr, sc)
            && in_rect_region(wi, hi, rw as int, rh as int, i / wi, i % wi)
        implies #[trigger] rect_sum_grid(prev_sums, g2, w, h, rw, rh)[i] - rect_sum_grid(prev_sums, g1, w, h, rw, rh)[i]
        == s2[sr * w + sc] - s1[sr * w + sc] by {
        let r = i / wi;
        let c = i % wi;
        lemma_index(wi, hi, sr, sc);
        lemma_block_sum_one_cell(g1, g2, wi, r, c, rh as int, rw as int, sr, sc);
    }
    assert forall|i: int|
        0 <= i < w * h && !block_holds(i / wi, i % wi, 3 * rh as int, 3 * rw as int, sr, sc)
        implies #[trigger] feature_grid(prev_bytes, g1, w, h, rw, rh)[i] == feature_grid(prev_bytes, g2, w, h, rw, rh)[i] by {
        let r = i / wi;
        let c = i % wi;
        if in_feature_region(wi, hi, rw as int, rh as int, r, c) {
            assert forall|bi: int, bj: int| 0 <= bi < 3 && 0 <= bj < 3
                implies #[trigger] neighbour_sum(g1, wi, rw as int, rh as int, r, c, bi, bj)
                == neighbour_sum(g2, wi, rw as int, rh as int, r, c, bi, bj) by {
                lemma_neighbour_inside(bi, bj, rw as int, rh as int);
                lemma_block_sum_agree(g1, g2, wi, r + bi * rh, c + bj * rw, rh as int, rw as int);
            }
        }
    }
}

} // verus!
