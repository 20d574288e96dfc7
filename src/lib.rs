//! Dense local-assembled-binary descriptors computed from an 8-bit grayscale image.
//!
//! The pipeline builds a summed-area table of the samples, derives the sum of a
//! fixed-size block at every anchor, and packs the comparison of each 3x3
//! neighbourhood of blocks against its centre block into one byte per pixel.
mod feature_map;
mod grid;
mod laws;
mod stages;

pub use feature_map::{
    computed, valid_geometry, FeatureMap, FeatureMapError, FeatureMapModel, Rectangle,
};
pub use laws::{
    lemma_center_below_all_clears_byte, lemma_compute_idempotent, lemma_descriptor_bits,
    lemma_integral_entry, lemma_rect_sum_entry, lemma_single_sample_locality,
    lemma_uniform_image_sets_every_bit,
};
pub use grid::{
    bit_if, block_holds, block_sum, cell, feature_at, feature_grid, in_feature_region,
    in_rect_region, integral_at, integral_grid, ints, lab_code, lab_code_at, neighbour_mask,
    neighbour_sum, rect_sum_at, rect_sum_grid, resized, row_sum, sample_values, square_values,
};
