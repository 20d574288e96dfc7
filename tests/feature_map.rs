use lab_features::{FeatureMap, FeatureMapError, Rectangle};

fn brute_block_sum(s: &[u8], w: usize, r: usize, c: usize, bh: usize, bw: usize) -> i64 {
    let mut t: i64 = 0;
    for rr in r..r + bh {
        for cc in c..c + bw {
            t += s[rr * w + cc] as i64;
        }
    }
    t
}

fn ramp(w: usize, h: usize, stride: usize) -> Vec<u8> {
    let mut s = Vec::new();
    for r in 0..h {
        for c in 0..w {
            s.push((stride * r + c + 1) as u8);
        }
    }
    s
}

fn with_geometry(rw: u32, rh: u32) -> FeatureMap {
    let mut fm = FeatureMap::new();
    assert_eq!(fm.set_geometry(rw, rh, 3), Ok(()));
    fm
}

#[test]
fn new_pipeline_is_empty() {
    let fm = FeatureMap::new();
    assert_eq!(fm.width(), 0);
    assert_eq!(fm.height(), 0);
    assert_eq!(fm.rect_width(), 0);
    assert_eq!(fm.rect_height(), 0);
    assert_eq!(fm.num_rect(), 0);
    assert_eq!(fm.roi(), None);
    assert!(fm.feature_map().is_empty());
    assert!(fm.rect_sums().is_empty());
    assert!(fm.integral_image().is_empty());
    assert!(fm.square_integral_image().is_empty());
}

#[test]
fn rectangle_new_is_zero() {
    let r = Rectangle::new();
    assert_eq!(r, Rectangle { x: 0, y: 0, width: 0, height: 0 });
}

#[test]
fn integral_images_of_small_grid() {
    let mut fm = with_geometry(1, 1);
    let s: Vec<u8> = vec![1, 2, 3, 4, 5, 6];
    assert_eq!(fm.compute(&s, 3, 2), Ok(()));
    assert_eq!(fm.width(), 3);
    assert_eq!(fm.height(), 2);
    assert_eq!(fm.integral_image(), &[1, 3, 6, 5, 12, 21]);
    assert_eq!(fm.square_integral_image(), &[1, 5, 14, 17, 46, 91]);
    assert_eq!(fm.rect_sums(), &[1, 2, 0, 0, 0, 0]);
    assert_eq!(fm.feature_map(), &[0, 0, 0, 0, 0, 0]);
}

#[test]
fn integral_image_matches_brute_force() {
    let (w, h) = (9usize, 7usize);
    let mut s = Vec::new();
    for i in 0..w * h {
        s.push(((i * 37 + 11) % 256) as u8);
    }
    let mut fm = with_geometry(1, 1);
    assert_eq!(fm.compute(&s, w as u32, h as u32), Ok(()));
    let ii = fm.integral_image();
    let sq = fm.square_integral_image();
    for r in 0..h {
        for c in 0..w {
            assert_eq!(ii[r * w + c], brute_block_sum(&s, w, 0, 0, r + 1, c + 1));
            let mut t: i64 = 0;
            for rr in 0..=r {
                for cc in 0..=c {
                    let v = s[rr * w + cc] as i64;
                    t += v * v;
                }
            }
            assert_eq!(sq[r * w + c], t);
        }
    }
}

#[test]
fn full_white_image_fits_accumulator() {
    let (w, h) = (64usize, 64usize);
    let s = vec![255u8; w * h];
    let mut fm = with_geometry(1, 1);
    assert_eq!(fm.compute(&s, w as u32, h as u32), Ok(()));
    assert_eq!(fm.integral_image()[w * h - 1], 255 * (w * h) as i64);
    assert_eq!(fm.square_integral_image()[w * h - 1], 255 * 255 * (w * h) as i64);
}

#[test]
fn rect_sums_match_brute_force() {
    let (w, h) = (8usize, 6usize);
    let s = ramp(w, h, 8);
    let mut fm = with_geometry(3, 2);
    assert_eq!(fm.compute(&s, w as u32, h as u32), Ok(()));
    let rs = fm.rect_sums();
    for r in 0..h {
        for c in 0..w {
            if r + 2 < h && c + 3 < w {
                assert_eq!(rs[r * w + c], brute_block_sum(&s, w, r, c, 2, 3));
            }
        }
    }
}

#[test]
fn descriptor_bits_follow_layout() {
    // centre 5 against 1 9 2 / 8 . 3 / 7 4 6
    let s: Vec<u8> = vec![1, 9, 2, 0, 8, 5, 3, 0, 7, 4, 6, 0, 0, 0, 0, 0];
    let mut fm = with_geometry(1, 1);
    assert_eq!(fm.compute(&s, 4, 4), Ok(()));
    assert_eq!(fm.feature_map()[0], 0xAA);
    for i in 1..16 {
        assert_eq!(fm.feature_map()[i], 0);
    }
}

#[test]
fn centre_reaching_every_neighbour_sets_all_bits() {
    let s: Vec<u8> = vec![3, 1, 4, 1, 5, 9, 2, 6, 5, 3, 5, 8, 9, 7, 9, 3];
    let mut fm = with_geometry(1, 1);
    assert_eq!(fm.compute(&s, 4, 4), Ok(()));
    assert_eq!(fm.feature_map()[0], 0xFF);
}

#[test]
fn uniform_image_sets_every_bit() {
    let (w, h) = (11usize, 9usize);
    let s = vec![42u8; w * h];
    let mut fm = with_geometry(2, 2);
    assert_eq!(fm.compute(&s, w as u32, h as u32), Ok(()));
    let f = fm.feature_map();
    for r in 0..h {
        for c in 0..w {
            if r + 6 < h && c + 6 < w {
                assert_eq!(f[r * w + c], 0xFF);
            }
        }
    }
}

#[test]
fn centre_below_every_neighbour_clears_byte() {
    let s: Vec<u8> = vec![9, 9, 9, 9, 9, 0, 9, 9, 9, 9, 9, 9, 9, 9, 9, 9];
    let mut fm = with_geometry(1, 1);
    assert_eq!(fm.compute(&s, 4, 4), Ok(()));
    assert_eq!(fm.feature_map()[0], 0x00);
}

#[test]
fn computing_twice_gives_same_map() {
    let (w, h) = (10usize, 8usize);
    let mut s = Vec::new();
    for i in 0..w * h {
        s.push(((i * 53 + 7) % 251) as u8);
    }
    let mut fm = with_geometry(2, 1);
    assert_eq!(fm.compute(&s, w as u32, h as u32), Ok(()));
    let first = fm.feature_map().to_vec();
    assert_eq!(fm.compute(&s, w as u32, h as u32), Ok(()));
    assert_eq!(fm.feature_map(), first.as_slice());
    let mut other = with_geometry(2, 1);
    assert_eq!(other.compute(&s, w as u32, h as u32), Ok(()));
    assert_eq!(other.feature_map(), first.as_slice());
}

#[test]
fn one_sample_changes_only_blocks_that_hold_it() {
    let (w, h) = (12usize, 10usize);
    let (rw, rh) = (2usize, 2usize);
    let mut s1 = Vec::new();
    for i in 0..w * h {
        s1.push(((i * 29 + 3) % 200) as u8);
    }
    let (sr, sc) = (5usize, 6usize);
    let mut s2 = s1.clone();
    s2[sr * w + sc] = 250;
    let mut a = with_geometry(rw as u32, rh as u32);
    let mut b = with_geometry(rw as u32, rh as u32);
    assert_eq!(a.compute(&s1, w as u32, h as u32), Ok(()));
    assert_eq!(b.compute(&s2, w as u32, h as u32), Ok(()));
    let mut changed_rects = 0;
    for r in 0..h {
        for c in 0..w {
            let i = r * w + c;
            let holds = r <= sr && sr < r + rh && c <= sc && sc < c + rw;
            if !holds {
                assert_eq!(a.rect_sums()[i], b.rect_sums()[i]);
            } else if r + rh < h && c + rw < w {
                assert_eq!(b.rect_sums()[i] - a.rect_sums()[i], 250 - s1[sr * w + sc] as i64);
                changed_rects += 1;
            }
            let covers = r <= sr && sr < r + 3 * rh && c <= sc && sc < c + 3 * rw;
            if !covers {
                assert_eq!(a.feature_map()[i], b.feature_map()[i]);
            }
        }
    }
    assert_eq!(changed_rects, 4);
}

#[test]
fn six_by_six_ramp_has_no_meaningful_pixel() {
    let s = ramp(6, 6, 6);
    let mut fm = with_geometry(2, 2);
    assert_eq!(fm.compute(&s, 6, 6), Ok(()));
    // The 3x3 neighbourhood of 2x2 blocks fills the whole image, so no pixel
    // lies strictly inside the meaningful region.
    assert!(fm.feature_map().iter().all(|&b| b == 0));
    let rs = fm.rect_sums();
    assert_eq!(rs[0], 18);
    assert_eq!(rs[2], 26);
    assert_eq!(rs[2 * 6], 66);
    assert_eq!(rs[2 * 6 + 2], 74);
    assert_eq!(rs[4 * 6 + 4], 0);
}

#[test]
fn ramp_neighbourhood_of_first_pixel() {
    // A 7x7 image whose top-left 6x6 samples are 6r + c + 1: the block sums
    // of the neighbourhood of (0, 0) are 18 26 34 / 66 74 82 / 114 122 130.
    let s = ramp(7, 7, 6);
    let mut fm = with_geometry(2, 2);
    assert_eq!(fm.compute(&s, 7, 7), Ok(()));
    assert_eq!(fm.feature_map()[0], 0xF0);
    for i in 1..49 {
        assert_eq!(fm.feature_map()[i], 0);
    }
    assert_eq!(&fm.rect_sums()[0..5], &[18, 22, 26, 30, 34]);
}

#[test]
fn single_pixel_image() {
    let mut fm = with_geometry(1, 1);
    assert_eq!(fm.compute(&[200], 1, 1), Ok(()));
    assert_eq!(fm.integral_image(), &[200]);
    assert_eq!(fm.square_integral_image(), &[40000]);
    assert_eq!(fm.rect_sums(), &[0]);
    assert_eq!(fm.feature_map(), &[0]);
}

#[test]
fn zero_dimensions_are_refused_and_keep_buffers() {
    let mut fm = with_geometry(1, 1);
    let s: Vec<u8> = vec![1, 2, 3, 4, 5, 6];
    assert_eq!(fm.compute(&s, 3, 2), Ok(()));
    assert_eq!(
        fm.compute(&[], 0, 4),
        Err(FeatureMapError::InvalidDimensions { width: 0, height: 4 })
    );
    assert_eq!(
        fm.compute(&[], 5, 0),
        Err(FeatureMapError::InvalidDimensions { width: 5, height: 0 })
    );
    assert_eq!(fm.width(), 3);
    assert_eq!(fm.height(), 2);
    assert_eq!(fm.integral_image(), &[1, 3, 6, 5, 12, 21]);
}

#[test]
fn invalid_geometry_is_refused() {
    let mut fm = FeatureMap::new();
    assert_eq!(
        fm.set_geometry(0, 2, 3),
        Err(FeatureMapError::InvalidGeometry { rect_width: 0, rect_height: 2, num_rect: 3 })
    );
    assert_eq!(
        fm.set_geometry(2, 0, 3),
        Err(FeatureMapError::InvalidGeometry { rect_width: 2, rect_height: 0, num_rect: 3 })
    );
    assert_eq!(
        fm.set_geometry(2, 2, 4),
        Err(FeatureMapError::InvalidGeometry { rect_width: 2, rect_height: 2, num_rect: 4 })
    );
    assert_eq!(fm.rect_width(), 0);
    assert_eq!(fm.rect_height(), 0);
    assert_eq!(fm.set_geometry(4, 3, 3), Ok(()));
    assert_eq!(fm.rect_width(), 4);
    assert_eq!(fm.rect_height(), 3);
    assert_eq!(fm.num_rect(), 3);
}

#[test]
fn geometry_larger_than_image_gives_empty_regions() {
    let s = ramp(4, 4, 4);
    let mut fm = with_geometry(5, 5);
    assert_eq!(fm.compute(&s, 4, 4), Ok(()));
    assert!(fm.rect_sums().iter().all(|&v| v == 0));
    assert!(fm.feature_map().iter().all(|&b| b == 0));
}

#[test]
fn tie_with_one_neighbour_sets_only_its_bit() {
    // centre 5 against 5 9 9 / 9 . 9 / 9 9 9
    let s: Vec<u8> = vec![5, 9, 9, 0, 9, 5, 9, 0, 9, 9, 9, 0, 0, 0, 0, 0];
    let mut fm = with_geometry(1, 1);
    assert_eq!(fm.compute(&s, 4, 4), Ok(()));
    assert_eq!(fm.feature_map()[0], 0x80);
}

#[test]
fn recompute_with_other_size_resizes_buffers() {
    let mut fm = with_geometry(1, 1);
    assert_eq!(fm.compute(&ramp(5, 4, 5), 5, 4), Ok(()));
    assert_eq!(fm.integral_image().len(), 20);
    let s: Vec<u8> = vec![1, 2, 3, 4, 5, 6];
    assert_eq!(fm.compute(&s, 3, 2), Ok(()));
    assert_eq!(fm.integral_image(), &[1, 3, 6, 5, 12, 21]);
    assert_eq!(fm.feature_map().len(), 6);
    assert_eq!(fm.rect_sums().len(), 6);
    assert_eq!(fm.square_integral_image().len(), 6);
}

#[test]
fn entries_outside_meaningful_regions_keep_earlier_content() {
    let s = ramp(7, 7, 6);
    let mut fm = with_geometry(2, 2);
    assert_eq!(fm.compute(&s, 7, 7), Ok(()));
    assert_eq!(fm.feature_map()[0], 0xF0);
    assert_eq!(fm.rect_sums()[4 * 7], 114);
    assert_eq!(fm.set_geometry(3, 3, 3), Ok(()));
    assert_eq!(fm.compute(&s, 7, 7), Ok(()));
    // With 3x3 blocks no pixel of a 7x7 image is meaningful, and the block at
    // row 4 no longer fits: both keep what the earlier computation left.
    assert_eq!(fm.feature_map()[0], 0xF0);
    assert_eq!(fm.rect_sums()[4 * 7], 114);
    assert_eq!(fm.rect_sums()[0], brute_block_sum(&s, 7, 0, 0, 3, 3));
}
