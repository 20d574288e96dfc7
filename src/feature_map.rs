//! The pipeline instance: it owns the four working buffers and runs the stages.
use crate::grid::{
    feature_grid, integral_grid, ints, rect_sum_grid, resized, sample_values, square_values,
};
use crate::stages::{
    compute_feature_map, compute_integral, compute_rect_sum, copy_samples, square_samples,
};
use vstd::prelude::*;

verus! {

/// A region of interest. It is part of the data model but not consulted by
/// the pipeline.
#[derive(Clone, Copy, Debug, PartialEq, Eq, Structural)]
pub struct Rectangle {
    pub x: u32,
    pub y: u32,
    pub width: u32,
    pub height: u32,
}

impl Rectangle {
    /// The empty rectangle at the origin.
    pub fn new() -> (r: Self)
        ensures
            r == (Rectangle { x: 0, y: 0, width: 0, height: 0 }),
    {
        Rectangle { x: 0, y: 0, width: 0, height: 0 }
    }
}

/// Why a call was refused.
#[derive(Clone, Copy, Debug, PartialEq, Eq, Structural)]
pub enum FeatureMapError {
    /// The image has no rows or no columns.
    InvalidDimensions { width: u32, height: u32 },
    /// A block has no rows or no columns, or the neighbourhood is not 3x3 blocks.
    InvalidGeometry { rect_width: u32, rect_height: u32, num_rect: u32 },
}

/// What a `FeatureMap` holds, as mathematical values: the image size, the
/// block geometry, and the four buffers.
pub struct FeatureMapModel {
    pub width: nat,
    pub height: nat,
    pub rect_width: nat,
    pub rect_height: nat,
    pub num_rect: nat,
    pub roi: Option<Rectangle>,
    pub integral: Seq<int>,
    pub square_integral: Seq<int>,
    pub rect_sums: Seq<int>,
    pub features: Seq<u8>,
}

/// What `compute` leaves behind for the samples `s` of a `width` x `height`
/// image, starting from the model `m`: the geometry is kept, the two
/// summed-area tables are functions of the samples alone, and the block sums
/// and descriptor bytes are written over the earlier buffers, resized to one
/// entry per pixel, where they are meaningful.
pub open spec fn computed(
    m: FeatureMapModel,
    s: Seq<u8>,
    width: nat,
    height: nat,
) -> FeatureMapModel {
    FeatureMapModel {
        width,
        height,
        rect_width: m.rect_width,
        rect_height: m.rect_height,
        num_rect: m.num_rect,
        roi: m.roi,
        integral: integral_grid(sample_values(s), width, height),
        square_integral: integral_grid(square_values(s), width, height),
        rect_sums: rect_sum_grid(
            resized(m.rect_sums, width * height, 0),
            sample_values(s),
            width,
            height,
            m.rect_width,
            m.rect_height,
        ),
        features: feature_grid(
            resized(m.features, width * height, 0),
            sample_values(s),
            width,
            height,
            m.rect_width,
            m.rect_height,
        ),
    }
}

/// Whether a block geometry is one the 3x3 descriptor layout can use.
pub open spec fn valid_geometry(rect_width: nat, rect_height: nat, num_rect: nat) -> bool {
    rect_width >= 1 && rect_height >= 1 && num_rect == 3
}

/// A descriptor-map pipeline: summed-area tables of the samples and of their
/// squares, the block-sum grid, and the descriptor bytes, each with one entry
/// per pixel of the last image computed.
pub struct FeatureMap {
    roi: Option<Rectangle>,
    width: u32,
    height: u32,
    length: usize,
    feat_map: Vec<u8>,
    rect_sum: Vec<i64>,
    int_img: Vec<i64>,
    square_int_img: Vec<i64>,
    rect_width: u32,
    rect_height: u32,
    num_rect: u32,
}

impl View for FeatureMap {
    type V = FeatureMapModel;

    closed spec fn view(&self) -> FeatureMapModel {
        FeatureMapModel {
            width: self.width as nat,
            height: self.height as nat,
            rect_width: self.rect_width as nat,
            rect_height: self.rect_height as nat,
            num_rect: self.num_rect as nat,
            roi: self.roi,
            integral: ints(self.int_img@),
            square_integral: ints(self.square_int_img@),
            rect_sums: ints(self.rect_sum@),
            features: self.feat_map@,
        }
    }
}

impl FeatureMap {
    /// The buffers all have one entry per pixel.
    pub closed spec fn wf(&self) -> bool {
        &&& self.length == self.width * self.height
        &&& self.feat_map.len() == self.length
        &&& self.rect_sum.len() == self.length
        &&& self.int_img.len() == self.length
        &&& self.square_int_img.len() == self.length
    }

    /// An empty pipeline. Its block geometry is unset (all zero) until
    /// `set_geometry` gives one.
    pub fn new() -> (fm: Self)
        ensures
            fm.wf(),
            fm@.width == 0,
            fm@.height == 0,
            fm@.rect_width == 0,
            fm@.rect_height == 0,
            fm@.num_rect == 0,
            fm@.roi == None::<Rectangle>,
            fm@.integral.len() == 0,
            fm@.square_integral.len() == 0,
            fm@.rect_sums.len() == 0,
            fm@.features.len() == 0,
    {
        FeatureMap {
            roi: None,
            width: 0,
            height: 0,
            length: 0,
            feat_map: Vec::new(),
            rect_sum: Vec::new(),
            int_img: Vec::new(),
            square_int_img: Vec::new(),
            rect_width: 0,
            rect_height: 0,
            num_rect: 0,
        }
    }

    /// Sets the block size and the number of blocks per axis of a neighbourhood,
    /// for the computations that follow. The buffers are kept as they are.
    pub fn set_geometry(&mut self, rect_width: u32, rect_height: u32, num_rect: u32) -> (r: Result<
        (),
        FeatureMapError,
    >)
        requires
            old(self).wf(),
        ensures
            final(self).wf(),
            r is Ok <==> valid_geometry(rect_width as nat, rect_height as nat, num_rect as nat),
            r is Ok ==> final(self)@ == (FeatureMapModel {
                rect_width: rect_width as nat,
                rect_height: rect_height as nat,
                num_rect: num_rect as nat,
                ..old(self)@
            }),
            r is Err ==> r == Err::<(), FeatureMapError>(
                FeatureMapError::InvalidGeometry { rect_width, rect_height, num_rect },
            ) && final(self)@ == old(self)@,
    {
        if rect_width == 0 || rect_height == 0 || num_rect != 3 {
            return Err(FeatureMapError::InvalidGeometry { rect_width, rect_height, num_rect });
        }
        self.rect_width = rect_width;
        self.rect_height = rect_height;
        self.num_rect = num_rect;
        Ok(())
    }

    /// Computes the descriptor map of the `width` x `height` image whose samples
    /// are `samples`, row by row. An image with no rows or no columns is refused
    /// and leaves everything as it was. The caller supplies one sample per pixel,
    /// few enough pixels that the sum of all squared samples fits in an `i64`,
    /// and a block geometry set beforehand with `set_geometry`.
    pub fn compute(&mut self, samples: &[u8], width: u32, height: u32) -> (r: Result<
        (),
        FeatureMapError,
    >)
        requires
            old(self).wf(),
            valid_geometry(old(self)@.rect_width, old(self)@.rect_height, old(self)@.num_rect),
            samples@.len() == width * height,
            width * height * (255 * 255) <= i64::MAX,
        ensures
            final(self).wf(),
            r is Ok <==> (width > 0 && height > 0),
            r is Ok ==> final(self)@ == computed(old(self)@, samples@, width as nat, height as nat),
            r is Err ==> r == Err::<(), FeatureMapError>(
                FeatureMapError::InvalidDimensions { width, height },
            ) && final(self)@ == old(self)@,
    {
        if width == 0 || height == 0 {
            return Err(FeatureMapError::InvalidDimensions { width, height });
        }
        let n = samples.len();
        self.reshape(width, height, n);
        let w = width as usize;
        let h = height as usize;
        let ghost g = sample_values(samples@);
        let ghost rs_prev = ints(self.rect_sum@);
        proof {
            assert(rs_prev =~= resized(old(self)@.rect_sums, n as nat, 0));
            assert(self.feat_map@ =~= resized(old(self)@.features, n as nat, 0u8));
        }
        copy_samples(samples, &mut self.int_img);
        square_samples(&self.int_img, &mut self.square_int_img);
        proof {
            assert(ints(self.square_int_img@) =~= square_values(samples@));
        }
        compute_integral(&mut self.int_img, w, h);
        compute_integral(&mut self.square_int_img, w, h);
        compute_rect_sum(
            &self.int_img,
            &mut self.rect_sum,
            w,
            h,
            self.rect_width as usize,
            self.rect_height as usize,
            Ghost(g),
        );
        proof {
            assert(ints(self.rect_sum@) =~= rect_sum_grid(
                rs_prev,
                g,
                width as nat,
                height as nat,
                self.rect_width as nat,
                self.rect_height as nat,
            ));
        }
        compute_feature_map(
            &self.rect_sum,
            &mut self.feat_map,
            w,
            h,
            self.rect_width,
            self.rect_height,
            Ghost(g),
            Ghost(rs_prev),
        );
        Ok(())
    }

    /// Sets the image size and gives each buffer `length` entries.
    fn reshape(&mut self, width: u32, height: u32, length: usize)
        requires
            old(self).wf(),
            length == width * height,
        ensures
            final(self).wf(),
            final(self).width == width,
            final(self).height == height,
            final(self).rect_width == old(self).rect_width,
            final(self).rect_height == old(self).rect_height,
            final(self).num_rect == old(self).num_rect,
            final(self).roi == old(self).roi,
            final(self).length == length,
            forall|i: int|
                0 <= i < length && i < old(self).feat_map.len()
                    ==> #[trigger] final(self).feat_map@[i] == old(self).feat_map@[i],
            forall|i: int|
                old(self).feat_map.len() <= i < length
                    ==> #[trigger] final(self).feat_map@[i] == 0,
            forall|i: int|
                0 <= i < length && i < old(self).rect_sum.len()
                    ==> #[trigger] final(self).rect_sum@[i] == old(self).rect_sum@[i],
            forall|i: int|
                old(self).rect_sum.len() <= i < length
                    ==> #[trigger] final(self).rect_sum@[i] == 0,
            forall|i: int|
                0 <= i < length && i < old(self).int_img.len()
                    ==> #[trigger] final(self).int_img@[i] == old(self).int_img@[i],
            forall|i: int|
                old(self).int_img.len() <= i < length
                    ==> #[trigger] final(self).int_img@[i] == 0,
            forall|i: int|
                0 <= i < length && i < old(self).square_int_img.len()
                    ==> #[trigger] final(self).square_int_img@[i] == old(self).square_int_img@[i],
            forall|i: int|
                old(self).square_int_img.len() <= i < length
                    ==> #[trigger] final(self).square_int_img@[i] == 0,
    {
        self.width = width;
        self.height = height;
        self.length = length;
        self.feat_map.resize(length, 0);
        self.rect_sum.resize(length, 0);
        self.int_img.resize(length, 0);
        self.square_int_img.resize(length, 0);
    }

    /// Width of the last image computed.
    pub fn width(&self) -> (r: u32)
        ensures
            r == self@.width,
    {
        self.width
    }

    /// Height of the last image computed.
    pub fn height(&self) -> (r: u32)
        ensures
            r == self@.height,
    {
        self.height
    }

    /// Width of a block.
    pub fn rect_width(&self) -> (r: u32)
        ensures
            r == self@.rect_width,
    {
        self.rect_width
    }

    /// Height of a block.
    pub fn rect_height(&self) -> (r: u32)
        ensures
            r == self@.rect_height,
    {
        self.rect_height
    }

    /// Number of blocks along each axis of a neighbourhood.
    pub fn num_rect(&self) -> (r: u32)
        ensures
            r == self@.num_rect,
    {
        self.num_rect
    }

    /// The region of interest, which is never set.
    pub fn roi(&self) -> (r: Option<Rectangle>)
        ensures
            r == self@.roi,
    {
        self.roi
    }

    /// The descriptor bytes, row by row.
    pub fn feature_map(&self) -> (r: &[u8])
        ensures
            r@ == self@.features,
    {
        self.feat_map.as_slice()
    }

    /// The block sums, row by row.
    pub fn rect_sums(&self) -> (r: &[i64])
        ensures
            ints(r@) == self@.rect_sums,
    {
        self.rect_sum.as_slice()
    }

    /// The summed-area table of the samples, row by row.
    pub fn integral_image(&self) -> (r: &[i64])
        ensures
            ints(r@) == self@.integral,
    {
        self.int_img.as_slice()
    }

    /// The summed-area table of the squared samples, row by row.
    pub fn square_integral_image(&self) -> (r: &[i64])
        ensures
            ints(r@) == self@.square_integral,
    {
        self.square_int_img.as_slice()
    }
}

} // verus!
