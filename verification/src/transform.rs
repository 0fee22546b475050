//! Transform planning: from the request's parameters, the configured limits
//! and the decoded source dimensions to the exact resize target, output
//! format and encoder quality.
//!
//! The codec itself is an external collaborator; it receives the plan
//! computed here and performs the decode, linear-filter resize and re-encode.
//! The policy is fixed: explicit dimensions are clamped to the configured
//! maxima; a single dimension is completed from the source aspect ratio by
//! rounding; quality is clamped to `[1, 100]` before it ever reaches the
//! encoder.

use vstd::prelude::*;

use crate::params::ImageFormat;
use crate::params::ProcessingParams;
use crate::params::clamp_quality;
use crate::params::spec_clamp_quality;
use crate::params::spec_content_type_for;
use crate::params::content_type_for;

verus! {

/// Limits and defaults for the transform step, immutable after construction:
/// the default encoder quality and the largest target dimensions a request
/// may ask for.
#[derive(Clone, Copy, Debug, PartialEq, Eq, Structural)]
pub struct ImageProcessingConfig {
    pub default_quality: i32,
    pub max_width: i32,
    pub max_height: i32,
}

impl ImageProcessingConfig {
    /// A usable configuration has positive dimension limits.  The default
    /// quality may be anything: it is clamped wherever it is used.
    pub open spec fn wf(self) -> bool {
        1 <= self.max_width && 1 <= self.max_height
    }

    /// Returns whether the dimension limits are positive.
    pub fn validate(&self) -> (r: bool)
        ensures
            r == self.wf(),
    {
        1 <= self.max_width && 1 <= self.max_height
    }
}

/// The exact pixel size the resize step must produce.
#[derive(Clone, Copy, Debug, PartialEq, Eq, Structural)]
pub struct ResizeTarget {
    pub width: i32,
    pub height: i32,
}

/// Everything the codec needs for one transform: whether and how to resize,
/// which encoding to produce, and at which quality.
#[derive(Clone, Copy, Debug, PartialEq, Eq)]
pub struct TransformPlan {
    pub resize: Option<ResizeTarget>,
    pub format: ImageFormat,
    pub quality: i32,
}

impl TransformPlan {
    /// The MIME type of the plan's output encoding.
    pub fn content_type(&self) -> (r: &'static str)
        ensures
            r@ == spec_content_type_for(Some(self.format)),
    {
        content_type_for(&Some(self.format))
    }
}

/// The smaller of two values.
pub open spec fn spec_min_i32(a: int, b: int) -> int {
    if a < b { a } else { b }
}

/// `a * num / den`, rounded half up.
pub open spec fn spec_round_ratio(a: int, num: int, den: int) -> int {
    (2 * a * num + den) / (2 * den)
}

/// A value forced under the largest `i32`, the machine limit of a pixel
/// dimension.
pub open spec fn spec_sat_dim(v: int) -> int {
    if v > i32::MAX { i32::MAX as int } else { v }
}

/// The dimension completing an aspect-ratio-preserving resize: `a` scaled by
/// `num / den` and rounded, saturated at the largest `i32`.
pub open spec fn spec_ratio_dim(a: int, num: int, den: int) -> int {
    spec_sat_dim(spec_round_ratio(a, num, den))
}

/// The resize target of a request against a source of `cols` by `rows`
/// pixels: both dimensions clamped to the maxima when both are given; one
/// given dimension clamped, the other completed from the source aspect
/// ratio; no resize when neither is given.
pub open spec fn spec_resize_target(
    params: ProcessingParams,
    config: ImageProcessingConfig,
    cols: int,
    rows: int,
) -> Option<ResizeTarget> {
    match (params.width, params.height) {
        (Some(w), Some(h)) => Some(
            ResizeTarget {
                width: spec_min_i32(w as int, config.max_width as int) as i32,
                height: spec_min_i32(h as int, config.max_height as int) as i32,
            },
        ),
        (Some(w), None) => {
            let tw = spec_min_i32(w as int, config.max_width as int);
            Some(ResizeTarget { width: tw as i32, height: spec_ratio_dim(tw, rows, cols) as i32 })
        },
        (None, Some(h)) => {
            let th = spec_min_i32(h as int, config.max_height as int);
            Some(ResizeTarget { width: spec_ratio_dim(th, cols, rows) as i32, height: th as i32 })
        },
        (None, None) => None,
    }
}

/// The whole plan of a request: the resize target, the requested format
/// (`Jpeg` when absent), and the requested or default quality clamped to
/// `[1, 100]`.
pub open spec fn spec_plan(
    params: ProcessingParams,
    config: ImageProcessingConfig,
    cols: int,
    rows: int,
) -> TransformPlan {
    TransformPlan {
        resize: spec_resize_target(params, config, cols, rows),
        format: match params.format {
            Some(f) => f,
            None => ImageFormat::Jpeg,
        },
        quality: spec_clamp_quality(
            match params.quality {
                Some(q) => q as int,
                None => config.default_quality as int,
            },
        ) as i32,
    }
}

/// The smaller of two dimensions.
fn min_i32(a: i32, b: i32) -> (r: i32)
    ensures
        r as int == spec_min_i32(a as int, b as int),
{
    if a < b {
        a
    } else {
        b
    }
}

/// Computes `a * num / den` rounded half up, saturated at the largest `i32`.
fn ratio_dim(a: i32, num: i32, den: i32) -> (r: i32)
    requires
        1 <= a,
        1 <= num,
        1 <= den,
    ensures
        r as int == spec_ratio_dim(a as int, num as int, den as int),
{
    proof {
        assert((a as u64) * (num as u64) <= 0x3FFFFFFF00000001u64) by (nonlinear_arith)
            requires
                1 <= a <= 0x7FFFFFFF,
                1 <= num <= 0x7FFFFFFF,
        ;
    }
    let p: u64 = (a as u64) * (num as u64);
    let n: u64 = 2 * p + (den as u64);
    let d: u64 = 2 * (den as u64);
    let q = n / d;
    proof {
        assert(2 * (a as int) * (num as int) == 2 * ((a as int) * (num as int)))
            by (nonlinear_arith);
        assert(q as int == spec_round_ratio(a as int, num as int, den as int));
    }
    if q > 0x7FFFFFFF {
        0x7FFFFFFF
    } else {
        q as i32
    }
}

/// Computes the transform plan of one request against a decoded source of
/// `src_cols` by `src_rows` pixels.
pub fn plan_transform(
    params: &ProcessingParams,
    config: &ImageProcessingConfig,
    src_cols: i32,
    src_rows: i32,
) -> (r: TransformPlan)
    requires
        config.wf(),
        params.width matches Some(w) ==> 1 <= w,
        params.height matches Some(h) ==> 1 <= h,
        1 <= src_cols,
        1 <= src_rows,
    ensures
        r == spec_plan(*params, *config, src_cols as int, src_rows as int),
{
    let resize = match (params.width, params.height) {
        (Some(w), Some(h)) => Some(
            ResizeTarget {
                width: min_i32(w, config.max_width),
                height: min_i32(h, config.max_height),
            },
        ),
        (Some(w), None) => {
            let tw = min_i32(w, config.max_width);
            Some(ResizeTarget { width: tw, height: ratio_dim(tw, src_rows, src_cols) })
        },
        (None, Some(h)) => {
            let th = min_i32(h, config.max_height);
            Some(ResizeTarget { width: ratio_dim(th, src_cols, src_rows), height: th })
        },
        (None, None) => None,
    };
    let quality = match params.quality {
        Some(q) => clamp_quality(q),
        None => clamp_quality(config.default_quality),
    };
    let format = match params.format {
        Some(f) => f,
        None => ImageFormat::Jpeg,
    };
    TransformPlan { resize, format, quality }
}

} // verus!
