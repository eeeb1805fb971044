//! The dimension calculator: maps source pixel dimensions, a resize policy
//! and a terminal size to exact output dimensions. Pure, total, never fails;
//! a zero or unknown terminal dimension leaves the source size unchanged.
//!
//! All scaling follows one rule: the derived dimension is the source
//! dimension scaled by the ratio of the fixed target dimension to its source
//! counterpart, rounded to the nearest integer (half away from zero) and
//! clamped to `u32::MAX`.
use vstd::prelude::*;

use crate::ResizeMode;

verus! {

/// `round(a * n / d)` for nonnegative `a`, `n` and positive `d`, rounding
/// half up: the unique integer nearest to the rational `a * n / d`.
pub open spec fn round_scaled(a: int, n: int, d: int) -> int {
    (2 * a * n + d) / (2 * d)
}

/// Clamp a nonnegative mathematical integer into the `u32` range.
pub open spec fn clamp_u32(x: int) -> int {
    if x > u32::MAX {
        u32::MAX as int
    } else {
        x
    }
}

/// A dimension derived from the aspect ratio: `other` scaled by `target /
/// named`, rounded and clamped.
pub open spec fn derived_dim(other: int, target: int, named: int) -> int {
    clamp_u32(round_scaled(other, target, named))
}

/// `FitTerminal`: scale by `min(tw / sw, th / sh)`, preserving the aspect
/// ratio, so the result fits both terminal dimensions. Any zero dimension
/// (unknown terminal, degenerate source) leaves the source unchanged.
pub open spec fn spec_fit_terminal(sw: int, sh: int, tw: int, th: int) -> (int, int) {
    if sw <= 0 || sh <= 0 || tw <= 0 || th <= 0 {
        (sw, sh)
    } else if tw * sh <= th * sw {
        // tw / sw is the smaller ratio: the width is the binding dimension.
        (tw, derived_dim(sh, tw, sw))
    } else {
        (derived_dim(sw, th, sh), th)
    }
}

/// Whether the source exceeds a known terminal in either dimension; the
/// condition under which `ClipTerminal` scales at all.
pub open spec fn spec_exceeds_terminal(sw: int, sh: int, tw: int, th: int) -> bool {
    tw > 0 && th > 0 && (sw > tw || sh > th)
}

/// The output dimensions for every mode. A result of zero in either axis is
/// valid and tells the caller to skip resizing.
pub open spec fn spec_calculate_dimensions(
    sw: int,
    sh: int,
    mode: ResizeMode,
    tw: int,
    th: int,
) -> (int, int) {
    match mode {
        ResizeMode::Original => (sw, sh),
        ResizeMode::FitTerminal => spec_fit_terminal(sw, sh, tw, th),
        ResizeMode::ClipTerminal => if spec_exceeds_terminal(sw, sh, tw, th) {
            spec_fit_terminal(sw, sh, tw, th)
        } else {
            (sw, sh)
        },
        ResizeMode::FitWidth => if tw <= 0 || sw <= 0 {
            (sw, sh)
        } else {
            (tw, derived_dim(sh, tw, sw))
        },
        ResizeMode::FitHeight => if th <= 0 || sh <= 0 {
            (sw, sh)
        } else {
            (derived_dim(sw, th, sh), th)
        },
        ResizeMode::Manual { width, height } => match (width, height) {
            (Some(w), Some(h)) => (w as int, h as int),
            (Some(w), None) => if sw <= 0 {
                (sw, sh)
            } else {
                (w as int, derived_dim(sh, w as int, sw))
            },
            (None, Some(h)) => if sh <= 0 {
                (sw, sh)
            } else {
                (derived_dim(sw, h as int, sh), h as int)
            },
            (None, None) => (sw, sh),
        },
    }
}

/// Executable rounding of `a * n / d`, exact over the full `u32` range.
fn scale_round(a: u32, n: u32, d: u32) -> (r: u32)
    requires
        d > 0,
    ensures
        r == derived_dim(a as int, n as int, d as int),
{
    proof {
        assert((a as int) * (n as int) <= 0xffff_ffff * 0xffff_ffff) by (nonlinear_arith)
            requires
                0 <= a <= 0xffff_ffff,
                0 <= n <= 0xffff_ffff,
        ;
    }
    let p: u128 = (a as u128) * (n as u128);
    proof {
        assert(2 * (a as int) * (n as int) == 2 * ((a as int) * (n as int))) by (nonlinear_arith);
    }
    let num: u128 = 2u128 * p + (d as u128);
    let den: u128 = 2u128 * (d as u128);
    let q: u128 = num / den;
    if q > u32::MAX as u128 {
        u32::MAX
    } else {
        q as u32
    }
}

/// Output pixel dimensions for a source image, a resize policy and a
/// terminal size. Pure and total: every input yields exactly the dimensions
/// of `spec_calculate_dimensions`, and a zero or unknown terminal dimension
/// returns the source size unchanged.
pub fn calculate_dimensions(img_dims: (u32, u32), mode: &ResizeMode, term_size: (u32, u32)) -> (r:
    (u32, u32))
    ensures
        (r.0 as int, r.1 as int) == spec_calculate_dimensions(
            img_dims.0 as int,
            img_dims.1 as int,
            *mode,
            term_size.0 as int,
            term_size.1 as int,
        ),
{
    let (sw, sh) = img_dims;
    let (tw, th) = term_size;
    match mode {
        ResizeMode::Original => (sw, sh),
        ResizeMode::FitTerminal => fit_terminal(sw, sh, tw, th),
        ResizeMode::ClipTerminal => {
            if tw > 0 && th > 0 && (sw > tw || sh > th) {
                fit_terminal(sw, sh, tw, th)
            } else {
                (sw, sh)
            }
        },
        ResizeMode::FitWidth => {
            if tw == 0 || sw == 0 {
                (sw, sh)
            } else {
                (tw, scale_round(sh, tw, sw))
            }
        },
        ResizeMode::FitHeight => {
            if th == 0 || sh == 0 {
                (sw, sh)
            } else {
                (scale_round(sw, th, sh), th)
            }
        },
        ResizeMode::Manual { width, height } => {
            match (width, height) {
                (Some(w), Some(h)) => (*w, *h),
                (Some(w), None) => {
                    if sw == 0 {
                        (sw, sh)
                    } else {
                        (*w, scale_round(sh, *w, sw))
                    }
                },
                (None, Some(h)) => {
                    if sh == 0 {
                        (sw, sh)
                    } else {
                        (scale_round(sw, *h, sh), *h)
                    }
                },
                (None, None) => (sw, sh),
            }
        },
    }
}

/// The product of two `u32` values, which always fits in a `u64`.
fn mul_u32_in_u64(x: u32, y: u32) -> (r: u64)
    ensures
        r == (x as int) * (y as int),
{
    proof {
        assert((x as int) * (y as int) <= 0xffff_ffff * 0xffff_ffff) by (nonlinear_arith)
            requires
                0 <= x <= 0xffff_ffff,
                0 <= y <= 0xffff_ffff,
        ;
    }
    (x as u64) * (y as u64)
}

/// `FitTerminal` scaling on known-positive dimensions.
fn fit_terminal(sw: u32, sh: u32, tw: u32, th: u32) -> (r: (u32, u32))
    ensures
        (r.0 as int, r.1 as int) == spec_fit_terminal(sw as int, sh as int, tw as int, th as int),
{
    if sw == 0 || sh == 0 || tw == 0 || th == 0 {
        (sw, sh)
    } else if mul_u32_in_u64(tw, sh) <= mul_u32_in_u64(th, sw) {
        (tw, scale_round(sh, tw, sw))
    } else {
        (scale_round(sw, th, sh), th)
    }
}

/// With `Manual { width: Some(w), height: None }` and a source of nonzero
/// width, the output height is the source height scaled by `w / src_w`,
/// rounded to nearest (and clamped to `u32::MAX`), for every aspect ratio.
pub proof fn lemma_manual_width_derives_height(sw: int, sh: int, w: u32, tw: int, th: int)
    requires
        sw > 0,
    ensures
        spec_calculate_dimensions(
            sw,
            sh,
            ResizeMode::Manual { width: Some(w), height: None },
            tw,
            th,
        ) == (w as int, clamp_u32(round_scaled(sh, w as int, sw))),
{
}

/// `ClipTerminal` returns a source no larger than the terminal unchanged,
/// and gives exactly the `FitTerminal` dimensions whenever the source
/// exceeds a known terminal in either dimension.
pub proof fn lemma_clip_terminal(sw: int, sh: int, tw: int, th: int)
    ensures
        sw <= tw && sh <= th ==> spec_calculate_dimensions(
            sw,
            sh,
            ResizeMode::ClipTerminal,
            tw,
            th,
        ) == (sw, sh),
        spec_exceeds_terminal(sw, sh, tw, th) ==> spec_calculate_dimensions(
            sw,
            sh,
            ResizeMode::ClipTerminal,
            tw,
            th,
        ) == spec_calculate_dimensions(sw, sh, ResizeMode::FitTerminal, tw, th),
{
}

} // verus!
