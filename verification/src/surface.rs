//! Presentable-surface configuration: the piece of the surface context
//! that can be reconciled by pure computation.
//!
//! The GPU device, queue and surface handles stay with the embedding
//! program; this module owns the configuration they are driven with.
//! A device pixel ratio is passed as an integer number of millionths
//! (`1_500_000` for a ratio of 1.5).

use vstd::prelude::*;

verus! {

/// A presentation format offered by a surface: an identifier chosen by the
/// embedding program and whether the format is sRGB-encoded.
#[derive(Clone, Copy, Debug, PartialEq, Eq, Structural)]
pub struct SurfaceFormat {
    pub id: u32,
    pub srgb: bool,
}

/// Index of the first sRGB format in a list, or -1 when none is sRGB.
pub open spec fn first_srgb(formats: Seq<SurfaceFormat>) -> int
    decreases formats.len(),
{
    if formats.len() == 0 {
        -1
    } else if formats[0].srgb {
        0
    } else {
        let rest = first_srgb(formats.skip(1));
        if rest < 0 {
            -1
        } else {
            rest + 1
        }
    }
}

/// The format a surface is configured with: the first sRGB-encoded format
/// among those supported, else the first supported format.
pub open spec fn chosen_format(formats: Seq<SurfaceFormat>) -> SurfaceFormat
    recommends
        formats.len() > 0,
{
    if first_srgb(formats) >= 0 {
        formats[first_srgb(formats)]
    } else {
        formats[0]
    }
}

/// A logical dimension: physical pixels divided by the device pixel ratio
/// (in millionths), rounded to the nearest integer.
pub open spec fn logical_dim(physical: u32, dpr_micros: u64) -> int
    recommends
        dpr_micros > 0,
{
    (physical * 1_000_000 + dpr_micros / 2) / dpr_micros as int
}

/// A dimension clamped to the range the device accepts.
pub open spec fn clamp_dim(v: int, max_dim: u32) -> int {
    if v < 1 {
        1
    } else if v > max_dim {
        max_dim as int
    } else {
        v
    }
}

/// The surface configuration owned by the surface context, reconciled to
/// window size and device pixel ratio, clamped to device limits.
#[derive(Clone, Copy, Debug, PartialEq, Eq, Structural)]
pub struct SurfaceContext {
    /// Configured width, in logical pixels.
    pub config_width: u32,
    /// Configured height, in logical pixels.
    pub config_height: u32,
    /// Chosen presentation format.
    pub format: SurfaceFormat,
    /// Chosen present mode (identifier supplied by the embedding program).
    pub present_mode: u32,
    /// Chosen alpha mode (identifier supplied by the embedding program).
    pub alpha_mode: u32,
    /// Last known physical width of the window.
    pub size_width: u32,
    /// Last known physical height of the window.
    pub size_height: u32,
    /// The device's maximum 2D texture dimension.
    pub max_texture_dimension: u32,
}

impl SurfaceContext {
    /// Both configured dimensions lie within the device's limits.
    pub open spec fn wf(self) -> bool {
        &&& 1 <= self.config_width <= self.max_texture_dimension
        &&& 1 <= self.config_height <= self.max_texture_dimension
    }

    /// Selects the surface format: the first sRGB-encoded one, else the
    /// first supported one.
    pub fn select_format(formats: &Vec<SurfaceFormat>) -> (r: SurfaceFormat)
        requires
            formats@.len() > 0,
        ensures
            r == chosen_format(formats@),
    {
        let n: usize = formats.len();
        let mut i: usize = 0;
        while i < n
            invariant
                n == formats@.len(),
                0 <= i <= n,
                forall|j: int| 0 <= j < i ==> !formats@[j].srgb,
                n > 0,
            decreases n - i,
        {
            if formats[i].srgb {
                proof {
                    lemma_first_srgb_found(formats@, i as int);
                }
                return formats[i];
            }
            i = i + 1;
        }
        proof {
            lemma_first_srgb_none(formats@);
        }
        formats[0]
    }

    /// Builds the initial configuration at the window's physical size, each
    /// dimension floored to 1 and clamped to the device limit.
    pub fn configure(
        formats: &Vec<SurfaceFormat>,
        present_modes: &Vec<u32>,
        alpha_modes: &Vec<u32>,
        width: u32,
        height: u32,
        max_texture_dimension: u32,
    ) -> (r: SurfaceContext)
        requires
            formats@.len() > 0,
            present_modes@.len() > 0,
            alpha_modes@.len() > 0,
            max_texture_dimension >= 1,
        ensures
            r.wf(),
            r.config_width == clamp_dim(width as int, max_texture_dimension),
            r.config_height == clamp_dim(height as int, max_texture_dimension),
            r.format == chosen_format(formats@),
            r.present_mode == present_modes@[0],
            r.alpha_mode == alpha_modes@[0],
            r.size_width == width,
            r.size_height == height,
            r.max_texture_dimension == max_texture_dimension,
    {
        let format = Self::select_format(formats);
        let w = if width < 1 {
            1
        } else if width > max_texture_dimension {
            max_texture_dimension
        } else {
            width
        };
        let h = if height < 1 {
            1
        } else if height > max_texture_dimension {
            max_texture_dimension
        } else {
            height
        };
        SurfaceContext {
            config_width: w,
            config_height: h,
            format,
            present_mode: present_modes[0],
            alpha_mode: alpha_modes[0],
            size_width: width,
            size_height: height,
            max_texture_dimension,
        }
    }

    /// Reconciles the configuration to a new physical size: a no-op when
    /// either dimension is 0; otherwise the logical size (physical divided
    /// by the device pixel ratio, rounded) is clamped to the device limits
    /// and stored.  The caller must reconfigure the surface and recreate
    /// per-surface-size resources afterwards.
    pub fn resize(&mut self, new_width: u32, new_height: u32, dpr_micros: u64)
        requires
            1 <= dpr_micros <= 100_000_000,
        ensures
            new_width == 0 || new_height == 0 ==> *final(self) == *old(self),
            new_width > 0 && new_height > 0 ==> *final(self) == (SurfaceContext {
                config_width: clamp_dim(
                    logical_dim(new_width, dpr_micros),
                    old(self).max_texture_dimension,
                ) as u32,
                config_height: clamp_dim(
                    logical_dim(new_height, dpr_micros),
                    old(self).max_texture_dimension,
                ) as u32,
                size_width: new_width,
                size_height: new_height,
                ..*old(self)
            }),
            old(self).wf() ==> final(self).wf(),
            new_width > 0 && new_height > 0 && old(self).max_texture_dimension >= 1
                ==> final(self).config_width <= old(self).max_texture_dimension
                    && final(self).config_height <= old(self).max_texture_dimension,
    {
        if new_width > 0 && new_height > 0 {
            let lw = Self::logical(new_width, dpr_micros);
            let lh = Self::logical(new_height, dpr_micros);
            let max_dim = self.max_texture_dimension;
            self.config_width = Self::clamp_to(lw, max_dim);
            self.config_height = Self::clamp_to(lh, max_dim);
            self.size_width = new_width;
            self.size_height = new_height;
        }
    }

    /// One physical dimension scaled down by the device pixel ratio.
    fn logical(physical: u32, dpr_micros: u64) -> (r: u64)
        requires
            1 <= dpr_micros <= 100_000_000,
        ensures
            r == logical_dim(physical, dpr_micros),
    {
        (physical as u64 * 1_000_000 + dpr_micros / 2) / dpr_micros
    }

    /// A dimension clamped to `[1, max_dim]`.
    fn clamp_to(v: u64, max_dim: u32) -> (r: u32)
        ensures
            r == clamp_dim(v as int, max_dim),
    {
        if v < 1 {
            1
        } else if v > max_dim as u64 {
            max_dim
        } else {
            v as u32
        }
    }
}

/// When every format before `i` is not sRGB and the one at `i` is, `i` is
/// the first sRGB index.
proof fn lemma_first_srgb_found(formats: Seq<SurfaceFormat>, i: int)
    requires
        0 <= i < formats.len(),
        formats[i].srgb,
        forall|j: int| 0 <= j < i ==> !formats[j].srgb,
    ensures
        first_srgb(formats) == i,
    decreases i,
{
    if i == 0 {
    } else {
        assert(!formats[0].srgb);
        assert(forall|j: int| 0 <= j < i - 1 ==> !formats.skip(1)[j].srgb);
        assert(formats.skip(1)[i - 1].srgb);
        lemma_first_srgb_found(formats.skip(1), i - 1);
    }
}

/// When no format is sRGB, no first sRGB index exists.
proof fn lemma_first_srgb_none(formats: Seq<SurfaceFormat>)
    requires
        forall|j: int| 0 <= j < formats.len() ==> !formats[j].srgb,
    ensures
        first_srgb(formats) < 0,
    decreases formats.len(),
{
    if formats.len() == 0 {
    } else {
        assert(forall|j: int| 0 <= j < formats.len() - 1 ==> !formats.skip(1)[j].srgb);
        lemma_first_srgb_none(formats.skip(1));
    }
}

} // verus!
