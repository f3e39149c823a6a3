//! The decisions behind the GPU surface: which texture format and alpha mode to
//! configure, when the swapchain needs configuring again, and what to do with the
//! outcome of acquiring a frame. The GPU calls themselves are the caller's.

use vstd::prelude::*;

verus! {

/// How the compositor blends the surface.
#[derive(Clone, Copy, Debug, PartialEq, Eq)]
pub enum AlphaMode {
    /// Premultiplied alpha, what the UI renderer writes.
    PreMultiplied,
    /// The compositor ignores alpha: the surface is opaque.
    Opaque,
}

/// The surface reports no texture format at all.
#[derive(Clone, Copy, Debug, PartialEq, Eq)]
pub struct NoFormat;

/// The format to render in, by its position among the surface's formats (whose
/// sRGB-ness `srgb` lists): the first one that is not sRGB, which the UI renderer
/// wants, else the first one; and premultiplied alpha where the surface supports it,
/// else an opaque surface.
pub fn choose_surface(srgb: &Vec<bool>, premultiplied: bool) -> (r: Result<(usize, AlphaMode), NoFormat>)
    ensures
        match r {
            Ok((i, mode)) => {
                &&& i < srgb@.len()
                &&& (!srgb@[i as int] ==> forall|k: int| 0 <= k < i ==> srgb@[k])
                &&& (srgb@[i as int] ==> i == 0 && forall|k: int| 0 <= k < srgb@.len() ==> srgb@[k])
                &&& mode == if premultiplied {
                    AlphaMode::PreMultiplied
                } else {
                    AlphaMode::Opaque
                }
            },
            Err(_) => srgb@.len() == 0,
        },
{
    if srgb.len() == 0 {
        return Err(NoFormat);
    }
    let mode = if premultiplied {
        AlphaMode::PreMultiplied
    } else {
        AlphaMode::Opaque
    };
    let mut i: usize = 0;
    while i < srgb.len()
        invariant
            i <= srgb@.len(),
            srgb@.len() > 0,
            forall|k: int| 0 <= k < i ==> srgb@[k],
            mode == if premultiplied {
                AlphaMode::PreMultiplied
            } else {
                AlphaMode::Opaque
            },
        decreases srgb@.len() - i,
    {
        if !srgb[i] {
            return Ok((i, mode));
        }
        i = i + 1;
    }
    Ok((0, mode))
}

/// The swapchain's size: zero until the first configure.
#[derive(Clone, Copy, Debug, PartialEq, Eq)]
pub struct Swapchain {
    pub width: u32,
    pub height: u32,
}

impl Swapchain {
    /// Not configured yet.
    pub fn new() -> (r: Swapchain)
        ensures
            r == (Swapchain { width: 0, height: 0 }),
    {
        Swapchain { width: 0, height: 0 }
    }

    /// Whether a size has been configured.
    pub fn is_configured(&self) -> (r: bool)
        ensures
            r == (self.width != 0 && self.height != 0),
    {
        self.width != 0 && self.height != 0
    }

    /// Takes `width x height` physical pixels; returns whether the swapchain must be
    /// configured again. An empty size, or the current one, changes nothing.
    pub fn resize(&mut self, width: u32, height: u32) -> (r: bool)
        ensures
            r == (width != 0 && height != 0 && (width != old(self).width || height != old(
                self,
            ).height)),
            *final(self) == if r {
                Swapchain { width, height }
            } else {
                *old(self)
            },
    {
        if width == 0 || height == 0 {
            return false;
        }
        if self.width == width && self.height == height {
            return false;
        }
        self.width = width;
        self.height = height;
        true
    }
}

/// How acquiring the next frame went.
#[derive(Clone, Copy, Debug, PartialEq, Eq)]
pub enum Acquired {
    Success,
    /// Usable, though the swapchain no longer matches the surface exactly.
    Suboptimal,
    Outdated,
    Lost,
    /// No frame this time (a timeout, an occluded surface, a validation error).
    Unavailable,
}

/// What to do after acquiring a frame.
#[derive(Clone, Copy, Debug, PartialEq, Eq)]
pub enum FrameStep {
    Draw,
    /// Configure the swapchain again and present nothing this time.
    Reconfigure,
    /// Present nothing this time.
    Skip,
}

/// Draws into a successful or suboptimal frame; reconfigures on an outdated or lost
/// swapchain; skips otherwise.
pub fn frame_step(acquired: Acquired) -> (r: FrameStep)
    ensures
        r == match acquired {
            Acquired::Success | Acquired::Suboptimal => FrameStep::Draw,
            Acquired::Outdated | Acquired::Lost => FrameStep::Reconfigure,
            Acquired::Unavailable => FrameStep::Skip,
        },
{
    match acquired {
        Acquired::Success | Acquired::Suboptimal => FrameStep::Draw,
        Acquired::Outdated | Acquired::Lost => FrameStep::Reconfigure,
        Acquired::Unavailable => FrameStep::Skip,
    }
}

} // verus!
