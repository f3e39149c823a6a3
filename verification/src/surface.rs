//! When a layer surface is mapped, drawn and unmapped.
//!
//! The Wayland and GPU work is the caller's: each method takes what the caller
//! observed (is the app visible, is the GPU ready, was the frame presented) and
//! returns what to do next, updating the surface's state.

use vstd::prelude::*;

verus! {

/// The state of one layer surface.
#[derive(Clone, Copy, Debug, PartialEq, Eq)]
pub struct Surface {
    /// Surface size in logical pixels, as last configured by the compositor.
    pub width: u32,
    pub height: u32,
    /// Integer buffer scale. Buffers are `size * scale` pixels.
    pub scale: i32,
    /// The surface has a buffer attached and is shown by the compositor.
    pub mapped: bool,
    /// An initial commit was sent and its configure is still outstanding.
    pub map_requested: bool,
    /// A configure was received since the last unmap, so a buffer may be attached at
    /// any time.
    pub configured: bool,
    /// A frame callback is outstanding. Prevents queueing more than one.
    pub frame_pending: bool,
    /// Something changed since the last draw.
    pub dirty: bool,
}

/// What a redraw request asks of the caller.
#[derive(Clone, Copy, Debug, PartialEq, Eq)]
pub enum Redraw {
    /// Draw now (see [`Surface::begin_draw`]): the surface is configured but not
    /// mapped, and attaching a buffer maps it.
    Draw,
    /// Commit without a buffer: the compositor answers with a configure.
    CommitToMap,
    /// Request a frame callback and commit.
    RequestFrame,
    /// Nothing to do now.
    Wait,
}

/// How a draw starts.
#[derive(Clone, Copy, Debug, PartialEq, Eq)]
pub enum DrawStart {
    /// The app is hidden and the surface was mapped: attach no buffer and commit.
    Unmap,
    /// Nothing can be drawn now.
    Skip,
    /// Request a frame callback, then run the UI and present.
    Render,
}

/// What follows a rendered frame.
#[derive(Clone, Copy, Debug, PartialEq, Eq)]
pub enum DrawEnd {
    /// The app asked to exit: stop the event loop.
    Exit,
    /// Presented: repaint when the UI asks for it.
    Presented,
    /// Not presented while mapped: commit so the frame callback still fires and the
    /// frame is retried.
    CommitAndRetry,
    /// Not presented while unmapped: retry after 16 ms.
    RetrySoon,
}

/// A surface that is mapped has been configured, and one waiting for the answer to
/// its initial commit is not mapped.
pub open spec fn surface_wf(s: Surface) -> bool {
    &&& s.mapped ==> s.configured
    &&& s.map_requested ==> !s.mapped
}

impl Surface {
    /// A surface that has seen nothing yet.
    pub fn new() -> (r: Surface)
        ensures
            surface_wf(r),
            r == (Surface {
                width: 0,
                height: 0,
                scale: 1,
                mapped: false,
                map_requested: false,
                configured: false,
                frame_pending: false,
                dirty: true,
            }),
    {
        Surface {
            width: 0,
            height: 0,
            scale: 1,
            mapped: false,
            map_requested: false,
            configured: false,
            frame_pending: false,
            dirty: true,
        }
    }

    /// Schedules a redraw for the compositor's next frame. Cheap to call repeatedly.
    /// While unmapped this instead drives the map sequence if the app (`visible`) wants
    /// to be shown.
    pub fn request_redraw(&mut self, visible: bool) -> (r: Redraw)
        ensures
            surface_wf(*old(self)) ==> surface_wf(*final(self)),
            final(self).dirty,
            !old(self).mapped && old(self).configured ==> r == Redraw::Draw && *final(self) == (
            Surface { dirty: true, ..*old(self) }),
            !old(self).mapped && !old(self).configured ==> if old(self).map_requested || !visible {
                r == Redraw::Wait && *final(self) == (Surface { dirty: true, ..*old(self) })
            } else {
                r == Redraw::CommitToMap && *final(self) == (Surface {
                    dirty: true,
                    map_requested: true,
                    ..*old(self)
                })
            },
            old(self).mapped && old(self).frame_pending ==> r == Redraw::Wait && *final(self) == (
            Surface { dirty: true, ..*old(self) }),
            old(self).mapped && !old(self).frame_pending ==> r == Redraw::RequestFrame
                && *final(self) == (Surface { dirty: true, frame_pending: true, ..*old(self) }),
    {
        self.dirty = true;
        if !self.mapped {
            if self.configured {
                return Redraw::Draw;
            }
            if self.map_requested || !visible {
                return Redraw::Wait;
            }
            self.map_requested = true;
            return Redraw::CommitToMap;
        }
        if self.frame_pending {
            return Redraw::Wait;
        }
        self.frame_pending = true;
        Redraw::RequestFrame
    }

    /// Attaching no buffer unmaps a layer surface. It returns to its initial state, so
    /// showing it again goes through [`Redraw::CommitToMap`].
    pub fn unmap(&mut self)
        ensures
            surface_wf(*old(self)) ==> surface_wf(*final(self)),
            *final(self) == (Surface {
                mapped: false,
                map_requested: false,
                configured: false,
                frame_pending: false,
                dirty: false,
                ..*old(self)
            }),
    {
        self.mapped = false;
        self.map_requested = false;
        self.configured = false;
        self.frame_pending = false;
        self.dirty = false;
    }

    /// Starts a draw, given whether the app wants to be shown and whether the GPU
    /// surface is configured.
    pub fn begin_draw(&mut self, visible: bool, gpu_configured: bool) -> (r: DrawStart)
        ensures
            surface_wf(*old(self)) ==> surface_wf(*final(self)),
            !visible && old(self).mapped ==> r == DrawStart::Unmap && *final(self) == (Surface {
                mapped: false,
                map_requested: false,
                configured: false,
                frame_pending: false,
                dirty: false,
                ..*old(self)
            }),
            !visible && !old(self).mapped ==> r == DrawStart::Skip && *final(self) == (Surface {
                map_requested: false,
                ..*old(self)
            }),
            visible && (old(self).width == 0 || old(self).height == 0 || !gpu_configured) ==> r
                == DrawStart::Skip && *final(self) == *old(self),
            visible && old(self).width != 0 && old(self).height != 0 && gpu_configured ==> r
                == DrawStart::Render && *final(self) == (Surface {
                frame_pending: true,
                ..*old(self)
            }),
    {
        if !visible {
            if self.mapped {
                self.unmap();
                return DrawStart::Unmap;
            } else {
                self.map_requested = false;
            }
            return DrawStart::Skip;
        }
        if self.width == 0 || self.height == 0 || !gpu_configured {
            return DrawStart::Skip;
        }
        // The frame callback is requested before presenting: the commit that
        // presenting performs carries the request along.
        self.frame_pending = true;
        DrawStart::Render
    }

    /// Ends a rendered frame, given whether it was presented and whether the app wants
    /// to exit.
    pub fn end_draw(&mut self, presented: bool, wants_exit: bool) -> (r: DrawEnd)
        ensures
            surface_wf(*old(self)) && (presented ==> old(self).configured) ==> surface_wf(
                *final(self),
            ),
            wants_exit ==> r == DrawEnd::Exit && *final(self) == *old(self),
            !wants_exit && presented ==> r == DrawEnd::Presented && *final(self) == (Surface {
                mapped: true,
                map_requested: false,
                dirty: false,
                ..*old(self)
            }),
            !wants_exit && !presented && old(self).mapped ==> r == DrawEnd::CommitAndRetry
                && *final(self) == (Surface { dirty: true, ..*old(self) }),
            !wants_exit && !presented && !old(self).mapped ==> r == DrawEnd::RetrySoon
                && *final(self) == (Surface { frame_pending: false, dirty: true, ..*old(self) }),
    {
        if wants_exit {
            return DrawEnd::Exit;
        }
        if presented {
            self.mapped = true;
            self.map_requested = false;
            self.dirty = false;
            DrawEnd::Presented
        } else if self.mapped {
            self.dirty = true;
            DrawEnd::CommitAndRetry
        } else {
            // Nothing is mapped, so no frame callback will come. The pending configure
            // stays valid; retry shortly.
            self.frame_pending = false;
            self.dirty = true;
            DrawEnd::RetrySoon
        }
    }

    /// The compositor configured the surface. A zero component means "you choose":
    /// the previous value stays. Every configure must be answered with a commit, so a
    /// draw follows.
    pub fn configure(&mut self, width: u32, height: u32)
        ensures
            surface_wf(*old(self)) ==> surface_wf(*final(self)),
            *final(self) == (Surface {
                width: if width != 0 {
                    width
                } else {
                    old(self).width
                },
                height: if height != 0 {
                    height
                } else {
                    old(self).height
                },
                configured: true,
                ..*old(self)
            }),
    {
        if width != 0 {
            self.width = width;
        }
        if height != 0 {
            self.height = height;
        }
        self.configured = true;
    }

    /// The compositor's frame callback fired. Returns whether to draw.
    pub fn frame(&mut self) -> (r: bool)
        ensures
            surface_wf(*old(self)) ==> surface_wf(*final(self)),
            r == old(self).dirty,
            *final(self) == (Surface { frame_pending: false, ..*old(self) }),
    {
        self.frame_pending = false;
        self.dirty
    }

    /// The output scale changed. Returns whether it differs, in which case buffers are
    /// resized and a redraw requested.
    pub fn set_scale(&mut self, factor: i32) -> (r: bool)
        ensures
            surface_wf(*old(self)) ==> surface_wf(*final(self)),
            r == (old(self).scale != factor),
            *final(self) == (Surface { scale: factor, ..*old(self) }),
    {
        if self.scale == factor {
            return false;
        }
        self.scale = factor;
        true
    }

    /// Buffer size in pixels: the size times the scale.
    pub fn buffer_size(&self) -> (r: (u32, u32))
        requires
            self.scale >= 0,
            self.width * self.scale <= u32::MAX,
            self.height * self.scale <= u32::MAX,
        ensures
            r.0 == self.width * self.scale,
            r.1 == self.height * self.scale,
    {
        let scale = self.scale as u32;
        (self.width * scale, self.height * scale)
    }
}


/// When the UI wants its next frame.
#[derive(Clone, Copy, Debug, PartialEq, Eq)]
pub enum Repaint {
    /// Right away.
    Now,
    /// Not by itself: anything beyond a minute is the UI's "never" placeholder.
    Never,
    /// After a timer of this many nanoseconds.
    After(u128),
}

/// What a repaint delay of `delay_nanos` asks for (any earlier timer is cancelled first).
pub fn repaint_plan(delay_nanos: u128) -> (r: Repaint)
    ensures
        r == if delay_nanos == 0 {
            Repaint::Now
        } else if delay_nanos > 60_000_000_000 {
            Repaint::Never
        } else {
            Repaint::After(delay_nanos)
        },
{
    if delay_nanos == 0 {
        Repaint::Now
    } else if delay_nanos > 60_000_000_000 {
        Repaint::Never
    } else {
        Repaint::After(delay_nanos)
    }
}
} // verus!
