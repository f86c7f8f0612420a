//! The window size as the viewer tracks it between a resize event and the
//! frame that applies it.

use vstd::prelude::*;

verus! {

/// The width and height the window starts with.
pub const INITIAL_SCREEN_W: u32 = 600;
pub const INITIAL_SCREEN_H: u32 = 600;

/// The tracked size as the contracts see it.
pub struct WindowView {
    pub width: u32,
    pub height: u32,
    pub resize_pending: bool,
}

/// The state after the window reported `width` by `height`.
pub open spec fn resized(v: WindowView, width: u32, height: u32) -> WindowView {
    WindowView { width, height, resize_pending: true }
}

/// The size a frame has to apply, if any.
pub open spec fn pending_size(v: WindowView) -> Option<(u32, u32)> {
    if v.resize_pending {
        Some((v.width, v.height))
    } else {
        None
    }
}

/// The state after a frame took the pending size.
pub open spec fn taken(v: WindowView) -> WindowView {
    WindowView { resize_pending: false, ..v }
}

/// Whatever the state before, after the window reports a size that size is
/// the tracked one and it is waiting to be applied.
pub proof fn lemma_resize_records_size(v: WindowView, width: u32, height: u32)
    ensures
        resized(v, width, height).width == width,
        resized(v, width, height).height == height,
        resized(v, width, height).resize_pending,
        pending_size(resized(v, width, height)) == Some((width, height)),
{
}

/// However many sizes the window reports between two frames, the next frame
/// applies the last of them, and the frame after it applies none.
pub proof fn lemma_last_resize_applied_once(v: WindowView, w1: u32, h1: u32, w2: u32, h2: u32)
    ensures
        pending_size(resized(resized(v, w1, h1), w2, h2)) == Some((w2, h2)),
        pending_size(taken(resized(resized(v, w1, h1), w2, h2))) == None::<(u32, u32)>,
        taken(resized(resized(v, w1, h1), w2, h2)).width == w2,
        taken(resized(resized(v, w1, h1), w2, h2)).height == h2,
{
}

/// The last size the window reported, and whether it still has to be
/// applied to the context and the viewport.
pub struct WindowState {
    width: u32,
    height: u32,
    resize_pending: bool,
}

impl View for WindowState {
    type V = WindowView;

    closed spec fn view(&self) -> WindowView {
        WindowView { width: self.width, height: self.height, resize_pending: self.resize_pending }
    }
}

impl WindowState {
    /// A window of `width` by `height` with nothing to apply.
    pub fn new(width: u32, height: u32) -> (w: WindowState)
        ensures
            w@ == (WindowView { width, height, resize_pending: false }),
    {
        WindowState { width, height, resize_pending: false }
    }

    /// The window of the initial size.
    pub fn initial() -> (w: WindowState)
        ensures
            w@ == (WindowView { width: INITIAL_SCREEN_W, height: INITIAL_SCREEN_H, resize_pending: false }),
    {
        WindowState::new(INITIAL_SCREEN_W, INITIAL_SCREEN_H)
    }

    /// The current width.
    pub fn width(&self) -> (w: u32)
        ensures
            w == self@.width,
    {
        self.width
    }

    /// The current height.
    pub fn height(&self) -> (h: u32)
        ensures
            h == self@.height,
    {
        self.height
    }

    /// The window reported a new size: it becomes the current size and has
    /// to be applied.
    pub fn on_resized(&mut self, width: u32, height: u32)
        ensures
            final(self)@ == resized(old(self)@, width, height),
            final(self)@.width == width,
            final(self)@.height == height,
            final(self)@.resize_pending,
    {
        self.width = width;
        self.height = height;
        self.resize_pending = true;
    }

    /// At the start of a frame: the size to apply, if a resize is pending,
    /// which is then no longer pending.
    pub fn take_resize(&mut self) -> (r: Option<(u32, u32)>)
        ensures
            r == pending_size(old(self)@),
            final(self)@ == taken(old(self)@),
    {
        if self.resize_pending {
            self.resize_pending = false;
            Some((self.width, self.height))
        } else {
            None
        }
    }
}

} // verus!
