//! Decisions of the windowed front end: which surface format to render into,
//! how window events and frame results are answered, and when a frame is
//! snapshotted.
use vstd::prelude::*;

verus! {

/// Format `i` is the first that is not an sRGB format.
pub open spec fn is_first_linear(srgb: Seq<bool>, i: int) -> bool {
    &&& 0 <= i < srgb.len()
    &&& !srgb[i]
    &&& forall|j: int| 0 <= j < i ==> #[trigger] srgb[j]
}

/// Picks the surface format among the supported ones, given for each whether
/// it is an sRGB format: the first non-sRGB one (the scene already applies its
/// own gamma), else the first.
pub fn pick_surface_format(srgb: &Vec<bool>) -> (i: usize)
    requires
        srgb@.len() > 0,
    ensures
        i < srgb@.len(),
        if exists|j: int| is_first_linear(srgb@, j) {
            is_first_linear(srgb@, i as int)
        } else {
            i == 0
        },
        (exists|j: int| 0 <= j < srgb@.len() && !#[trigger] srgb@[j]) ==> (!srgb@[i as int]
            && forall|j: int| 0 <= j < i ==> #[trigger] srgb@[j]),
        (forall|j: int| 0 <= j < srgb@.len() ==> #[trigger] srgb@[j]) ==> i == 0,
{
    let n = srgb.len();
    for k in 0..n
        invariant
            n == srgb@.len(),
            forall|j: int| 0 <= j < k ==> #[trigger] srgb@[j],
    {
        if !srgb[k] {
            assert(is_first_linear(srgb@, k as int));
            return k;
        }
    }
    assert forall|j: int| !is_first_linear(srgb@, j) by {
        if 0 <= j < srgb@.len() {
            assert(srgb@[j]);
        }
    }
    0
}

/// A window event, as far as the front end tells them apart.
#[derive(Clone, Copy, Debug, PartialEq, Eq)]
pub enum WindowInput {
    CloseRequested,
    /// A keyboard event: whether its logical key is Escape or Space, and
    /// whether the key went down.
    Key { escape: bool, space: bool, pressed: bool },
    Resized { width: u32, height: u32 },
    RedrawRequested,
    Other,
}

/// How a frame ended.
#[derive(Clone, Copy, Debug, PartialEq, Eq)]
pub enum FrameOutcome {
    Presented,
    SurfaceLost,
    SurfaceOutdated,
    OutOfMemory,
    OtherError,
}

/// What the front end does next.
#[derive(Clone, Copy, Debug, PartialEq, Eq)]
pub enum Action {
    Nothing,
    Exit,
    /// Reconfigure the surface and readback buffer for this size.
    Resize { width: u32, height: u32 },
    /// Flip the FFT bars between hanging inward and outward.
    ToggleBars,
    Render,
    /// Log the error and carry on.
    Report,
}

/// The answer to a window event. Without a GPU state every event is ignored;
/// closing or Escape quits, Space flips the bars, a resize reconfigures, a
/// redraw request renders a frame.
pub open spec fn window_action(has_gfx: bool, input: WindowInput) -> Action {
    if !has_gfx {
        Action::Nothing
    } else {
        match input {
            WindowInput::CloseRequested => Action::Exit,
            WindowInput::Key { escape, space, pressed } => if escape {
                Action::Exit
            } else if space && pressed {
                Action::ToggleBars
            } else {
                Action::Nothing
            },
            WindowInput::Resized { width, height } => Action::Resize { width, height },
            WindowInput::RedrawRequested => Action::Render,
            WindowInput::Other => Action::Nothing,
        }
    }
}

/// Answers a window event (see `window_action`).
pub fn on_window_event(has_gfx: bool, input: WindowInput) -> (a: Action)
    ensures
        a == window_action(has_gfx, input),
{
    if !has_gfx {
        return Action::Nothing;
    }
    match input {
        WindowInput::CloseRequested => Action::Exit,
        WindowInput::Key { escape, space, pressed } => {
            if escape {
                Action::Exit
            } else if space && pressed {
                Action::ToggleBars
            } else {
                Action::Nothing
            }
        },
        WindowInput::Resized { width, height } => Action::Resize { width, height },
        WindowInput::RedrawRequested => Action::Render,
        WindowInput::Other => Action::Nothing,
    }
}

/// The answer to how a frame ended, for a surface of size `width` x `height`:
/// a lost or outdated surface is reconfigured at its current size, running out
/// of memory quits, any other error is reported.
pub open spec fn frame_action(outcome: FrameOutcome, width: u32, height: u32) -> Action {
    match outcome {
        FrameOutcome::Presented => Action::Nothing,
        FrameOutcome::SurfaceLost => Action::Resize { width, height },
        FrameOutcome::SurfaceOutdated => Action::Resize { width, height },
        FrameOutcome::OutOfMemory => Action::Exit,
        FrameOutcome::OtherError => Action::Report,
    }
}

/// Answers how a frame ended (see `frame_action`).
pub fn on_frame_outcome(outcome: FrameOutcome, width: u32, height: u32) -> (a: Action)
    ensures
        a == frame_action(outcome, width, height),
{
    match outcome {
        FrameOutcome::Presented => Action::Nothing,
        FrameOutcome::SurfaceLost => Action::Resize { width, height },
        FrameOutcome::SurfaceOutdated => Action::Resize { width, height },
        FrameOutcome::OutOfMemory => Action::Exit,
        FrameOutcome::OtherError => Action::Report,
    }
}

/// Every how many frames a snapshot is taken.
pub const SNAPSHOT_EVERY: u32 = 30;

/// Whether frame number `frame` is snapshotted, and the next frame number (the
/// counter wraps around).
pub fn frame_tick(frame: u32, can_snapshot: bool) -> (r: (bool, u32))
    ensures
        r.0 == (can_snapshot && frame % SNAPSHOT_EVERY == 0),
        r.1 == (frame + 1) % 0x1_0000_0000,
{
    let snap = can_snapshot && frame % SNAPSHOT_EVERY == 0;
    let next = if frame == u32::MAX {
        0
    } else {
        frame + 1
    };
    (snap, next)
}

} // verus!
