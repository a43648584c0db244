//! What the player's commands and events mean.
use vstd::prelude::*;

verus! {

/// Why the engine ended a file, as it numbers the reasons.
pub const END_OF_FILE: i32 = 0;

/// Playback ended by an error.
pub const END_BY_ERROR: i32 = 4;

/// What the interface is told when a file ends.
#[derive(Debug, Clone, Copy, PartialEq, Eq, Structural)]
pub enum EndEvent {
    /// The file played to its end.
    Ended,
    /// Playback failed.
    Failed,
    /// Nothing: a deliberate stop, or another file replacing this one.
    Quiet,
}

/// What the interface is told when a file ends for a reason; an end without one
/// is that of the file.
pub fn end_event(reason: Option<i32>) -> (r: EndEvent)
    ensures
        r == (match reason {
            None => EndEvent::Ended,
            Some(c) => if c == END_OF_FILE {
                EndEvent::Ended
            } else if c == END_BY_ERROR {
                EndEvent::Failed
            } else {
                EndEvent::Quiet
            },
        }),
{
    let code: i32 = match reason {
        Some(c) => c,
        None => END_OF_FILE,
    };
    if code == END_OF_FILE {
        EndEvent::Ended
    } else if code == END_BY_ERROR {
        EndEvent::Failed
    } else {
        EndEvent::Quiet
    }
}

/// The engine's word for a switch.
pub fn switch_word(on: bool) -> (r: String)
    ensures
        r@ == (if on {
            "yes"@
        } else {
            "no"@
        }),
{
    if on {
        "yes".to_owned()
    } else {
        "no".to_owned()
    }
}

/// The engine's command for a step of one frame.
pub fn frame_step_command(forward: bool) -> (r: String)
    ensures
        r@ == (if forward {
            "frame-step"@
        } else {
            "frame-back-step"@
        }),
{
    if forward {
        "frame-step".to_owned()
    } else {
        "frame-back-step".to_owned()
    }
}

/// The size of the video surface: at least one pixel each way.
pub fn surface_size(w: i32, h: i32) -> (r: (i32, i32))
    ensures
        r.0 == (if w < 1 {
            1
        } else {
            w
        }),
        r.1 == (if h < 1 {
            1
        } else {
            h
        }),
{
    let w: i32 = if w < 1 {
        1
    } else {
        w
    };
    let h: i32 = if h < 1 {
        1
    } else {
        h
    };
    (w, h)
}

} // verus!
