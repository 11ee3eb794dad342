//! Thread priority hints, which keep the capture and render threads from
//! being preempted when other programs fight for the processor.

use vstd::prelude::*;

verus! {

/// A scheduling priority.
#[derive(Debug, Clone, Copy, PartialEq, Eq, Structural)]
pub enum Priority {
    TimeCritical,
    Highest,
}

/// What to ask the scheduler for.
#[derive(Debug, Clone, Copy)]
pub struct Boost {
    pub priority: Priority,
    /// The task class of the multimedia scheduler.
    pub task: &'static str,
}

/// What the capture thread asks for: time-critical priority on Windows,
/// nothing elsewhere.
pub fn bump_capture_thread(on_windows: bool) -> (r: Option<Boost>)
    ensures
        r is Some <==> on_windows,
        r matches Some(b) ==> b.priority == Priority::TimeCritical && b.task@ == "Capture"@,
{
    if on_windows {
        Some(Boost { priority: Priority::TimeCritical, task: "Capture" })
    } else {
        None
    }
}

/// What the render thread asks for: the highest ordinary priority on Windows,
/// nothing elsewhere.
pub fn bump_render_thread(on_windows: bool) -> (r: Option<Boost>)
    ensures
        r is Some <==> on_windows,
        r matches Some(b) ==> b.priority == Priority::Highest && b.task@ == "Games"@,
{
    if on_windows {
        Some(Boost { priority: Priority::Highest, task: "Games" })
    } else {
        None
    }
}

} // verus!
