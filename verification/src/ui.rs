//! The engine's interface to the host UI: the points that pointer events
//! carry, and the responder that such events are delivered to. The canvas,
//! the event listeners and the timer themselves belong to the host
//! environment, outside this crate.

use vstd::prelude::*;

verus! {

/// A struct that represents a point of the world.
#[derive(PartialEq, Eq, Structural, Copy, Clone, Debug)]
pub struct Point {
    pub x: i32,
    pub y: i32,
}

/// Used to respond to the pointer events sent from the host UI. The host's
/// event glue implements this trait and forwards each event to the
/// simulation session.
pub trait Responder {
    /// A pointer button was pressed at the given point.
    fn on_mouse_down(&self, point: Point);

    /// The pointer moved to the given point.
    fn on_mouse_move(&self, point: Point);

    /// The pointer button was released.
    fn on_mouse_up(&self);
}

} // verus!
