use vstd::prelude::*;

verus! {

/// The window was resized to `Width` by `Height`.
#[derive(Clone, Copy, Debug, PartialEq, Eq, Structural)]
pub struct WindowResizeEvent {
    pub Width: u32,
    pub Height: u32,
}

/// The window was asked to close.
#[derive(Clone, Copy, Debug, PartialEq, Eq, Structural)]
pub struct WindowCloseEvent {}

/// The window was maximized.
#[derive(Clone, Copy, Debug, PartialEq, Eq, Structural)]
pub struct WindowMaximizeEvent {}

} // verus!
