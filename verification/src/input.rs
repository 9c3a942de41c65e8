//! The actions that players, the camera and the menus respond to.

use vstd::prelude::*;

verus! {

/// What a player can do.
#[derive(Debug, Copy, Clone, PartialEq, Eq, Structural, Hash)]
pub enum PlayerAction {
    Move,
    FlopAttack,
    Throw,
    Shoot,
}

/// How the camera can be moved.
#[derive(Debug, Copy, Clone, PartialEq, Eq, Structural, Hash)]
pub enum CameraAction {
    Up,
    Down,
    Right,
    Left,
    ZoomIn,
    ZoomOut,
}

/// What can be done in the menus.
#[derive(Debug, Copy, Clone, PartialEq, Eq, Structural, Hash)]
pub enum MenuAction {
    Confirm,
    Forward,
    Backward,
    Pause,
    ToggleFullscreen,
}

} // verus!
