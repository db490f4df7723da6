//! The window stack of a tiling window manager: an ordered list with a focus cursor, and
//! the policy that keeps exactly one of the windows sharing a tile slot on screen.
//! Beside it, the application rules and the command scripts generated from them.

pub mod config_generation;
pub mod container;
pub mod ring;
pub mod text_order;
pub mod theorems;
pub mod window;
