//! The decisions behind a Wayland status bar and a notification popup:
//! how workspaces are arranged and styled, how media players are tracked,
//! how notifications are stored, and how their labels are written.
use vstd::prelude::*;

pub mod bar;
pub mod hyprland;
pub mod icons;
pub mod media;
pub mod notify;
pub mod overview;
pub mod text;
pub mod time;

verus! {

/// What an event handler asks of the user interface once it has run.
#[derive(Clone, Copy, Debug, PartialEq, Eq, Structural)]
pub struct Action {
    /// Whether the views must be built again.
    pub rebuild: bool,
}

} // verus!
