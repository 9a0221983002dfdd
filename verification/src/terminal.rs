//! Terminal protocol logic shared by the CLI and GUI front ends. Nothing here
//! needs an SSH server or a UI.

pub mod mouse;
pub mod output;
pub mod input;
pub mod selection;
pub mod brackets;
pub mod carry;
