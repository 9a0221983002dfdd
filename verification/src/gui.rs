//! Logic of the graphical front end that does not paint: text and link
//! handling of the terminal canvas.

pub mod render;
pub mod cells;
pub mod canvas;
pub mod app_state;
pub mod status;
pub mod theme;
pub mod dialogs;
pub mod search;
pub mod session;
pub mod sidebar;
pub mod dock;
pub mod tabs;
pub mod files;
