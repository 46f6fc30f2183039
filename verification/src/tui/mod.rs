//! The terminal's view of a session: layout, selection, focus and input.

pub mod appearance;
pub mod events;
pub mod input;
pub mod interaction;
pub mod laws;
pub mod layout;
pub mod mouse;
pub mod reading;
pub mod render;
pub mod sidebar;
pub mod state;
pub mod view;

pub use view::{App, Focus};
