//! What the window and the tray show.

pub mod laws;
pub mod projection;
