//! What the dashboard and the tray show.

pub mod theme;
pub mod tray;
pub mod window;
