//! What the device side of Windows reports, and what is made of it.

pub mod ballistics;
pub mod devices;
pub mod raw_input;
