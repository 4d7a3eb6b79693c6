//! The verified core of a personal mouse-behaviour recorder.
//!
//! Capturing, framing, storing, auditing and exporting the raw mouse signal is
//! decided here, on plain values. Talking to Windows, to the disk and to the
//! screen is left to the program around this library.

pub mod calendar;
pub mod cli;
pub mod clock;
pub mod console;
pub mod context;
pub mod event;
pub mod export;
pub mod input;
pub mod instant;
pub mod le;
pub mod order;
pub mod recording;
pub mod report;
pub mod ring;
pub mod stats;
pub mod storage;
pub mod text;
pub mod ui;
pub mod utf16;
pub mod windows;
