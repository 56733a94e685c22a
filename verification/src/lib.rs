//! Driver core for an 8x8 RGB LED matrix fed by a byte stream.
//!
//! The crate models the image pipeline of the board firmware: a fixed
//! three-slot buffer pool, a byte-level framing decoder, a single-entry
//! pending slot shared with the display refresh task, and a screensaver
//! that takes over when the stream goes idle.  A small register machine
//! and a Fibonacci helper from the same firmware workspace round it off.

pub mod fibo;
pub mod image;
pub mod laws;
pub mod machine;
pub mod pipeline;
pub mod output;
pub mod pool;

pub use image::Color;
pub use image::Image;
pub use machine::Machine;
pub use machine::MachineError;
