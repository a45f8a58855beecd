//! Decoding of a wraparound hardware position counter into signed logical
//! division counts.
//!
//! A rotary encoder peripheral exposes a raw position register of some fixed
//! width. This library converts a stream of `(raw_position, timestamp)`
//! samples into whole "division" steps, carrying sub-division remainders
//! across calls and re-referencing the counter after an idle timeout.

pub mod model;
pub mod position;
pub mod encoder;
pub mod laws;

pub use encoder::RotaryEncoder;
pub use position::EncoderPosition;
pub use model::TrackerModel;
