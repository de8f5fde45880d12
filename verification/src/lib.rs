//! Protocol engine for the DHT22 humidity and temperature sensor.
//!
//! The sensor answers a start signal on its single data line with 41 pulse
//! pairs: one framing pair and 40 data bits, each bit encoded in the length
//! of the high phase of its pair. This crate holds the part of a driver that
//! can be reasoned about: the frame format, the decoding of measured pulse
//! durations, and the engine that decides, sample by sample, how a read cycle
//! proceeds. Driving the actual line is left to the caller.
//!
//! - [`frame`]: the five bytes of a frame, their checksum and the reading
//!   they hold.
//! - [`pulse`]: measured pulse pairs, the threshold between short and long,
//!   and the frame that a capture spells.
//! - [`gpio`]: the directions and levels of a pin.
//! - [`engine`]: the engine of a read cycle, one step at a time.
//! - [`trace`]: what a read cycle makes of a whole feed of samples.
//! - [`read`]: a read cycle on a recorded feed.

pub mod engine;
pub mod frame;
pub mod gpio;
pub mod pulse;
pub mod read;
pub mod trace;

pub use engine::Dht22;
pub use frame::DhtData;
pub use frame::DhtResult;
