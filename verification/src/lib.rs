//! Decoder for the serial telemetry stream of a utility meter.
//!
//! The stream is a sequence of frames. A frame opens with a start marker,
//! holds newline-delimited label/value groups, each with a checksum byte, and
//! closes with an end marker. The modules follow the data as it flows:
//! bytes are assembled into frames ([`frame`]), a frame is split into groups
//! ([`group`]), each group's checksum is classified ([`checksum`]), and the
//! groups of one frame are turned into a typed reading ([`builder`],
//! [`models`]). [`decoder`] ties these steps together for a stream that
//! arrives in chunks of any size, and [`handoff`] passes its readings on to a
//! sink that may be slow.
//!
//! Around the decoder stand [`generator`], which writes sample frames, and
//! [`settings`], the configuration of the programs that use it.

pub mod builder;
pub mod bytes;
pub mod checksum;
pub mod decoder;
pub mod diagnostic;
pub mod frame;
pub mod generator;
pub mod group;
pub mod handoff;
pub mod label;
pub mod models;
pub mod settings;
pub mod value;
pub mod wire;
