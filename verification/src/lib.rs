//! Instant replay: the decisions and data structures behind a clip recorder
//! that keeps the last seconds of screen and sound in memory.

pub mod annexb;
pub mod args;
pub mod audio;
pub mod clitest;
pub mod config;
pub mod convert;
pub mod d3d;
pub mod dupl;
pub mod encoder;
pub mod frames;
pub mod local_time;
pub mod logging;
pub mod media;
pub mod mux;
pub mod paths;
pub mod ring;
pub mod seconds;
pub mod supervisor;
pub mod text;
pub mod tray;
