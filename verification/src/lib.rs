//! vicash: capture card preview and LAN relay.
//!
//! The verified core: the transport stream muxer, the fragmented-MP4
//! splitter, the relay's routing and framing, the configuration model, the
//! recorder and the updater.

pub mod bytes;
pub mod calendar;
pub mod color;
pub mod command;
pub mod config;
pub mod crc;
pub mod demux;
pub mod fmp4;
pub mod fmp4_relay;
pub mod frame;
pub mod http;
pub mod launch;
pub mod media;
pub mod mpegts;
pub mod pages;
pub mod perf;
pub mod prerelease;
pub mod record;
pub mod relay;
pub mod samples;
pub mod settings;
pub mod shared;
pub mod text;
pub mod threadprio;
pub mod updater;
