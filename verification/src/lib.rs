//! Verified core of a mining-pool client: key resolution, mining decisions,
//! self-update planning and span export.

pub mod build_info;
pub mod config;
pub mod entropy;
pub mod hexadecimal;
pub mod http;
pub mod jam_loader;
pub mod json;
pub mod key_manager;
pub mod miner;
pub mod noun;
pub mod submission;
pub mod tags;
pub mod text;
pub mod tracer;
pub mod updater;
pub mod zipkin;
