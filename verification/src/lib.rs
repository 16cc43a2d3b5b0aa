//! Verified core of a recorder for spots published by DX cluster servers:
//! connection strings, spot filtering, daily file rotation and the decisions
//! of the supervising loop.

pub mod configuration;
pub mod connection;
pub mod filerotate;
pub mod recorder;
pub mod spot;
pub mod text;
