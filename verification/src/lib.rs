//! Planning and validation logic of a demo-video production tool driven by ffmpeg.

pub mod commands;
pub mod config;
pub mod ffmpeg;
pub mod json;
pub mod names;
pub mod probe;
pub mod text;
