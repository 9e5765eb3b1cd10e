//! Core logic of an animated video wallpaper renderer: frame pacing, the
//! background-surface state machine, the monitor→video mapping store, the
//! pause gate and the decoder recovery policy.

pub mod backend;
pub mod cli_text;
pub mod config;
pub mod frame_source;
pub mod gpu;
pub mod monitor;
pub mod pause;
pub mod render;
pub mod runtime;
pub mod scheduler;
pub mod steam;
pub mod surface;
pub mod text;
pub mod video_map;
