use vstd::prelude::*;
use crate::text::{parse_u64, parse_unsigned};

verus! {

/// The render loop's settings.
pub struct RenderCoreConfig {
    pub target_fps: u32,
    pub use_vsync: bool,
    pub pause_on_maximized: bool,
    /// Stop after this many frames; run forever when `None`.
    pub max_frames: Option<u64>,
}

/// The frame limit a setting asks for: a positive whole number.
pub open spec fn frame_limit_for(setting: Option<Seq<char>>) -> Option<u64> {
    match setting {
        Some(v) => match parse_unsigned(v, u64::MAX as int) {
            Some(n) => if n > 0 {
                Some(n as u64)
            } else {
                None
            },
            None => None,
        },
        None => None,
    }
}

impl RenderCoreConfig {
    /// The usual settings, 60 frames per second with vsync, and the frame
    /// limit that `max_frames_setting` holds.
    pub fn with_max_frames_setting(max_frames_setting: Option<&str>) -> (r: Self)
        ensures
            r.target_fps == 60,
            r.use_vsync,
            r.pause_on_maximized,
            r.max_frames == frame_limit_for(match max_frames_setting {
                Some(v) => Some(v@),
                None => None,
            }),
    {
        let max_frames = match max_frames_setting {
            Some(v) => match parse_u64(v) {
                Some(n) => if n > 0 {
                    Some(n)
                } else {
                    None
                },
                None => None,
            },
            None => None,
        };
        RenderCoreConfig { target_fps: 60, use_vsync: true, pause_on_maximized: true, max_frames }
    }
}

} // verus!
