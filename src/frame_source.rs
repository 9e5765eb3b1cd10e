use vstd::prelude::*;
use crate::monitor::{decimal, decimal_string};
use crate::text::{
    append_chars, chars_of, lower_seq, parse_u32, parse_unsigned, same_chars, string_views,
    substring, to_ascii_lower,
};

verus! {

/// The hardware decoding the decoder process is asked for.
#[derive(Clone, Copy, Debug, PartialEq, Eq, Structural)]
pub enum HwAccel {
    /// Let the decoder pick.
    Auto,
    /// Software decoding only.
    Off,
    Nvdec,
    Vaapi,
}

pub open spec fn hwaccel_for(setting: Option<Seq<char>>) -> HwAccel {
    match setting {
        Some(v) => {
            let l = lower_seq(v);
            if l == "none"@ {
                HwAccel::Off
            } else if l == "nvdec"@ || l == "cuda"@ {
                HwAccel::Nvdec
            } else if l == "vaapi"@ {
                HwAccel::Vaapi
            } else {
                HwAccel::Auto
            }
        },
        None => HwAccel::Auto,
    }
}

impl HwAccel {
    /// The preference a setting names, in any ASCII case: `none`, `nvdec` or
    /// `cuda`, `vaapi`; anything else, or no setting, is `Auto`.
    pub fn from_setting(setting: Option<&str>) -> (r: Self)
        ensures
            r == hwaccel_for(match setting {
                Some(v) => Some(v@),
                None => None,
            }),
    {
        match setting {
            Some(v) => {
                let l = to_ascii_lower(&chars_of(v));
                if same_chars(&l, &chars_of("none")) {
                    HwAccel::Off
                } else if same_chars(&l, &chars_of("nvdec")) || same_chars(&l, &chars_of("cuda")) {
                    HwAccel::Nvdec
                } else if same_chars(&l, &chars_of("vaapi")) {
                    HwAccel::Vaapi
                } else {
                    HwAccel::Auto
                }
            },
            None => HwAccel::Auto,
        }
    }

    /// The decoder's `-hwaccel` value, or `None` when none is passed.
    pub fn decoder_value(&self) -> (r: Option<&'static str>)
        ensures
            *self == HwAccel::Auto ==> (r matches Some(s) && s@ == "auto"@),
            *self == HwAccel::Nvdec ==> (r matches Some(s) && s@ == "cuda"@),
            *self == HwAccel::Vaapi ==> (r matches Some(s) && s@ == "vaapi"@),
            *self == HwAccel::Off ==> r is None,
    {
        match self {
            HwAccel::Auto => Some("auto"),
            HwAccel::Nvdec => Some("cuda"),
            HwAccel::Vaapi => Some("vaapi"),
            HwAccel::Off => None,
        }
    }
}

/// The decoder's output frame rate unless a setting asks for another.
pub const DEFAULT_DECODER_FPS: u32 = 30;

/// The decoder's output frame rate: a positive whole number from the setting,
/// else the default.
pub fn decoder_fps(setting: Option<&str>) -> (r: u32)
    ensures
        r == match setting {
            Some(v) => match parse_unsigned(v@, u32::MAX as int) {
                Some(n) => if n > 0 {
                    n as u32
                } else {
                    DEFAULT_DECODER_FPS
                },
                None => DEFAULT_DECODER_FPS,
            },
            None => DEFAULT_DECODER_FPS,
        },
{
    match setting {
        Some(v) => match parse_u32(v) {
            Some(n) => if n > 0 {
                n
            } else {
                DEFAULT_DECODER_FPS
            },
            None => DEFAULT_DECODER_FPS,
        },
        None => DEFAULT_DECODER_FPS,
    }
}

/// The decoder's video filter: retime for the playback speed (written as
/// `speed`), resample to `fps`, then scale and centre-crop to exactly
/// `width × height`.
pub open spec fn filter_spec(speed: Seq<char>, fps: u32, width: u32, height: u32) -> Seq<char> {
    "setpts=PTS/"@ + speed + ",fps="@ + decimal(fps as nat) + ",scale="@ + decimal(width as nat)
        + ":"@ + decimal(height as nat) + ":force_original_aspect_ratio=increase,crop="@ + decimal(
        width as nat,
    ) + ":"@ + decimal(height as nat)
}

pub open spec fn hwaccel_args(h: HwAccel) -> Seq<Seq<char>> {
    match h {
        HwAccel::Auto => seq!["-hwaccel"@, "auto"@],
        HwAccel::Nvdec => seq!["-hwaccel"@, "cuda"@],
        HwAccel::Vaapi => seq!["-hwaccel"@, "vaapi"@],
        HwAccel::Off => Seq::empty(),
    }
}

/// The decoder's command line: loop the file forever, video only, filtered
/// as `filter_spec` says, raw RGBA frames on standard output.
pub open spec fn decoder_args_spec(
    path: Seq<char>,
    width: u32,
    height: u32,
    fps: u32,
    speed: Seq<char>,
    h: HwAccel,
) -> Seq<Seq<char>> {
    seq!["-hide_banner"@, "-loglevel"@, "error"@] + hwaccel_args(h) + seq![
        "-stream_loop"@,
        "-1"@,
        "-i"@,
        path,
        "-an"@,
        "-sn"@,
        "-dn"@,
        "-vf"@,
        filter_spec(speed, fps, width, height),
        "-pix_fmt"@,
        "rgba"@,
        "-f"@,
        "rawvideo"@,
        "-"@,
    ]
}


fn push_arg(args: &mut Vec<String>, a: &str)
    ensures
        string_views(final(args)@) == string_views(old(args)@).push(a@),
{
    args.push(a.to_owned());
    assert(string_views(args@) =~= string_views(old(args)@).push(a@));
}

/// The decoder's video filter, with the playback speed already written out.
pub fn decoder_filter(speed: &str, fps: u32, width: u32, height: u32) -> (r: String)
    ensures
        r@ == filter_spec(speed@, fps, width, height),
{
    let w = decimal_string(width);
    let h = decimal_string(height);
    let mut out: Vec<char> = Vec::new();
    append_chars(&mut out, "setpts=PTS/");
    append_chars(&mut out, speed);
    append_chars(&mut out, ",fps=");
    append_chars(&mut out, decimal_string(fps).as_str());
    append_chars(&mut out, ",scale=");
    append_chars(&mut out, w.as_str());
    append_chars(&mut out, ":");
    append_chars(&mut out, h.as_str());
    append_chars(&mut out, ":force_original_aspect_ratio=increase,crop=");
    append_chars(&mut out, w.as_str());
    append_chars(&mut out, ":");
    append_chars(&mut out, h.as_str());
    substring(&out, 0, out.len())
}

/// The decoder's arguments for one monitor's video, with the playback speed
/// already written out.
pub fn decoder_args(
    video_path: &str,
    width: u32,
    height: u32,
    fps: u32,
    speed: &str,
    hwaccel: HwAccel,
) -> (r: Vec<String>)
    ensures
        string_views(r@) == decoder_args_spec(video_path@, width, height, fps, speed@, hwaccel),
{
    let mut args: Vec<String> = Vec::new();
    assert(string_views(args@) =~= Seq::<Seq<char>>::empty());
    push_arg(&mut args, "-hide_banner");
    push_arg(&mut args, "-loglevel");
    push_arg(&mut args, "error");
    match hwaccel.decoder_value() {
        Some(v) => {
            push_arg(&mut args, "-hwaccel");
            push_arg(&mut args, v);
        },
        None => {},
    }
    let ghost head = string_views(args@);
    assert(head =~= seq!["-hide_banner"@, "-loglevel"@, "error"@] + hwaccel_args(hwaccel));
    push_arg(&mut args, "-stream_loop");
    push_arg(&mut args, "-1");
    push_arg(&mut args, "-i");
    push_arg(&mut args, video_path);
    push_arg(&mut args, "-an");
    push_arg(&mut args, "-sn");
    push_arg(&mut args, "-dn");
    push_arg(&mut args, "-vf");
    let filter = decoder_filter(speed, fps, width, height);
    push_arg(&mut args, filter.as_str());
    push_arg(&mut args, "-pix_fmt");
    push_arg(&mut args, "rgba");
    push_arg(&mut args, "-f");
    push_arg(&mut args, "rawvideo");
    push_arg(&mut args, "-");
    assert(string_views(args@) =~= decoder_args_spec(video_path@, width, height, fps, speed@, hwaccel));
    args
}

/// How one attempt to read a whole frame from the decoder ended.
#[derive(Clone, Copy, Debug, PartialEq, Eq, Structural)]
pub enum ReadStatus {
    /// The buffer was filled.
    Filled,
    /// The stream ended cleanly.
    EndOfStream,
    /// The decoder went away.
    BrokenPipe,
    /// Any other read error.
    Failed,
}

/// The next thing to do while filling one frame.
#[derive(Clone, Copy, Debug, PartialEq, Eq, Structural)]
pub enum FillStep {
    /// Read a whole frame into the buffer.
    Read,
    /// Stop the decoder and start it again with the same settings.
    Restart,
    /// Done: the buffer holds a new frame.
    Delivered,
    /// Done: no new frame this tick; the texture keeps the last one.
    Skipped,
}

/// Where a frame fill stands.
#[derive(Clone, Copy, Debug, PartialEq, Eq, Structural)]
pub enum FillPhase {
    /// Reading from the decoder as it was.
    FirstRead,
    /// The decoder is being restarted.
    Restarting,
    /// Reading once more, after the restart.
    Retry,
    /// Finished.
    Done,
}

pub open spec fn read_step(phase: FillPhase, status: ReadStatus) -> (FillPhase, FillStep) {
    match phase {
        FillPhase::FirstRead => match status {
            ReadStatus::Filled => (FillPhase::Done, FillStep::Delivered),
            ReadStatus::EndOfStream | ReadStatus::BrokenPipe => (FillPhase::Restarting, FillStep::Restart),
            ReadStatus::Failed => (FillPhase::Done, FillStep::Skipped),
        },
        FillPhase::Retry => match status {
            ReadStatus::Filled => (FillPhase::Done, FillStep::Delivered),
            _ => (FillPhase::Done, FillStep::Skipped),
        },
        _ => (phase, if phase == FillPhase::Done { FillStep::Skipped } else { FillStep::Restart }),
    }
}

pub open spec fn restart_step(phase: FillPhase, restarted: bool) -> (FillPhase, FillStep) {
    if phase == FillPhase::Restarting {
        if restarted {
            (FillPhase::Retry, FillStep::Read)
        } else {
            (FillPhase::Done, FillStep::Skipped)
        }
    } else {
        (phase, if phase == FillPhase::Done { FillStep::Skipped } else { FillStep::Read })
    }
}

/// Fills one frame from the decoder: a clean end of stream or a broken pipe
/// restarts the decoder and reads once more; any other failure, or a second
/// one, gives no frame this tick and no error.
pub struct FrameFill {
    phase: FillPhase,
}

impl FrameFill {
    pub closed spec fn phase_spec(&self) -> FillPhase {
        self.phase
    }

    /// A fill about to read its first attempt.
    pub fn start() -> (r: (Self, FillStep))
        ensures
            r.0.phase_spec() == FillPhase::FirstRead,
            r.1 == FillStep::Read,
    {
        (FrameFill { phase: FillPhase::FirstRead }, FillStep::Read)
    }

    pub fn phase(&self) -> (r: FillPhase)
        ensures
            r == self.phase_spec(),
    {
        self.phase
    }

    /// The read asked for ended with `status`; returns what comes next.
    pub fn on_read(&mut self, status: ReadStatus) -> (next: FillStep)
        ensures
            (final(self).phase_spec(), next) == read_step(old(self).phase_spec(), status),
    {
        match self.phase {
            FillPhase::FirstRead => match status {
                ReadStatus::Filled => {
                    self.phase = FillPhase::Done;
                    FillStep::Delivered
                },
                ReadStatus::EndOfStream | ReadStatus::BrokenPipe => {
                    self.phase = FillPhase::Restarting;
                    FillStep::Restart
                },
                ReadStatus::Failed => {
                    self.phase = FillPhase::Done;
                    FillStep::Skipped
                },
            },
            FillPhase::Retry => {
                self.phase = FillPhase::Done;
                match status {
                    ReadStatus::Filled => FillStep::Delivered,
                    _ => FillStep::Skipped,
                }
            },
            FillPhase::Restarting => FillStep::Restart,
            FillPhase::Done => FillStep::Skipped,
        }
    }

    /// The restart asked for succeeded or not; returns what comes next.
    pub fn on_restart(&mut self, restarted: bool) -> (next: FillStep)
        ensures
            (final(self).phase_spec(), next) == restart_step(old(self).phase_spec(), restarted),
    {
        match self.phase {
            FillPhase::Restarting => if restarted {
                self.phase = FillPhase::Retry;
                FillStep::Read
            } else {
                self.phase = FillPhase::Done;
                FillStep::Skipped
            },
            FillPhase::Done => FillStep::Skipped,
            _ => FillStep::Read,
        }
    }
}

/// A fill that meets the end of the stream restarts the decoder and, when the
/// fresh decoder gives a whole frame, delivers it: the caller never sees the
/// end of the stream. At most one restart happens per fill.
pub proof fn lemma_restart_then_deliver(first: ReadStatus, second: ReadStatus, restarted: bool)
    requires
        first == ReadStatus::EndOfStream || first == ReadStatus::BrokenPipe,
    ensures
        read_step(FillPhase::FirstRead, first) == (FillPhase::Restarting, FillStep::Restart),
        restarted ==> restart_step(FillPhase::Restarting, restarted) == (FillPhase::Retry, FillStep::Read),
        second == ReadStatus::Filled ==> read_step(FillPhase::Retry, second) == (
            FillPhase::Done,
            FillStep::Delivered,
        ),
        read_step(FillPhase::Retry, second).1 != FillStep::Restart,
{
}

} // verus!
