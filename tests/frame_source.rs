use kitsune_rendercore::frame_source::{
    decoder_args, decoder_filter, decoder_fps, FillPhase, FillStep, FrameFill, HwAccel, ReadStatus,
};
use kitsune_rendercore::render::frame_len;

/// A decoder that delivers `frames_left` frames, then ends its stream; a
/// restart gives it a fresh stream of `per_run` frames.
struct FakeDecoder {
    frames_left: usize,
    per_run: usize,
    restarts: usize,
    counter: u8,
}

impl FakeDecoder {
    fn read(&mut self, dst: &mut [u8]) -> ReadStatus {
        if self.frames_left == 0 {
            return ReadStatus::EndOfStream;
        }
        self.frames_left -= 1;
        self.counter = self.counter.wrapping_add(1);
        dst.fill(self.counter);
        ReadStatus::Filled
    }

    fn restart(&mut self) -> bool {
        self.restarts += 1;
        self.frames_left = self.per_run;
        true
    }
}

fn fill(decoder: &mut FakeDecoder, dst: &mut [u8]) -> bool {
    let (mut fill, mut step) = FrameFill::start();
    loop {
        step = match step {
            FillStep::Read => {
                let status = decoder.read(dst);
                fill.on_read(status)
            }
            FillStep::Restart => {
                let ok = decoder.restart();
                fill.on_restart(ok)
            }
            FillStep::Delivered => return true,
            FillStep::Skipped => return false,
        };
    }
}

#[test]
fn end_of_stream_restarts_and_delivers_a_full_frame() {
    let n = 3;
    let mut decoder = FakeDecoder { frames_left: n, per_run: n, restarts: 0, counter: 0 };
    let len = frame_len(16, 9);
    let mut buf = vec![0u8; len];
    for _ in 0..n {
        assert!(fill(&mut decoder, &mut buf));
    }
    assert_eq!(decoder.restarts, 0);
    assert!(fill(&mut decoder, &mut buf));
    assert_eq!(decoder.restarts, 1);
    assert_eq!(buf.len(), 16 * 9 * 4);
    assert!(buf.iter().all(|b| *b == n as u8 + 1));
}

#[test]
fn second_failure_skips_the_frame() {
    let mut fill = FrameFill::start().0;
    assert_eq!(fill.on_read(ReadStatus::BrokenPipe), FillStep::Restart);
    assert_eq!(fill.on_restart(true), FillStep::Read);
    assert_eq!(fill.on_read(ReadStatus::EndOfStream), FillStep::Skipped);
    assert_eq!(fill.phase(), FillPhase::Done);
}

#[test]
fn other_errors_and_failed_restarts_skip() {
    let mut fill = FrameFill::start().0;
    assert_eq!(fill.on_read(ReadStatus::Failed), FillStep::Skipped);
    let mut fill = FrameFill::start().0;
    assert_eq!(fill.on_read(ReadStatus::EndOfStream), FillStep::Restart);
    assert_eq!(fill.on_restart(false), FillStep::Skipped);
}

#[test]
fn hwaccel_settings() {
    assert_eq!(HwAccel::from_setting(None), HwAccel::Auto);
    assert_eq!(HwAccel::from_setting(Some("NONE")), HwAccel::Off);
    assert_eq!(HwAccel::from_setting(Some("cuda")), HwAccel::Nvdec);
    assert_eq!(HwAccel::from_setting(Some("NvDec")), HwAccel::Nvdec);
    assert_eq!(HwAccel::from_setting(Some("vaapi")), HwAccel::Vaapi);
    assert_eq!(HwAccel::from_setting(Some("qsv")), HwAccel::Auto);
    assert_eq!(HwAccel::Nvdec.decoder_value(), Some("cuda"));
    assert_eq!(HwAccel::Auto.decoder_value(), Some("auto"));
    assert_eq!(HwAccel::Vaapi.decoder_value(), Some("vaapi"));
    assert_eq!(HwAccel::Off.decoder_value(), None);
}

#[test]
fn decoder_filter_text() {
    assert_eq!(
        decoder_filter("1.5000", 30, 960, 540),
        "setpts=PTS/1.5000,fps=30,scale=960:540:force_original_aspect_ratio=increase,crop=960:540"
    );
}

#[test]
fn decoder_arguments() {
    let args = decoder_args("/v/a.mp4", 1280, 720, 24, "1.0000", HwAccel::Vaapi);
    let expected = [
        "-hide_banner", "-loglevel", "error", "-hwaccel", "vaapi", "-stream_loop", "-1", "-i",
        "/v/a.mp4", "-an", "-sn", "-dn", "-vf",
        "setpts=PTS/1.0000,fps=24,scale=1280:720:force_original_aspect_ratio=increase,crop=1280:720",
        "-pix_fmt", "rgba", "-f", "rawvideo", "-",
    ];
    assert_eq!(args, expected);
    let plain = decoder_args("/v/a.mp4", 1280, 720, 24, "1.0000", HwAccel::Off);
    assert_eq!(plain.len(), expected.len() - 2);
    assert_eq!(plain[3], "-stream_loop");
}

#[test]
fn decoder_fps_setting() {
    assert_eq!(decoder_fps(None), 30);
    assert_eq!(decoder_fps(Some("24")), 24);
    assert_eq!(decoder_fps(Some("0")), 30);
    assert_eq!(decoder_fps(Some("fast")), 30);
}
