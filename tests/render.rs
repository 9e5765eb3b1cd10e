use kitsune_rendercore::render::{
    acquire_action, choose_present_mode, choose_source_resolution, needs_reconfigure, PresentChoice, clamp_source_size, frame_len, procedural_pixels,
    quality_preset, AcquireAction, AcquireFailure,
};

#[test]
fn clamp_4k_to_2048() {
    let (w, h) = clamp_source_size(3840, 2160, 2048);
    assert_eq!((w, h), (2048, 1152));
    assert!(w <= 2048 && h <= 2048);
    let diff = (w as i64 * 2160 - h as i64 * 3840).abs();
    assert!(diff < 3840 + 2160);
}

#[test]
fn clamp_keeps_sizes_that_fit() {
    assert_eq!(clamp_source_size(1920, 1080, 2048), (1920, 1080));
    assert_eq!(clamp_source_size(2048, 2048, 2048), (2048, 2048));
}

#[test]
fn clamp_never_reaches_zero() {
    assert_eq!(clamp_source_size(10_000, 1, 100), (100, 1));
    assert_eq!(clamp_source_size(1, 10_000, 100), (1, 100));
}

#[test]
fn quality_presets() {
    assert_eq!(quality_preset("LOW"), Some((1280, 720)));
    assert_eq!(quality_preset("1080p"), Some((1920, 1080)));
    assert_eq!(quality_preset("high"), Some((2560, 1440)));
    assert_eq!(quality_preset("4K"), Some((3840, 2160)));
    assert_eq!(quality_preset("2160p"), Some((3840, 2160)));
    assert_eq!(quality_preset("default"), None);
}

#[test]
fn source_resolution_from_settings() {
    assert_eq!(choose_source_resolution(None, None, None, 8192), (960, 540));
    assert_eq!(choose_source_resolution(Some("ultra"), None, None, 8192), (3840, 2160));
    assert_eq!(choose_source_resolution(Some("ultra"), None, None, 2048), (2048, 1152));
    assert_eq!(choose_source_resolution(Some("low"), Some("1000"), Some("0"), 8192), (1000, 720));
    assert_eq!(choose_source_resolution(None, Some("x"), Some("600"), 8192), (960, 600));
}

#[test]
fn placeholder_pixels_values() {
    let px = procedural_pixels(64, 2);
    assert_eq!(px.len(), frame_len(64, 2));
    assert_eq!(px.len(), 64 * 2 * 4);
    assert_eq!(&px[0..4], &[30, 40, 180, 255]);
    // x = 32, y = 0: second checker square
    let i = 32 * 4;
    assert_eq!(&px[i..i + 4], &[30 + 75 + 40, 40, 80 + 50 + 35, 255]);
    // x = 0, y = 1
    let j = 64 * 4;
    assert_eq!(&px[j..j + 4], &[30, 40 + 85, 180, 255]);
}

#[test]
fn acquire_failures() {
    assert_eq!(acquire_action(AcquireFailure::Lost), AcquireAction::Reconfigure);
    assert_eq!(acquire_action(AcquireFailure::Outdated), AcquireAction::Reconfigure);
    assert_eq!(acquire_action(AcquireFailure::Timeout), AcquireAction::Skip);
    assert_eq!(acquire_action(AcquireFailure::Other), AcquireAction::Skip);
    assert_eq!(acquire_action(AcquireFailure::OutOfMemory), AcquireAction::Fatal);
}

#[test]
fn present_mode_and_reconfigure() {
    assert_eq!(choose_present_mode(true), PresentChoice::Mailbox);
    assert_eq!(choose_present_mode(false), PresentChoice::Fifo);
    assert!(!needs_reconfigure((1920, 1080), (1920, 1080)));
    assert!(needs_reconfigure((1920, 1080), (2560, 1080)));
    assert!(needs_reconfigure((1920, 1080), (1920, 1440)));
}
