use kitsune_rendercore::backend::{create_default_backend, missing_capability, MissingCapability, LayerBackend, WaylandLayerStubBackend};
use kitsune_rendercore::config::RenderCoreConfig;
use kitsune_rendercore::pause::PauseEdge;
use kitsune_rendercore::runtime::{LoopStep, RenderRuntime};
use kitsune_rendercore::steam::SteamGameDetector;

#[test]
fn stub_backend_requires_bootstrap() {
    let mut b = WaylandLayerStubBackend::new();
    assert_eq!(b.name(), "wayland-layer-stub");
    assert_eq!(b.discover_monitors().err(), Some("backend not bootstrapped".to_string()));
    assert!(b.render_frame(&[]).is_err());
    b.bootstrap().unwrap();
    let monitors = b.discover_monitors().unwrap();
    let names: Vec<&str> = monitors.iter().map(|m| m.name.as_str()).collect();
    assert_eq!(names, vec!["DP-1", "HDMI-A-1"]);
    assert!(monitors.iter().all(|m| m.width == 1920 && m.height == 1080 && m.refresh_hz == 60));
    let surfaces = b.build_surfaces(&monitors).unwrap();
    assert_eq!(surfaces.len(), 2);
    assert_eq!(surfaces[1].monitor.name, "HDMI-A-1");
}

#[test]
fn config_frame_limit_setting() {
    assert_eq!(RenderCoreConfig::with_max_frames_setting(None).max_frames, None);
    assert_eq!(RenderCoreConfig::with_max_frames_setting(Some("0")).max_frames, None);
    assert_eq!(RenderCoreConfig::with_max_frames_setting(Some("x")).max_frames, None);
    let c = RenderCoreConfig::with_max_frames_setting(Some("240"));
    assert_eq!(c.max_frames, Some(240));
    assert_eq!(c.target_fps, 60);
    assert!(c.use_vsync && c.pause_on_maximized);
}

#[test]
fn runtime_renders_until_limit_and_pauses_on_signal() {
    let config = RenderCoreConfig::with_max_frames_setting(Some("2"));
    let mut rt = RenderRuntime::new(config, create_default_backend(), SteamGameDetector::new(true, 1000));
    rt.bootstrap().unwrap();
    assert_eq!(rt.surfaces().len(), 2);
    assert_eq!(rt.scheduler().frame_budget(), 16_666_666);
    assert!(!rt.frame_limit_reached());
    assert_eq!(
        rt.step(false).unwrap(),
        LoopStep::Rendered { edge: PauseEdge::Steady, frame: 0, log_frame: true }
    );
    assert_eq!(rt.step(true).unwrap(), LoopStep::Paused { edge: PauseEdge::Pausing });
    assert_eq!(rt.step(true).unwrap(), LoopStep::Paused { edge: PauseEdge::Steady });
    assert_eq!(
        rt.step(false).unwrap(),
        LoopStep::Rendered { edge: PauseEdge::Resuming, frame: 1, log_frame: false }
    );
    assert!(rt.frame_limit_reached());
    assert_eq!(rt.frame_count(), 2);
}

#[test]
fn runtime_without_bootstrap_fails_to_render() {
    let config = RenderCoreConfig::with_max_frames_setting(None);
    let mut rt = RenderRuntime::new(config, WaylandLayerStubBackend::new(), SteamGameDetector::new(false, 100));
    assert!(rt.step(false).is_err());
    assert_eq!(rt.frame_count(), 0);
    assert!(!rt.steam_game_running(0, || true));
}

#[test]
fn missing_capabilities_in_order() {
    assert_eq!(missing_capability(false, false, 0), Some(MissingCapability::Compositor));
    assert_eq!(missing_capability(true, false, 2), Some(MissingCapability::LayerShell));
    assert_eq!(missing_capability(true, true, 0), Some(MissingCapability::Outputs));
    assert_eq!(missing_capability(true, true, 1), None);
    assert_eq!(MissingCapability::Outputs.message(), "no wl_output globals discovered");
}

#[test]
fn new_runtime_keeps_config_and_has_no_surfaces() {
    let config = RenderCoreConfig::with_max_frames_setting(Some("7"));
    let rt = RenderRuntime::new(config, create_default_backend(), SteamGameDetector::new(false, 100));
    assert_eq!(rt.config().max_frames, Some(7));
    assert_eq!(rt.config().target_fps, 60);
    assert!(rt.surfaces().is_empty());
    assert!(!rt.steam_detector_enabled());
}
