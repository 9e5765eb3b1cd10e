use kitsune_rendercore::monitor::{decimal_string, OutputInfo};

#[test]
fn decimal_strings() {
    assert_eq!(decimal_string(0), "0");
    assert_eq!(decimal_string(7), "7");
    assert_eq!(decimal_string(42), "42");
    assert_eq!(decimal_string(u32::MAX), "4294967295");
}

#[test]
fn output_without_name_or_mode_uses_defaults() {
    let o = OutputInfo::new(31);
    assert_eq!(o.display_name(), "wl-output-31");
    let m = o.monitor_info();
    assert_eq!((m.width, m.height, m.refresh_hz), (1920, 1080, 60));
    assert_eq!(o.render_size(), (1920, 1080));
}

#[test]
fn current_mode_updates_size_and_rounds_refresh() {
    let mut o = OutputInfo::new(3);
    o.apply_mode(false, 800, 600, 75_000);
    assert_eq!(o.width, None);
    o.apply_mode(true, 2560, 1440, 143_856);
    assert_eq!((o.width, o.height, o.refresh_hz), (Some(2560), Some(1440), Some(144)));
    o.apply_mode(true, 0, -4, 59_499);
    assert_eq!((o.width, o.height, o.refresh_hz), (Some(1), Some(1), Some(59)));
    o.apply_mode(true, 10, 10, 59_500);
    assert_eq!(o.refresh_hz, Some(60));
    o.apply_mode(true, 10, 10, 300);
    assert_eq!(o.refresh_hz, Some(1));
    o.name = Some("DP-3".to_string());
    assert_eq!(o.monitor_info().name, "DP-3");
}
