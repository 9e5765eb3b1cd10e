use kitsune_rendercore::video_map::{
    merge_maps, parse_video_map_env, parse_video_map_text, set_monitor_video, unset_all_monitors,
    unset_monitor_video,
    MapEditError, VideoMap, VideoMapState,
};

fn entries(m: &VideoMap) -> Vec<(String, String)> {
    (0..m.len()).map(|i| m.entry(i)).collect()
}

fn pairs(v: &[(&str, &str)]) -> Vec<(String, String)> {
    v.iter().map(|(a, b)| (a.to_string(), b.to_string())).collect()
}

#[test]
fn env_mapping_parses_trimmed_entries() {
    let m = parse_video_map_env(" DP-1 : /v/a.mp4 ; ;HDMI-A-1:/v/b.mp4;broken; :x;y: ");
    assert_eq!(entries(&m), pairs(&[("DP-1", "/v/a.mp4"), ("HDMI-A-1", "/v/b.mp4")]));
}

#[test]
fn env_mapping_splits_at_first_colon() {
    let m = parse_video_map_env("DP-1:/v/a:b.mp4");
    assert_eq!(m.get("DP-1"), Some("/v/a:b.mp4".to_string()));
}

#[test]
fn file_mapping_skips_comments_and_blank_lines() {
    let text = "# header\n\n  DP-1 = /v/a.mp4  \r\n#HDMI-A-1=/v/x.mp4\nnot an entry\n=/v/y.mp4\neDP-1=\n";
    let m = parse_video_map_text(text);
    assert_eq!(entries(&m), pairs(&[("DP-1", "/v/a.mp4")]));
}

#[test]
fn file_mapping_duplicate_lines_last_wins() {
    let m = parse_video_map_text("DP-1=/v/a.mp4\nHDMI-A-1=/v/b.mp4\nDP-1=/v/c.mp4\n");
    assert_eq!(entries(&m), pairs(&[("DP-1", "/v/c.mp4"), ("HDMI-A-1", "/v/b.mp4")]));
}

#[test]
fn empty_file_gives_empty_mapping() {
    assert_eq!(parse_video_map_text("").len(), 0);
}

#[test]
fn resolution_precedence_file_then_env_then_default() {
    let env = parse_video_map_env("A:v2;B:v3");
    let state = VideoMapState::new(env, "A=v1\n", Some("v4".to_string()), None, 0, 1000);
    assert_eq!(state.resolve("A"), Some("v1".to_string()));
    assert_eq!(state.resolve("B"), Some("v3".to_string()));
    assert_eq!(state.resolve("C"), Some("v4".to_string()));
}

#[test]
fn resolution_without_default_is_none() {
    let state = VideoMapState::new(VideoMap::new(), "A=v1\n", None, None, 0, 1000);
    assert_eq!(state.resolve("Z"), None);
}

#[test]
fn merge_overrides_env_with_file() {
    let env = parse_video_map_env("A:v2;B:v3");
    let file = parse_video_map_text("A=v1\nC=v5");
    let merged = merge_maps(env, file);
    assert_eq!(entries(&merged), pairs(&[("A", "v1"), ("B", "v3"), ("C", "v5")]));
}

#[test]
fn set_then_read_round_trip() {
    let before = "# comment\nHDMI-A-1=/v/b.mp4\nDP-1=/v/old.mp4\nDP-1=/v/older.mp4\n";
    let text = set_monitor_video(before, "DP-2", "/v/new.mp4").unwrap();
    let m = parse_video_map_text(&text);
    assert_eq!(m.get("DP-2"), Some("/v/new.mp4".to_string()));
    assert_eq!(m.get("HDMI-A-1"), Some("/v/b.mp4".to_string()));
    assert_eq!(m.get("DP-1"), Some("/v/older.mp4".to_string()));
    assert_eq!(m.len(), 3);
}

#[test]
fn set_replaces_in_place_and_renders_exact_text() {
    let text = set_monitor_video("DP-1=/v/a.mp4\nHDMI-A-1=/v/b.mp4\n", "DP-1", "/v/c.mp4").unwrap();
    assert_eq!(
        text,
        "# monitor=/absolute/path/video.mp4\nDP-1=/v/c.mp4\nHDMI-A-1=/v/b.mp4\n"
    );
}

#[test]
fn set_on_missing_file_writes_header_and_entry() {
    let text = set_monitor_video("", "DP-1", "/v/a.mp4").unwrap();
    assert_eq!(text, "# monitor=/absolute/path/video.mp4\nDP-1=/v/a.mp4\n");
}

#[test]
fn set_rejects_blank_monitor_or_video() {
    assert_eq!(set_monitor_video("", "  ", "/v/a.mp4"), Err(MapEditError::EmptyMonitor));
    assert_eq!(set_monitor_video("", "DP-1", " \t"), Err(MapEditError::EmptyVideo));
    assert_eq!(MapEditError::EmptyMonitor.message(), "monitor is empty");
    assert_eq!(MapEditError::EmptyVideo.message(), "video path is empty");
}

#[test]
fn unset_removes_one_entry() {
    let (text, removed) = unset_monitor_video("DP-1=/v/a.mp4\nHDMI-A-1=/v/b.mp4\n", "DP-1");
    assert!(removed);
    assert_eq!(text, "# monitor=/absolute/path/video.mp4\nHDMI-A-1=/v/b.mp4\n");
    let (_, removed_again) = unset_monitor_video(&text, "DP-1");
    assert!(!removed_again);
}

#[test]
fn second_poll_within_interval_does_not_stat() {
    let mut state = VideoMapState::new(VideoMap::new(), "", None, Some(5), 10_000, 1000);
    assert!(!state.poll_due(10_500));
    assert!(state.poll_due(11_000));
    assert!(!state.poll_due(11_999));
    assert!(state.poll_due(12_000));
}

#[test]
fn reload_only_when_mtime_changes() {
    let mut state = VideoMapState::new(VideoMap::new(), "A=v1\n", None, Some(5), 0, 1000);
    assert!(!state.observe_mtime(Some(5)));
    assert!(state.observe_mtime(Some(6)));
    assert!(state.observe_mtime(None));
    assert!(!state.observe_mtime(None));
    state.reload_from_text("A=v9\n");
    assert_eq!(state.resolve("A"), Some("v9".to_string()));
}

#[test]
fn video_change_only_for_monitors_whose_video_differs() {
    let state = VideoMapState::new(VideoMap::new(), "A=v1\n", None, None, 0, 1000);
    assert_eq!(state.video_change("A", &Some("v1".to_string())), None);
    assert_eq!(state.video_change("A", &None), Some(Some("v1".to_string())));
    assert_eq!(state.video_change("B", &Some("v1".to_string())), Some(None));
    assert_eq!(state.video_change("B", &None), None);
}

#[test]
fn unset_all_keeps_only_listed_monitors() {
    let text = "DP-1=/v/a.mp4\nHDMI-A-1=/v/b.mp4\neDP-1=/v/c.mp4\n";
    let (out, removed) = unset_all_monitors(text, &vec!["eDP-1".to_string(), "DP-9".to_string()]);
    assert_eq!(removed, 2);
    assert_eq!(out, "# monitor=/absolute/path/video.mp4\neDP-1=/v/c.mp4\n");
    let (out, removed) = unset_all_monitors(text, &vec![]);
    assert_eq!(removed, 3);
    assert_eq!(out, "# monitor=/absolute/path/video.mp4\n");
}

#[test]
fn written_file_lists_monitors_in_ascending_order() {
    let text = set_monitor_video("B=x\n", "A", "y").unwrap();
    assert_eq!(text, "# monitor=/absolute/path/video.mp4\nA=y\nB=x\n");
    let text = set_monitor_video("HDMI-A-1=/v/b.mp4\neDP-1=/v/c.mp4\nDP-1=/v/a.mp4\n", "DP-2", "/v/d.mp4").unwrap();
    assert_eq!(
        text,
        "# monitor=/absolute/path/video.mp4\nDP-1=/v/a.mp4\nDP-2=/v/d.mp4\nHDMI-A-1=/v/b.mp4\neDP-1=/v/c.mp4\n"
    );
    let (text, _) = unset_monitor_video("b=1\na=2\nc=3\n", "b");
    assert_eq!(text, "# monitor=/absolute/path/video.mp4\na=2\nc=3\n");
}

#[test]
fn parsed_maps_are_in_key_order() {
    let m = parse_video_map_env("Z:1;A:2;M:3");
    assert_eq!(entries(&m), pairs(&[("A", "2"), ("M", "3"), ("Z", "1")]));
}
