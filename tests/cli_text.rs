use kitsune_rendercore::cli_text::{build_status_json, escape_json, monitor_names_from_json, parse_csv_list};

#[test]
fn csv_items_are_trimmed_and_non_empty() {
    assert_eq!(parse_csv_list(" DP-1, ,HDMI-A-1 ,,"), vec!["DP-1".to_string(), "HDMI-A-1".to_string()]);
    assert!(parse_csv_list("").is_empty());
    assert_eq!(parse_csv_list("eDP-1"), vec!["eDP-1".to_string()]);
}

#[test]
fn json_escaping() {
    assert_eq!(escape_json(r#"a"b\c"#), r#"a\"b\\c"#);
    assert_eq!(escape_json("plain"), "plain");
}

#[test]
fn monitor_names_sorted_and_unique() {
    let json = r#"[{"id":0,"name": "HDMI-A-1","x":1},{"id":1,"name":"DP-1"},{"name":""},{"name" : "DP-1"}]"#;
    assert_eq!(monitor_names_from_json(json), vec!["DP-1".to_string(), "HDMI-A-1".to_string()]);
    assert!(monitor_names_from_json("[]").is_empty());
    assert!(monitor_names_from_json(r#"{"name": 5}"#).is_empty());
}

#[test]
fn status_json_compact() {
    let mapped = vec![("DP-1".to_string(), "/v/a.mp4".to_string()), ("HDMI-A-1".to_string(), "<none>".to_string())];
    let out = build_status_json("/m.conf", "<none>", "30", "1.0", "default", "auto", true, false, "active", &mapped, false);
    assert_eq!(
        out,
        r#"{"map_file":"/m.conf","default_video":"<none>","runtime":{"fps":"30","speed":"1.0","quality":"default","hwaccel":"auto"},"steam_pause_enabled":true,"steam_game_running":false,"service_state":"active","monitors":[{"name":"DP-1","video":"/v/a.mp4"},{"name":"HDMI-A-1","video":"<none>"}]}"#
    );
}

#[test]
fn status_json_pretty() {
    let mapped = vec![("DP-1".to_string(), "/v/\"a\".mp4".to_string())];
    let out = build_status_json("/m.conf", "/d.mp4", "30", "1.0", "high", "vaapi", false, true, "inactive", &mapped, true);
    let expected = "{\n  \"map_file\": \"/m.conf\",\n  \"default_video\": \"/d.mp4\",\n  \"runtime\": {\n    \"fps\": \"30\",\n    \"speed\": \"1.0\",\n    \"quality\": \"high\",\n    \"hwaccel\": \"vaapi\"\n  },\n  \"steam_pause_enabled\": false,\n  \"steam_game_running\": true,\n  \"service_state\": \"inactive\",\n  \"monitors\": [\n    {\"name\":\"DP-1\",\"video\":\"/v/\\\"a\\\".mp4\"}\n  ]\n}";
    assert_eq!(out, expected);
}
