use kitsune_rendercore::steam::{
    env_var_value, is_flag_on, is_pid_name, is_real_game_app_id, is_zombie_stat, nul_join, nuls_to_spaces,
    steam_game_reason, SteamGameDetector,
};
use std::cell::Cell;

#[test]
fn env_value_is_rest_of_first_matching_word() {
    let blob = "HOME=/home/u SteamAppId=570  SteamAppId=999 X=1";
    assert_eq!(env_var_value(blob, "SteamAppId"), Some("570".to_string()));
    assert_eq!(env_var_value(blob, "X"), Some("1".to_string()));
    assert_eq!(env_var_value(blob, "Steam"), None);
    assert_eq!(env_var_value("", "X"), None);
    assert_eq!(env_var_value("X=", "X"), Some(String::new()));
}

#[test]
fn app_ids_of_tools_are_not_games() {
    assert!(is_real_game_app_id("570"));
    assert!(is_real_game_app_id("+570"));
    for id in ["0", "7", "228980", "229000", "480", "769", "", "abc", "-5", "4294967296"] {
        assert!(!is_real_game_app_id(id), "{id}");
    }
    assert!(is_real_game_app_id("4294967295"));
}

#[test]
fn zombie_state_follows_last_parenthesis() {
    assert!(is_zombie_stat("123 (game) Z 1 2 3"));
    assert!(is_zombie_stat("123 (weird) name) Z"));
    assert!(!is_zombie_stat("123 (a) Z) S 1"));
    assert!(!is_zombie_stat("123 (game) S 1 2"));
    assert!(!is_zombie_stat("123 (game) Zz 1"));
    assert!(!is_zombie_stat("no paren Z"));
    assert!(!is_zombie_stat("1 (x)"));
}

#[test]
fn nul_join_turns_nuls_into_spaces() {
    assert_eq!(nul_join(b"/usr/bin/game\0--flag\0"), "/usr/bin/game --flag ");
    assert_eq!(nul_join(&[b'a', 0xff, 0, b'b']), "a\u{FFFD} b");
    assert_eq!(nuls_to_spaces("a\0b"), "a b");
}

#[test]
fn steam_client_processes_are_not_games() {
    let env = Some("SteamAppId=570");
    assert_eq!(steam_game_reason("/home/u/.steam/steamwebhelper --x", env), None);
    assert_eq!(steam_game_reason("/usr/lib/STEAM/steam-runtime/run", env), None);
    assert_eq!(steam_game_reason("/usr/bin/steam", env), None);
    assert_eq!(steam_game_reason("bash /home/u/.steam/steam.sh -silent", env), None);
}

#[test]
fn game_reasons_from_cmdline_then_environment() {
    assert_eq!(
        steam_game_reason("/games/steamapps/common/Dota/dota2 -x", None),
        Some("cmdline:steamapps/common".to_string())
    );
    assert_eq!(
        steam_game_reason("wine game.exe", Some("A=1 SteamGameId=570 SteamAppId=0")),
        Some("environ:SteamGameId=570".to_string())
    );
    assert_eq!(
        steam_game_reason("wine game.exe", Some("SteamAppId=730 STEAM_COMPAT_APP_ID=570")),
        Some("environ:SteamAppId=730".to_string())
    );
    assert_eq!(
        steam_game_reason("wine game.exe", Some("STEAM_COMPAT_APP_ID=570")),
        Some("environ:STEAM_COMPAT_APP_ID=570".to_string())
    );
    assert_eq!(steam_game_reason("wine game.exe", Some("SteamAppId=480")), None);
    assert_eq!(steam_game_reason("wine game.exe", None), None);
}

#[test]
fn flags_read_in_any_case() {
    for v in ["1", "true", "TRUE", "Yes", "on", "ON"] {
        assert!(is_flag_on(v), "{v}");
    }
    for v in ["0", "false", "", " on", "no"] {
        assert!(!is_flag_on(v), "{v}");
    }
}

#[test]
fn detector_settings() {
    let d = SteamGameDetector::from_settings(None, None);
    assert!(d.is_enabled());
    let d = SteamGameDetector::from_settings(Some("off"), Some("50"));
    assert!(!d.is_enabled());
}

#[test]
fn detector_probes_at_most_once_per_interval() {
    let calls = Cell::new(0u32);
    let probe = |answer: bool| {
        let c = &calls;
        move || {
            c.set(c.get() + 1);
            answer
        }
    };
    let mut d = SteamGameDetector::from_settings(Some("1"), Some("1000"));
    assert!(d.steam_game_running(5_000, probe(true)));
    assert!(d.steam_game_running(5_500, probe(false)));
    assert!(d.steam_game_running(5_999, probe(false)));
    assert_eq!(calls.get(), 1);
    assert!(!d.steam_game_running(6_000, probe(false)));
    assert_eq!(calls.get(), 2);
}

#[test]
fn short_poll_setting_falls_back_to_default() {
    let calls = Cell::new(0u32);
    let mut d = SteamGameDetector::from_settings(None, Some("99"));
    d.steam_game_running(0, || {
        calls.set(calls.get() + 1);
        false
    });
    d.steam_game_running(1_499, || {
        calls.set(calls.get() + 1);
        false
    });
    assert_eq!(calls.get(), 1);
    d.steam_game_running(1_500, || {
        calls.set(calls.get() + 1);
        false
    });
    assert_eq!(calls.get(), 2);
}

#[test]
fn disabled_detector_never_probes() {
    let calls = Cell::new(0u32);
    let mut d = SteamGameDetector::new(false, 100);
    assert!(!d.steam_game_running(0, || {
        calls.set(calls.get() + 1);
        true
    }));
    assert_eq!(calls.get(), 0);
}

#[test]
fn pid_names_are_digits() {
    assert!(is_pid_name("1234"));
    assert!(!is_pid_name("self"));
    assert!(!is_pid_name("12a"));
}
