use organizarr::config::{
    default_after_move, default_log_file, default_max_log_file_size, default_rate_limit_delay, default_refresh,
    parse_duration, AfterMove, ArrConfig, BehaviorConfig, Config, RuleMatch, ServerConfig,
    AUTO_DESTINATION, CONFIG_FILE,
};

#[test]
fn test_default_config() {
    let config = Config::default();
    assert!(config.servers.is_empty());
    assert_eq!(config.rate_limit_delay, 5);
    assert_eq!(config.log_file, "qbittorrent-mover.log");
    assert_eq!(config.max_log_file_size, "10M");
}

#[test]
fn test_default_server_config() {
    let server_config = ServerConfig::default();
    assert_eq!(server_config.qbit_url, "http://localhost:8080");
    assert_eq!(server_config.username, "admin");
    assert_eq!(server_config.password, "adminadmin");
    assert!(server_config.categories.is_empty());
}

#[test]
fn default_server_moves_and_removes() {
    let server = ServerConfig::default();
    assert_eq!(server.after_move, AfterMove::Remove);
    assert_eq!(server.root_path, None);
    assert_eq!(server.path_prefix, None);
    assert!(server.rules.is_empty());
    assert!(server.ignore_categories.is_empty());
    assert!(server.arr.is_empty());
}

#[test]
fn default_values_have_their_functions() {
    assert_eq!(default_rate_limit_delay(), 5);
    assert_eq!(default_log_file(), "qbittorrent-mover.log");
    assert_eq!(default_max_log_file_size(), "10M");
    assert_eq!(default_refresh(), "60s");
    assert_eq!(default_after_move(), AfterMove::KeepSeeding);
    assert_eq!(CONFIG_FILE, "config.yaml");
    assert_eq!(AUTO_DESTINATION, "auto");
}

#[test]
fn default_behaviors() {
    let b = BehaviorConfig::default();
    assert!(b.delete.use_trash);
    assert_eq!(b.delete.fallback_category, "Delete");
    assert!(b.forced_seeding_limit.enabled);
    assert_eq!(b.forced_seeding_limit.max_time_active.as_deref(), Some("7d"));
    assert!(b.forced_seeding_limit.max_ratio.is_none());
    assert!(b.send_to_seeding.enabled);
    assert_eq!(b.send_to_seeding.category, "Seeding");
    assert!(b.send_to_seeding.create_category);
    assert!(b.send_to_seeding.clear_tags);
    let m = RuleMatch::default();
    assert!(m.states.is_none() && m.from_states.is_none() && m.categories.is_none());
    assert!(m.tags.is_none() && m.complete.is_none());
    assert!(m.min_time_active.is_none() && m.min_ratio.is_none());
}

#[test]
fn durations() {
    assert_eq!(parse_duration("60s"), Ok(60));
    assert_eq!(parse_duration("0s"), Ok(0));
    assert_eq!(parse_duration("5m"), Ok(300));
    assert_eq!(parse_duration("1h"), Ok(3600));
    assert_eq!(parse_duration("7d"), Ok(604_800));
    assert_eq!(parse_duration("7D"), Ok(604_800));
    assert_eq!(parse_duration(" 7 d "), Ok(604_800));
    assert_eq!(parse_duration("18446744073709551615s"), Ok(u64::MAX));
}

#[test]
fn texts_that_are_no_durations() {
    for text in ["", "7", "d", "7w", "-1s", "1.5h", "seven days", "18446744073709551615d"] {
        let e = parse_duration(text).unwrap_err();
        assert_eq!(e.duration, text);
    }
}

fn arr(name: &str, refresh: &str) -> ArrConfig {
    ArrConfig {
        name: String::from(name),
        url: String::from("http://sonarr:8989"),
        api_key: String::from("key"),
        host: None,
        refresh: String::from(refresh),
    }
}

#[test]
fn arr_label_falls_back_to_url() {
    assert_eq!(arr("sonarr", "60s").label(), "sonarr");
    assert_eq!(arr("", "60s").label(), "http://sonarr:8989");
}

#[test]
fn refresh_interval_falls_back_to_a_minute() {
    assert_eq!(arr("", "1h").refresh_interval(), 3600);
    assert_eq!(arr("", "0s").refresh_interval(), 0);
    assert_eq!(arr("", "soon").refresh_interval(), 60);
}
