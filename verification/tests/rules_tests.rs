use organizarr::binary64::Binary64;
use organizarr::client::{Command, Reply, Step, TorrentClient};
use organizarr::config::{BehaviorConfig, Rule, RuleAction, RuleMatch, ServerConfig};
use organizarr::rules::{
    decide, delete_with_fallback, execute_rule, forced_limit_exceeded, just_finished, rule_label,
    rule_matches, run_steps, send_to_seeding, Decision, DeleteStep, Progress, RuleStep,
};
use organizarr::torrent::{Torrent, TorrentState};

fn number(x: f64) -> Binary64 {
    Binary64::from_bits(x.to_bits())
}

fn torrent(state: TorrentState, category: &str) -> Torrent {
    Torrent {
        state,
        category: category.to_string(),
        name: String::from("t"),
        hash: String::from("h"),
        progress: number(if state.download_finished() { 1.0 } else { 0.5 }),
        ..Default::default()
    }
}

fn server() -> ServerConfig {
    ServerConfig {
        username: String::new(),
        behaviors: BehaviorConfig::default(),
        ..Default::default()
    }
}

fn rule(actions: Vec<RuleAction>) -> Rule {
    Rule { name: None, when: RuleMatch::default(), then: actions }
}

fn sent(client: &TorrentClient, command: &Command) -> (String, Vec<(String, String)>) {
    match client.run_command(command, &vec![]) {
        Step::Send(request) => (request.url, request.fields),
        _ => panic!("nothing is sent"),
    }
}

fn fields(list: &[(&str, &str)]) -> Vec<(String, String)> {
    list.iter().map(|(k, v)| (k.to_string(), v.to_string())).collect()
}

#[test]
fn test_ignored_category_shields_torrent() {
    let mut server = server();
    server.ignore_categories = vec![String::from("tv-sonarr")];
    let t = torrent(TorrentState::Uploading, "tv-sonarr");
    assert!(matches!(
        decide(&t, Some(TorrentState::Downloading), &server),
        Decision::Ignore
    ));
}

#[test]
fn test_send_to_seeding_fires_on_finish_transition() {
    let server = server();
    let t = torrent(TorrentState::Uploading, "");
    // Transition downloading -> uploading fires the behavior.
    assert!(matches!(
        decide(&t, Some(TorrentState::Downloading), &server),
        Decision::SendToSeeding
    ));
    // First sighting (no previous state) must NOT fire.
    assert!(matches!(decide(&t, None, &server), Decision::Nothing));
    // Already-finished torrents must NOT fire again.
    assert!(matches!(
        decide(&t, Some(TorrentState::Uploading), &server),
        Decision::Nothing
    ));
}

#[test]
fn test_send_to_seeding_skips_seeding_and_mapped_categories() {
    let mut server = server();
    server.categories.insert(String::from("movies"), String::from("/dest"));
    let prev = Some(TorrentState::Downloading);

    let seeding = torrent(TorrentState::Uploading, "Seeding");
    assert!(matches!(decide(&seeding, prev, &server), Decision::Nothing));

    // Mapped category goes down the move path instead.
    let mapped = torrent(TorrentState::Uploading, "movies");
    assert!(matches!(
        decide(&mapped, prev, &server),
        Decision::MoveMapped
    ));
}

#[test]
fn test_send_to_seeding_disabled() {
    let mut server = server();
    server.behaviors.send_to_seeding.enabled = false;
    let t = torrent(TorrentState::Uploading, "");
    assert!(matches!(
        decide(&t, Some(TorrentState::Downloading), &server),
        Decision::Nothing
    ));
}

#[test]
fn test_delete_fallback_category_is_retried() {
    let server = server();
    let t = torrent(TorrentState::StoppedUpload, "Delete");
    assert!(matches!(decide(&t, None, &server), Decision::RetryDelete));
}

#[test]
fn test_errored_torrent_is_flagged() {
    let server = server();
    let t = torrent(TorrentState::Error, "");
    assert!(matches!(decide(&t, None, &server), Decision::Errored));
}

#[test]
fn test_forced_seeding_limit_time() {
    let server = server(); // default: 7d limit
    let mut t = torrent(TorrentState::ForcedUpload, "");
    t.time_active = 8 * 86_400; // 8 days
    assert!(matches!(
        decide(&t, None, &server),
        Decision::ForcedLimitExceeded
    ));
    t.time_active = 6 * 86_400; // under the limit
    assert!(matches!(decide(&t, None, &server), Decision::Nothing));
}

#[test]
fn test_forced_seeding_limit_ratio() {
    let mut server = server();
    server.behaviors.forced_seeding_limit.max_time_active = None;
    server.behaviors.forced_seeding_limit.max_ratio = Some(number(2.0));
    let mut t = torrent(TorrentState::ForcedUpload, "");
    t.ratio = number(2.5);
    assert!(matches!(
        decide(&t, None, &server),
        Decision::ForcedLimitExceeded
    ));
    t.ratio = number(1.5);
    assert!(matches!(decide(&t, None, &server), Decision::Nothing));
}

#[test]
fn test_forced_seeding_limit_disabled() {
    let mut server = server();
    server.behaviors.forced_seeding_limit.enabled = false;
    let mut t = torrent(TorrentState::ForcedUpload, "");
    t.time_active = 30 * 86_400;
    assert!(matches!(decide(&t, None, &server), Decision::Nothing));
}

#[test]
fn test_user_rule_takes_precedence_over_defaults() {
    let mut server = server();
    server.rules = vec![Rule {
        name: Some(String::from("keep errored")),
        when: RuleMatch {
            states: Some(vec![TorrentState::Error]),
            ..Default::default()
        },
        then: vec![RuleAction::Nothing],
    }];
    let t = torrent(TorrentState::Error, "");
    assert!(matches!(decide(&t, None, &server), Decision::UserRule(_)));
}

#[test]
fn test_rule_match_states_and_categories() {
    let m = RuleMatch {
        states: Some(vec![TorrentState::Uploading]),
        categories: Some(vec![String::from("music")]),
        ..Default::default()
    };
    assert!(rule_matches(
        &m,
        &torrent(TorrentState::Uploading, "music"),
        None
    ));
    assert!(!rule_matches(
        &m,
        &torrent(TorrentState::Uploading, "tv"),
        None
    ));
    assert!(!rule_matches(
        &m,
        &torrent(TorrentState::Downloading, "music"),
        None
    ));
}

#[test]
fn test_rule_match_from_states_requires_transition() {
    let m = RuleMatch {
        from_states: Some(vec![TorrentState::Downloading]),
        states: Some(vec![TorrentState::Uploading]),
        ..Default::default()
    };
    let t = torrent(TorrentState::Uploading, "");
    assert!(rule_matches(&m, &t, Some(TorrentState::Downloading)));
    assert!(!rule_matches(&m, &t, None));
    assert!(!rule_matches(&m, &t, Some(TorrentState::Uploading)));
}

#[test]
fn test_rule_match_tags_any_of() {
    let m = RuleMatch {
        tags: Some(vec![String::from("keep"), String::from("archive")]),
        ..Default::default()
    };
    let mut t = torrent(TorrentState::Uploading, "");
    t.tags = String::from("archive, other");
    assert!(rule_matches(&m, &t, None));
    t.tags = String::from("other");
    assert!(!rule_matches(&m, &t, None));
    t.tags = String::new();
    assert!(!rule_matches(&m, &t, None));
}

#[test]
fn test_rule_match_complete_and_thresholds() {
    let m = RuleMatch {
        complete: Some(true),
        min_time_active: Some(String::from("1d")),
        min_ratio: Some(number(1.0)),
        ..Default::default()
    };
    let mut t = torrent(TorrentState::Uploading, "");
    t.time_active = 2 * 86_400;
    t.ratio = number(1.5);
    assert!(rule_matches(&m, &t, None));
    t.ratio = number(0.5);
    assert!(!rule_matches(&m, &t, None));
    t.ratio = number(1.5);
    t.time_active = 3600;
    assert!(!rule_matches(&m, &t, None));
    let mut incomplete = torrent(TorrentState::Downloading, "");
    incomplete.time_active = 2 * 86_400;
    incomplete.ratio = number(1.5);
    assert!(!rule_matches(&m, &incomplete, None));
}

#[test]
fn test_empty_when_matches_everything() {
    let m = RuleMatch::default();
    assert!(rule_matches(
        &m,
        &torrent(TorrentState::Downloading, "x"),
        None
    ));
}

#[test]
fn test_delete_with_fallback_parks_torrent_when_trash_fails() {
    // The torrent's path can't be resolved/trashed, so it must be
    // parked in the fallback category for a retry on a later cycle.
    let mut server_cfg = server();
    // A path_prefix that doesn't match the torrent's path makes the
    // host-side resolution (and hence the trash attempt) fail.
    server_cfg.path_prefix = Some(String::from("/data"));
    server_cfg.root_path = Some(String::from("Z:/nonexistent"));
    let delete_cfg = server_cfg.behaviors.delete.clone();
    let client = TorrentClient::new(server_cfg);

    let mut t = torrent(TorrentState::StoppedUpload, "");
    t.hash = String::from("h1");
    t.save_path = String::from("/other/place");
    assert!(matches!(delete_with_fallback(&t, &delete_cfg, None), DeleteStep::Trash));
    let trashed = client.resolve_source_path(&t).is_ok();
    assert!(!trashed);
    let command = match delete_with_fallback(&t, &delete_cfg, Some(trashed)) {
        DeleteStep::Run(command) => command,
        _ => panic!("the torrent is not parked"),
    };
    let (url, form) = sent(&client, &command);
    assert!(url.ends_with("/api/v2/torrents/setCategory"));
    assert_eq!(form, fields(&[("hashes", "h1"), ("category", "Delete")]));
    let replies = vec![Reply::Answer { status: 200, body: String::new(), complaint: String::new() }];
    assert!(matches!(client.run_command(&command, &replies), Step::Done));
}

#[test]
fn test_delete_without_trash_removes_with_data() {
    // use_trash: false delegates deletion to qBittorrent itself
    // (deleteFiles=true honors its own trash preference).
    let server_cfg = server();
    let mut delete_cfg = server_cfg.behaviors.delete.clone();
    delete_cfg.use_trash = false;
    let client = TorrentClient::new(server_cfg);

    let mut t = torrent(TorrentState::StoppedUpload, "");
    t.hash = String::from("h1");
    let command = match delete_with_fallback(&t, &delete_cfg, None) {
        DeleteStep::Run(command) => command,
        _ => panic!("the torrent is not removed"),
    };
    let (url, form) = sent(&client, &command);
    assert!(url.ends_with("/api/v2/torrents/delete"));
    assert_eq!(form, fields(&[("hashes", "h1"), ("deleteFiles", "true")]));
    let replies = vec![Reply::Answer { status: 200, body: String::new(), complaint: String::new() }];
    assert!(matches!(client.run_command(&command, &replies), Step::Done));
}

#[test]
fn test_send_to_seeding_sets_category_and_clears_tags() {
    let server_cfg = server();
    let seeding_cfg = server_cfg.behaviors.send_to_seeding.clone();
    let client = TorrentClient::new(server_cfg);

    let mut t = torrent(TorrentState::Uploading, "");
    t.hash = String::from("h1");
    t.tags = String::from("sonarr, old");
    let commands = send_to_seeding(&t, &seeding_cfg);
    assert_eq!(commands.len(), 2);
    let (url, form) = sent(&client, &commands[0]);
    assert!(url.ends_with("/api/v2/torrents/setCategory"));
    assert_eq!(form, fields(&[("hashes", "h1"), ("category", "Seeding")]));
    let (url, form) = sent(&client, &commands[1]);
    assert!(url.ends_with("/api/v2/torrents/removeTags"));
    assert_eq!(form, fields(&[("hashes", "h1"), ("tags", "sonarr,old")]));
}

#[test]
fn test_execute_rule_applies_actions_in_order() {
    let client = TorrentClient::new(server());
    let rule = Rule {
        name: Some(String::from("archive")),
        when: RuleMatch::default(),
        then: vec![
            RuleAction::SetCategory(String::from("archive")),
            RuleAction::AddTags(vec![String::from("processed")]),
            RuleAction::Stop,
        ],
    };
    let mut t = torrent(TorrentState::Uploading, "music");
    t.hash = String::from("h1");
    let mut seen = Vec::new();
    for step in execute_rule(&t, &rule) {
        match step {
            RuleStep::Run(command) => seen.push(sent(&client, &command)),
            _ => panic!("only commands are expected"),
        }
    }
    assert_eq!(seen.len(), 3);
    assert!(seen[0].0.ends_with("/api/v2/torrents/setCategory"));
    assert_eq!(seen[0].1, fields(&[("hashes", "h1"), ("category", "archive")]));
    assert!(seen[1].0.ends_with("/api/v2/torrents/addTags"));
    assert_eq!(seen[1].1, fields(&[("hashes", "h1"), ("tags", "processed")]));
    assert!(seen[2].0.ends_with("/api/v2/torrents/stop"));
    assert_eq!(seen[2].1, fields(&[("hashes", "h1")]));
}

#[test]
fn first_matching_rule_decides() {
    let mut server = server();
    let mut never = rule(vec![RuleAction::Stop]);
    never.when.categories = Some(vec![String::from("other")]);
    let mut first = rule(vec![RuleAction::Start]);
    first.name = Some(String::from("first"));
    let mut second = rule(vec![RuleAction::Recheck]);
    second.name = Some(String::from("second"));
    server.rules = vec![never, first, second];
    match decide(&torrent(TorrentState::Uploading, "x"), None, &server) {
        Decision::UserRule(rule) => assert_eq!(rule_label(rule), "first"),
        other => panic!("{:?}", other),
    }
}

#[test]
fn ignored_category_comes_before_rules() {
    let mut server = server();
    server.rules = vec![rule(vec![RuleAction::Delete])];
    server.ignore_categories = vec![String::from("x")];
    let t = torrent(TorrentState::Uploading, "x");
    assert!(matches!(decide(&t, None, &server), Decision::Ignore));
}

#[test]
fn unnamed_rule_has_a_label() {
    assert_eq!(rule_label(&rule(vec![])), "unnamed rule");
}

#[test]
fn terminal_actions_end_the_rule() {
    let t = torrent(TorrentState::Uploading, "x");
    for (last, expected) in [
        (RuleAction::Remove, "Run(Remove { hash: \"h\", delete_files: false })"),
        (RuleAction::RemoveWithData, "Run(Remove { hash: \"h\", delete_files: true })"),
        (RuleAction::Delete, "Delete"),
        (RuleAction::MoveFiles(String::from("/d")), "MoveFiles(\"/d\")"),
    ] {
        let steps = execute_rule(&t, &rule(vec![RuleAction::Stop, last, RuleAction::Start]));
        assert_eq!(steps.len(), 2);
        assert_eq!(format!("{:?}", steps[0]), "Run(Stop { hash: \"h\" })");
        assert_eq!(format!("{:?}", steps[1]), expected);
    }
}

#[test]
fn remaining_actions_become_commands() {
    let mut t = torrent(TorrentState::Uploading, "x");
    t.tags = String::from(" a ,, b ");
    let two = vec![String::from("p"), String::from("q")];
    let steps = execute_rule(
        &t,
        &rule(vec![
            RuleAction::Nothing,
            RuleAction::AddTags(two.clone()),
            RuleAction::RemoveTags(two),
            RuleAction::ClearTags,
            RuleAction::Start,
            RuleAction::Recheck,
        ]),
    );
    let shown: Vec<String> = steps.iter().map(|s| format!("{:?}", s)).collect();
    assert_eq!(
        shown,
        vec![
            "Run(AddTags { hash: \"h\", tags: \"p,q\" })",
            "Run(RemoveTags { hash: \"h\", tags: \"p,q\" })",
            "Run(RemoveTags { hash: \"h\", tags: \"a,b\" })",
            "Run(Start { hash: \"h\" })",
            "Run(Recheck { hash: \"h\" })",
        ]
    );
}

#[test]
fn clearing_no_tags_sends_nothing() {
    let t = torrent(TorrentState::Uploading, "x");
    assert!(execute_rule(&t, &rule(vec![RuleAction::ClearTags])).is_empty());
    let mut cfg = server().behaviors.send_to_seeding;
    assert_eq!(send_to_seeding(&t, &cfg).len(), 1);
    cfg.clear_tags = false;
    let mut tagged = torrent(TorrentState::Uploading, "x");
    tagged.tags = String::from("a");
    assert_eq!(send_to_seeding(&tagged, &cfg).len(), 1);
}

#[test]
fn trashed_payload_ends_the_deletion() {
    let t = torrent(TorrentState::Uploading, "x");
    let cfg = server().behaviors.delete;
    assert!(matches!(delete_with_fallback(&t, &cfg, Some(true)), DeleteStep::Done));
}

#[test]
fn parked_torrent_is_up_for_deletion_again() {
    let server = server();
    let t = torrent(TorrentState::Uploading, "x");
    let category = match delete_with_fallback(&t, &server.behaviors.delete, Some(false)) {
        DeleteStep::Run(Command::SetCategory { category, create, .. }) => {
            assert!(create);
            category
        }
        other => panic!("{:?}", other),
    };
    let parked = torrent(TorrentState::Error, &category);
    assert!(matches!(decide(&parked, None, &server), Decision::RetryDelete));
}

#[test]
fn invalid_durations_never_match_and_never_limit() {
    let mut m = RuleMatch::default();
    m.min_time_active = Some(String::from("soon"));
    let mut t = torrent(TorrentState::ForcedUpload, "");
    t.time_active = u64::MAX;
    assert!(!rule_matches(&m, &t, None));
    let mut cfg = server().behaviors.forced_seeding_limit;
    cfg.max_time_active = Some(String::from("soon"));
    assert!(!forced_limit_exceeded(&t, &cfg));
}

#[test]
fn limits_are_sharp() {
    let mut cfg = server().behaviors.forced_seeding_limit;
    let mut t = torrent(TorrentState::ForcedUpload, "");
    t.time_active = 7 * 86_400;
    assert!(!forced_limit_exceeded(&t, &cfg));
    t.time_active = 7 * 86_400 + 1;
    assert!(forced_limit_exceeded(&t, &cfg));
    cfg.max_time_active = None;
    cfg.max_ratio = Some(number(2.0));
    t.ratio = number(2.0);
    assert!(!forced_limit_exceeded(&t, &cfg));
    t.ratio = number(2.0000000000000004);
    assert!(forced_limit_exceeded(&t, &cfg));
    t.ratio = number(f64::NAN);
    assert!(!forced_limit_exceeded(&t, &cfg));
    let mut m = RuleMatch::default();
    m.min_ratio = Some(number(2.0));
    assert!(rule_matches(&m, &t, None));
    t.ratio = number(2.0);
    assert!(rule_matches(&m, &t, None));
    m = RuleMatch::default();
    m.min_time_active = Some(String::from("1d"));
    t.time_active = 86_400;
    assert!(rule_matches(&m, &t, None));
    t.time_active = 86_399;
    assert!(!rule_matches(&m, &t, None));
}

#[test]
fn finishing_needs_a_complete_payload() {
    let mut t = torrent(TorrentState::Uploading, "");
    assert!(just_finished(&t, Some(TorrentState::StalledDownload)));
    assert!(!just_finished(&t, Some(TorrentState::StoppedUpload)));
    assert!(!just_finished(&t, None));
    t.progress = number(0.999);
    assert!(!just_finished(&t, Some(TorrentState::StalledDownload)));
}

#[test]
fn incomplete_mapped_torrent_waits() {
    let mut server = server();
    server.categories.insert(String::from("movies"), String::from("/dest"));
    let t = torrent(TorrentState::Downloading, "movies");
    assert!(matches!(decide(&t, None, &server), Decision::Nothing));
    let mut forced = torrent(TorrentState::ForcedUpload, "movies");
    forced.time_active = 30 * 86_400;
    assert!(matches!(decide(&forced, None, &server), Decision::MoveMapped));
}

#[test]
fn missing_files_are_errored_even_in_a_mapped_category() {
    let mut server = server();
    server.categories.insert(String::from("movies"), String::from("/dest"));
    let t = torrent(TorrentState::MissingFiles, "movies");
    assert!(matches!(decide(&t, None, &server), Decision::Errored));
}

#[test]
fn more_conditions_match_less() {
    let t = torrent(TorrentState::Uploading, "music");
    let wide = RuleMatch { states: Some(vec![TorrentState::Uploading]), ..Default::default() };
    assert!(rule_matches(&wide, &t, None));
    let narrow = RuleMatch { complete: Some(false), ..wide };
    assert!(!rule_matches(&narrow, &t, None));
}

#[test]
fn failed_step_ends_the_sequence() {
    let failed = || Some(String::from("no route"));
    assert_eq!(run_steps(0, &vec![]), Progress::Done);
    assert_eq!(run_steps(3, &vec![]), Progress::Next(0));
    assert_eq!(run_steps(3, &vec![None]), Progress::Next(1));
    assert_eq!(
        run_steps(3, &vec![None, failed()]),
        Progress::Failed { at: 1, error: String::from("no route") }
    );
    assert_eq!(
        run_steps(3, &vec![None, failed(), None, Some(String::from("later"))]),
        Progress::Failed { at: 1, error: String::from("no route") }
    );
    assert_eq!(run_steps(3, &vec![None, None, None]), Progress::Done);
    assert_eq!(run_steps(3, &vec![None, None, None, failed()]), Progress::Done);
}

#[test]
fn tags_are_left_alone_when_the_category_cannot_be_set() {
    let mut t = torrent(TorrentState::Uploading, "");
    t.tags = String::from("a");
    let commands = send_to_seeding(&t, &server().behaviors.send_to_seeding);
    assert_eq!(commands.len(), 2);
    assert_eq!(
        run_steps(commands.len(), &vec![Some(String::from("denied"))]),
        Progress::Failed { at: 0, error: String::from("denied") }
    );
    assert_eq!(run_steps(commands.len(), &vec![None]), Progress::Next(1));
}

#[test]
fn failed_action_ends_the_rule() {
    let t = torrent(TorrentState::Uploading, "x");
    let steps = execute_rule(
        &t,
        &rule(vec![RuleAction::Stop, RuleAction::Recheck, RuleAction::RemoveWithData]),
    );
    let results = vec![None, Some(String::from("denied"))];
    assert!(matches!(run_steps(steps.len(), &results), Progress::Failed { at: 1, .. }));
}
