use organizarr::binary64::Binary64;
use organizarr::config::{Config, Rule, RuleAction, RuleMatch, ServerConfig};
use organizarr::cycle::{
    fresh_trackers, next_phase, plan_job, poll_delay, process_all_servers, process_single_server,
    Job, Outcome, Phase,
};
use organizarr::rules::{Decision, RuleStep};
use organizarr::torrent::{StateTracker, Torrent, TorrentState};

fn torrent(hash: &str, state: TorrentState) -> Torrent {
    Torrent {
        hash: hash.to_string(),
        name: hash.to_string(),
        progress: Binary64::from_bits(1.0f64.to_bits()),
        state,
        ..Default::default()
    }
}

fn outcome(url: &str, error: Option<&str>) -> Outcome {
    Outcome { qbit_url: url.to_string(), error: error.map(|e| e.to_string()) }
}

#[test]
fn zero_delay_is_raised_to_a_second() {
    let mut config = Config::default();
    assert_eq!(poll_delay(&config), 5);
    config.rate_limit_delay = 0;
    assert_eq!(poll_delay(&config), 1);
    config.rate_limit_delay = u64::MAX;
    assert_eq!(poll_delay(&config), u64::MAX);
}

#[test]
fn failures_are_summed_up() {
    assert_eq!(process_all_servers(&vec![]), Ok(()));
    assert_eq!(process_all_servers(&vec![outcome("http://a", None)]), Ok(()));
    let outcomes = vec![
        outcome("http://a", Some("no route")),
        outcome("http://b", None),
        outcome("http://c", Some("denied")),
    ];
    assert_eq!(
        process_all_servers(&outcomes),
        Err(String::from("Encountered 2 error(s): http://a: no route; http://c: denied"))
    );
}

#[test]
fn count_of_failures_is_decimal() {
    let outcomes = (0..12).map(|_| outcome("u", Some("e"))).collect::<Vec<_>>();
    let error = process_all_servers(&outcomes).unwrap_err();
    assert!(error.starts_with("Encountered 12 error(s): u: e; u: e; "));
}

#[test]
fn first_cycle_leaves_existing_torrents_alone() {
    let server = ServerConfig::default();
    let mut tracker = StateTracker::default();
    let listing = vec![torrent("a", TorrentState::Downloading), torrent("b", TorrentState::Uploading)];
    let first = process_single_server(&server, &listing, &mut tracker);
    assert!(first.transitions.is_empty());
    assert!(matches!(first.decisions[..], [Decision::Nothing, Decision::Nothing]));

    let listing = vec![torrent("a", TorrentState::Uploading), torrent("b", TorrentState::Uploading)];
    let second = process_single_server(&server, &listing, &mut tracker);
    assert_eq!(second.transitions.len(), 1);
    assert!(matches!(second.decisions[..], [Decision::SendToSeeding, Decision::Nothing]));

    let third = process_single_server(&server, &listing, &mut tracker);
    assert!(third.transitions.is_empty());
    assert!(matches!(third.decisions[..], [Decision::Nothing, Decision::Nothing]));
}

#[test]
fn decisions_become_jobs() {
    let server = ServerConfig::default();
    let mut t = torrent("h", TorrentState::Uploading);
    t.tags = String::from("x");
    for decision in [Decision::Ignore, Decision::Nothing] {
        match plan_job(&t, &decision, &server) {
            Job::Steps(steps) => assert!(steps.is_empty()),
            other => panic!("{:?}", other),
        }
    }
    assert!(matches!(plan_job(&t, &Decision::Errored, &server), Job::Report));
    assert!(matches!(plan_job(&t, &Decision::MoveMapped, &server), Job::Move));
    for decision in [Decision::RetryDelete, Decision::ForcedLimitExceeded] {
        match plan_job(&t, &decision, &server) {
            Job::Steps(steps) => assert!(matches!(steps[..], [RuleStep::Delete])),
            other => panic!("{:?}", other),
        }
    }
    match plan_job(&t, &Decision::SendToSeeding, &server) {
        Job::Steps(steps) => assert_eq!(
            format!("{:?}", steps),
            "[Run(SetCategory { hash: \"h\", category: \"Seeding\", create: true }), \
             Run(RemoveTags { hash: \"h\", tags: \"x\" })]"
        ),
        other => panic!("{:?}", other),
    }
    let rule = Rule {
        name: None,
        when: RuleMatch::default(),
        then: vec![RuleAction::Stop, RuleAction::Remove],
    };
    match plan_job(&t, &Decision::UserRule(&rule), &server) {
        Job::Steps(steps) => assert_eq!(steps.len(), 2),
        other => panic!("{:?}", other),
    }
}

#[test]
fn work_and_logout_cannot_fail_a_cycle() {
    assert_eq!(next_phase(Phase::Login, true), Phase::List);
    assert_eq!(next_phase(Phase::Login, false), Phase::Failed);
    assert_eq!(next_phase(Phase::List, true), Phase::Work);
    assert_eq!(next_phase(Phase::List, false), Phase::Failed);
    for succeeded in [true, false] {
        assert_eq!(next_phase(Phase::Work, succeeded), Phase::Logout);
        assert_eq!(next_phase(Phase::Logout, succeeded), Phase::Over);
        assert_eq!(next_phase(Phase::Over, succeeded), Phase::Over);
        assert_eq!(next_phase(Phase::Failed, succeeded), Phase::Failed);
    }
}

#[test]
fn each_server_has_a_tracker() {
    let trackers = fresh_trackers(3);
    assert_eq!(trackers.len(), 3);
    assert!(trackers.iter().all(|t| t.current.is_empty() && t.previous.is_empty()));
    assert!(fresh_trackers(0).is_empty());
}
