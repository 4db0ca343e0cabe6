use organizarr::binary64::Binary64;
use organizarr::torrent::{StateTracker, Torrent, TorrentState};

fn number(x: f64) -> Binary64 {
    Binary64::from_bits(x.to_bits())
}

fn torrent(hash: &str, state: TorrentState) -> Torrent {
    Torrent {
        hash: hash.to_string(),
        name: format!("name of {}", hash),
        state,
        ..Default::default()
    }
}

#[test]
fn states_have_the_names_of_both_versions() {
    let names = [
        ("error", TorrentState::Error),
        ("missingFiles", TorrentState::MissingFiles),
        ("uploading", TorrentState::Uploading),
        ("pausedUP", TorrentState::StoppedUpload),
        ("stoppedUP", TorrentState::StoppedUpload),
        ("queuedUP", TorrentState::QueuedUpload),
        ("stalledUP", TorrentState::StalledUpload),
        ("checkingUP", TorrentState::CheckingUpload),
        ("forcedUP", TorrentState::ForcedUpload),
        ("allocating", TorrentState::Allocating),
        ("downloading", TorrentState::Downloading),
        ("metaDL", TorrentState::MetadataDownload),
        ("forcedMetaDL", TorrentState::ForcedMetadataDownload),
        ("pausedDL", TorrentState::StoppedDownload),
        ("stoppedDL", TorrentState::StoppedDownload),
        ("queuedDL", TorrentState::QueuedDownload),
        ("stalledDL", TorrentState::StalledDownload),
        ("checkingDL", TorrentState::CheckingDownload),
        ("forcedDL", TorrentState::ForcedDownload),
        ("checkingResumeData", TorrentState::CheckingResumeData),
        ("moving", TorrentState::Moving),
        ("unknown", TorrentState::Unknown),
        ("Uploading", TorrentState::Unknown),
    ];
    for (name, state) in names {
        assert_eq!(TorrentState::from_name(name), state);
        assert_eq!(TorrentState::from_name(state.name()), state);
    }
}

#[test]
fn finished_and_errored_states() {
    assert!(TorrentState::StalledUpload.download_finished());
    assert!(TorrentState::CheckingUpload.download_finished());
    assert!(!TorrentState::StalledDownload.download_finished());
    assert!(!TorrentState::Moving.download_finished());
    assert!(TorrentState::Error.is_errored());
    assert!(TorrentState::MissingFiles.is_errored());
    assert!(!TorrentState::Unknown.is_errored());
}

#[test]
fn tags_are_split_at_commas() {
    let mut t = torrent("a", TorrentState::Unknown);
    assert!(t.tag_list().is_empty());
    t.tags = String::from(" , sonarr,old tag ,");
    assert_eq!(t.tag_list(), vec!["sonarr", "old tag"]);
}

#[test]
fn completeness_is_exact() {
    let mut t = torrent("a", TorrentState::StalledUpload);
    assert!(!t.is_download_complete());
    t.progress = number(0.9999999999);
    assert!(!t.is_download_complete());
    assert!(!t.eligible_for_move());
    t.progress = number(1.0);
    assert!(t.is_download_complete());
    assert!(t.eligible_for_move());
    t.state = TorrentState::Downloading;
    assert!(!t.eligible_for_move());
    t.time_active = 17;
    assert_eq!(t.active_duration(), 17);
}

#[test]
fn binary64_orders_like_the_machine() {
    let values = [
        f64::NEG_INFINITY, -2.5, -1.0, -0.0, 0.0, 5e-324, 0.1, 1.0, 2.5, f64::MAX,
        f64::INFINITY, f64::NAN,
    ];
    for a in values {
        for b in values {
            assert_eq!(number(a).at_least(&number(b)), a >= b);
            assert_eq!(number(a).below(&number(b)), a < b);
        }
    }
}

#[test]
fn tracker_remembers_one_cycle() {
    let mut tracker = StateTracker::default();
    assert!(tracker.observe(&vec![torrent("a", TorrentState::Downloading)]).is_empty());
    assert_eq!(tracker.previous_state("a"), None);
    let changed = tracker.observe(&vec![
        torrent("b", TorrentState::Moving),
        torrent("a", TorrentState::Uploading),
    ]);
    assert_eq!(changed.len(), 1);
    assert_eq!(changed[0].name, "name of a");
    assert_eq!(changed[0].from, TorrentState::Downloading);
    assert_eq!(changed[0].to, TorrentState::Uploading);
    assert_eq!(tracker.previous_state("a"), Some(TorrentState::Downloading));
    assert_eq!(tracker.previous_state("b"), None);
    assert!(tracker.observe(&vec![torrent("a", TorrentState::Uploading)]).is_empty());
    assert_eq!(tracker.previous_state("a"), Some(TorrentState::Uploading));
    assert_eq!(tracker.previous_state("b"), Some(TorrentState::Moving));
}

#[test]
fn tracker_forgets_torrents_that_are_gone() {
    let mut tracker = StateTracker::default();
    tracker.observe(&vec![torrent("a", TorrentState::Downloading)]);
    tracker.observe(&vec![]);
    assert_eq!(tracker.previous_state("a"), Some(TorrentState::Downloading));
    let changed = tracker.observe(&vec![torrent("a", TorrentState::Uploading)]);
    assert!(changed.is_empty());
    assert_eq!(tracker.previous_state("a"), None);
}

#[test]
fn later_entry_of_a_hash_counts() {
    let mut tracker = StateTracker::default();
    tracker.observe(&vec![
        torrent("a", TorrentState::Downloading),
        torrent("a", TorrentState::Moving),
    ]);
    tracker.observe(&vec![]);
    assert_eq!(tracker.previous_state("a"), Some(TorrentState::Moving));
}

#[test]
fn mistyped_states_are_not_known() {
    assert_eq!(TorrentState::known("stalledUP"), Some(TorrentState::StalledUpload));
    assert_eq!(TorrentState::known("unknown"), Some(TorrentState::Unknown));
    assert_eq!(TorrentState::known("stalledUp"), None);
    assert_eq!(TorrentState::known(""), None);
}
