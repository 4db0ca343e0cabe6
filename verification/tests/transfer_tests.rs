use organizarr::client::{ClientError, Command, TorrentClient};
use organizarr::config::{AfterMove, ServerConfig};
use organizarr::name_map::NameMap;
use organizarr::paths::PathStyle;
use organizarr::torrent::Torrent;
use organizarr::transfer::{
    advance_move, flow_command, move_path, move_torrent_files_to, FlowEvent, FlowPhase, FlowStep, MoveFailure,
    MoveOutcome, MovePhase, MovePlan, MoveStep, SETTLE_MILLIS,
};
use std::path::PathBuf;

fn bypass_auth_config(url: String) -> ServerConfig {
    ServerConfig {
        qbit_url: url,
        username: String::new(),
        password: String::new(),
        ..Default::default()
    }
}

fn no_paths() -> NameMap<String> {
    NameMap::new()
}

/// Runs a move with the given answers.
fn run_move(answers: &[bool]) -> MoveStep {
    let mut phase = MovePhase::CheckSource;
    for (i, yes) in answers.iter().enumerate() {
        match advance_move(phase, *yes) {
            MoveStep::Continue(next) => phase = next,
            ended => {
                assert_eq!(i + 1, answers.len());
                return ended;
            }
        }
    }
    MoveStep::Continue(phase)
}

#[test]
fn test_resolve_source_path_with_prefix_mapping() {
    let mut server_config = bypass_auth_config("http://127.0.0.1:1".to_string());
    server_config.path_prefix = Some("/downloads".to_string());
    server_config.root_path = Some("/mnt/seedbox".to_string());
    let client = TorrentClient::new(server_config);

    let torrent = Torrent {
        save_path: String::from("/downloads/movies"),
        name: String::from("film.mkv"),
        category: String::from("movies"),
        hash: String::from("h"),
        content_path: Some(String::from("/downloads/movies/film.mkv")),
        ..Default::default()
    };
    let resolved = client.resolve_source_path(&torrent).unwrap();
    assert_eq!(
        PathBuf::from(resolved),
        PathBuf::from("/mnt/seedbox")
            .join("movies")
            .join("film.mkv")
    );
}

#[test]
fn test_resolve_source_path_docker_container_to_windows_host() {
    let mut server_config = bypass_auth_config("http://127.0.0.1:1".to_string());
    server_config.path_prefix = Some("/data".to_string());
    server_config.root_path = Some(r"G:\data\torrents".to_string());
    let client = TorrentClient::new(server_config);

    let torrent = Torrent {
        save_path: String::from("/data/Anime"),
        name: String::from("Some Show S01"),
        category: String::from("anime"),
        hash: String::from("h"),
        content_path: Some(String::from("/data/Anime/Some Show S01")),
        ..Default::default()
    };
    let resolved = client.resolve_source_path(&torrent).unwrap();
    assert_eq!(
        PathBuf::from(resolved),
        PathBuf::from(r"G:\data\torrents")
            .join("Anime")
            .join("Some Show S01")
    );

    // Same mapping must hold when content_path is unavailable and the
    // path is derived from save_path + name instead.
    let torrent_no_content_path = Torrent {
        content_path: None,
        ..torrent
    };
    let resolved = client.resolve_source_path(&torrent_no_content_path).unwrap();
    assert_eq!(
        PathBuf::from(resolved),
        PathBuf::from(r"G:\data\torrents")
            .join("Anime")
            .join("Some Show S01")
    );
}

#[test]
fn test_resolve_source_path_prefix_trailing_slash() {
    let mut server_config = bypass_auth_config("http://127.0.0.1:1".to_string());
    server_config.path_prefix = Some("/data/".to_string());
    server_config.root_path = Some(r"G:\data\torrents".to_string());
    let client = TorrentClient::new(server_config);

    let torrent = Torrent {
        save_path: String::from("/data/Anime"),
        name: String::from("x"),
        category: String::from("anime"),
        hash: String::from("h"),
        content_path: Some(String::from("/data/Anime/x")),
        ..Default::default()
    };
    let resolved = client.resolve_source_path(&torrent).unwrap();
    assert_eq!(
        PathBuf::from(resolved),
        PathBuf::from(r"G:\data\torrents").join("Anime").join("x")
    );
}

#[test]
fn test_unmapped_category_is_skipped() {
    let client = TorrentClient::new(bypass_auth_config("http://127.0.0.1:1".to_string()));
    let torrent = Torrent {
        save_path: String::from("/nonexistent"),
        name: String::from("x"),
        category: String::from("unmapped"),
        hash: String::from("h"),
        content_path: None,
        ..Default::default()
    };
    // No categories configured: must be a no-op, not an error.
    let plan = client.move_and_clean_torrent_files(&torrent, &no_paths());
    assert!(matches!(plan, MovePlan::Skip));
}

#[test]
fn test_move_path_reports_already_moved() {
    let job = move_path(PathStyle::Unix, "/tmp/gone/file.bin", "/tmp/dest").unwrap();
    assert_eq!(job.dest, "/tmp/dest/file.bin");
    // The source is gone and the destination is there.
    assert_eq!(run_move(&[false, true]), MoveStep::Finished(MoveOutcome::AlreadyMoved));
}

#[test]
fn test_move_path_refuses_overwrite() {
    let job = move_path(PathStyle::Unix, "/tmp/file.bin", "/tmp/dest").unwrap();
    assert_eq!((job.src.as_str(), job.dest.as_str()), ("/tmp/file.bin", "/tmp/dest/file.bin"));
    // Source and destination are both there; the source must be left intact.
    assert_eq!(
        run_move(&[true, true, true]),
        MoveStep::Failed(MoveFailure::DestinationExists)
    );
    for answers in [vec![], vec![true], vec![true, true]] {
        let phase = run_move(&answers);
        assert!(matches!(
            phase,
            MoveStep::Continue(
                MovePhase::CheckSource | MovePhase::CreateDirectory | MovePhase::CheckDestination
            )
        ));
    }
}

#[test]
fn test_move_and_clean_torrent_files() {
    let torrent = Torrent {
        save_path: String::from("/tmp/src"),
        name: String::from("test_torrent"),
        category: String::from("test_category"),
        hash: String::from("test_hash"),
        content_path: None,
        ..Default::default()
    };
    let mut server_config = bypass_auth_config("http://127.0.0.1:1".to_string());
    server_config.categories.insert(torrent.category.clone(), String::from("/tmp/dest"));
    let client = TorrentClient::new(server_config);
    let (src, dest_dir) = match client.move_and_clean_torrent_files(&torrent, &no_paths()) {
        MovePlan::HostMove { src, dest_dir } => (src, dest_dir),
        other => panic!("{:?}", other),
    };
    assert_eq!(src, "/tmp/src/test_torrent");
    let job = move_path(PathStyle::Unix, &src, &dest_dir).unwrap();
    assert_eq!(job.src, "/tmp/src/test_torrent");
    assert_eq!(job.dest_dir, "/tmp/dest");
    assert_eq!(job.dest, "/tmp/dest/test_torrent");
    // Stopped, settled, moved by a rename, removed.
    assert_eq!(
        run_move(&[true, true, false, true]),
        MoveStep::Finished(MoveOutcome::Moved)
    );
    assert_eq!(
        move_torrent_files_to(FlowPhase::Stopping, FlowEvent::Succeeded),
        FlowStep::Continue(FlowPhase::Settling)
    );
    assert_eq!(
        move_torrent_files_to(FlowPhase::Settling, FlowEvent::Succeeded),
        FlowStep::Continue(FlowPhase::Moving)
    );
    assert_eq!(
        move_torrent_files_to(FlowPhase::Moving, FlowEvent::Moved(MoveOutcome::Moved)),
        FlowStep::Continue(FlowPhase::Removing(MoveOutcome::Moved))
    );
    assert_eq!(
        move_torrent_files_to(FlowPhase::Removing(MoveOutcome::Moved), FlowEvent::Succeeded),
        FlowStep::Finished(MoveOutcome::Moved)
    );
}

#[test]
fn test_already_moved_torrent_is_cleaned_up() {
    // A previous cycle moved the files but failed to remove the torrent.
    let outcome = match run_move(&[false, true]) {
        MoveStep::Finished(outcome) => outcome,
        other => panic!("{:?}", other),
    };
    let removing = match move_torrent_files_to(FlowPhase::Moving, FlowEvent::Moved(outcome)) {
        FlowStep::Continue(phase) => phase,
        other => panic!("{:?}", other),
    };
    assert_eq!(removing, FlowPhase::Removing(MoveOutcome::AlreadyMoved));
    assert_eq!(
        move_torrent_files_to(removing, FlowEvent::Succeeded),
        FlowStep::Finished(MoveOutcome::AlreadyMoved)
    );
}

#[test]
fn test_move_directory_is_not_nested() {
    let job = move_path(PathStyle::Unix, "/tmp/src/season_pack", "/tmp/dest").unwrap();
    assert_eq!(job.dest, "/tmp/dest/season_pack");
    assert_eq!(
        run_move(&[true, true, false, false, false, true, true, true]),
        MoveStep::Finished(MoveOutcome::Moved)
    );
    assert_eq!(
        run_move(&[true, true, false, false, false]),
        MoveStep::Continue(MovePhase::CheckDirectory)
    );
}

#[test]
fn every_failure_of_a_move() {
    let cases = [
        (vec![false, false], MoveFailure::SourceMissing),
        (vec![true, false], MoveFailure::DestinationNotCreated),
        (vec![true, true, true], MoveFailure::DestinationExists),
        (vec![true, true, false, false, true, false], MoveFailure::CopyFailed),
        (vec![true, true, false, false, true, true, false], MoveFailure::SourceNotRemoved),
        (vec![true, true, false, false, false, false], MoveFailure::NotFileOrDirectory),
        (vec![true, true, false, false, false, true, false], MoveFailure::CopyFailed),
        (
            vec![true, true, false, false, false, true, true, false],
            MoveFailure::SourceNotRemoved,
        ),
    ];
    for (answers, failure) in cases {
        assert_eq!(run_move(&answers), MoveStep::Failed(failure));
    }
    let copied = run_move(&[true, true, false, false, true, true, true]);
    assert_eq!(copied, MoveStep::Finished(MoveOutcome::Moved));
}

#[test]
fn stop_failure_does_not_keep_the_payload() {
    assert_eq!(
        move_torrent_files_to(FlowPhase::Stopping, FlowEvent::Failed),
        FlowStep::Continue(FlowPhase::Moving)
    );
    assert_eq!(
        move_torrent_files_to(FlowPhase::Moving, FlowEvent::Failed),
        FlowStep::MoveFailed
    );
    assert_eq!(
        move_torrent_files_to(FlowPhase::Removing(MoveOutcome::Moved), FlowEvent::Failed),
        FlowStep::RemovalFailed(MoveOutcome::Moved)
    );
    assert_eq!(SETTLE_MILLIS, 500);
}

#[test]
fn source_without_a_name_cannot_be_moved() {
    assert!(move_path(PathStyle::Unix, "/", "/dest").is_none());
    assert!(move_path(PathStyle::Unix, "", "/dest").is_none());
    assert!(move_path(PathStyle::Unix, "/a/..", "/dest").is_none());
    assert_eq!(move_path(PathStyle::Unix, "/a/b/", "dest").unwrap().dest, "dest/b");
}

#[test]
fn path_outside_of_the_prefix_is_refused() {
    let mut server_config = bypass_auth_config("http://127.0.0.1:1".to_string());
    server_config.path_prefix = Some("/data".to_string());
    server_config.categories.insert(String::from("tv"), String::from("/lib"));
    let client = TorrentClient::new(server_config);
    // A shared beginning is no prefix unless whole components agree.
    let torrent = Torrent {
        content_path: Some(String::from("/database/x")),
        category: String::from("tv"),
        ..Default::default()
    };
    let expected = ClientError::PathOutsidePrefix {
        path: String::from("/database/x"),
        prefix: String::from("/data"),
    };
    assert_eq!(client.resolve_source_path(&torrent), Err(expected.clone()));
    assert_eq!(
        expected.message(),
        "Torrent path \"/database/x\" does not start with configured path_prefix \"/data\""
    );
    match client.move_and_clean_torrent_files(&torrent, &no_paths()) {
        MovePlan::Refuse(e) => assert_eq!(e, expected),
        other => panic!("{:?}", other),
    }
}

#[test]
fn content_path_wins_over_save_path_and_name() {
    let client = TorrentClient::new(bypass_auth_config("http://127.0.0.1:1".to_string()));
    let mut torrent = Torrent {
        save_path: String::from("/a"),
        name: String::from("old"),
        content_path: Some(String::from("/a/new")),
        ..Default::default()
    };
    assert_eq!(client.resolve_source_path(&torrent).unwrap(), "/a/new");
    torrent.content_path = Some(String::new());
    assert_eq!(client.resolve_source_path(&torrent).unwrap(), "/a/old");
}

#[test]
fn auto_destination_is_the_save_path() {
    let mut server_config = bypass_auth_config("http://127.0.0.1:1".to_string());
    server_config.after_move = AfterMove::KeepSeeding;
    server_config.categories.insert(String::from("anime"), String::from("auto"));
    let client = TorrentClient::new(server_config);
    let torrent = Torrent {
        save_path: String::from("/data/Anime"),
        name: String::from("Some Show S01"),
        category: String::from("anime"),
        hash: String::from("autohash"),
        content_path: Some(String::from("/data/Anime/Some Show S01")),
        ..Default::default()
    };
    let mut save_paths: NameMap<String> = NameMap::new();
    save_paths.insert(String::from("anime"), String::from("/media/anime"));
    match client.move_and_clean_torrent_files(&torrent, &save_paths) {
        MovePlan::Relocate(command) => assert_eq!(
            command,
            Command::SetLocation {
                hash: String::from("autohash"),
                location: String::from("/media/anime"),
            }
        ),
        other => panic!("{:?}", other),
    }
    match client.move_and_clean_torrent_files(&torrent, &no_paths()) {
        MovePlan::Refuse(e) => {
            assert_eq!(e, ClientError::NoSavePath { category: String::from("anime") });
            assert_eq!(e.message(), "qBittorrent has no save path for category 'anime'");
        }
        other => panic!("{:?}", other),
    }
}

#[test]
fn move_flow_keeps_the_files() {
    let torrent = Torrent { hash: String::from("h"), ..Default::default() };
    assert_eq!(
        flow_command(FlowPhase::Stopping, &torrent),
        Some(Command::Stop { hash: String::from("h") })
    );
    assert_eq!(
        flow_command(FlowPhase::Removing(MoveOutcome::Moved), &torrent),
        Some(Command::Remove { hash: String::from("h"), delete_files: false })
    );
    assert_eq!(flow_command(FlowPhase::Settling, &torrent), None);
    assert_eq!(flow_command(FlowPhase::Moving, &torrent), None);
}

#[test]
fn trash_takes_the_local_payload() {
    let mut server_config = bypass_auth_config("http://127.0.0.1:1".to_string());
    server_config.path_prefix = Some("/data".to_string());
    server_config.root_path = Some("/mnt".to_string());
    let client = TorrentClient::new(server_config);
    let mut torrent = Torrent {
        hash: String::from("h"),
        content_path: Some(String::from("/data/x")),
        ..Default::default()
    };
    let plan = client.delete_torrent_to_trash(&torrent, false).unwrap();
    assert_eq!(plan.path.as_deref(), Some("/mnt/x"));
    assert_eq!(
        plan.removal,
        Command::Remove { hash: String::from("h"), delete_files: false }
    );
    torrent.content_path = Some(String::from("/other/x"));
    assert!(client.delete_torrent_to_trash(&torrent, false).is_err());
    // A payload that is in the trash already leaves only the removal.
    let plan = client.delete_torrent_to_trash(&torrent, true).unwrap();
    assert_eq!(plan.path, None);
    assert_eq!(
        plan.removal,
        Command::Remove { hash: String::from("h"), delete_files: false }
    );
}

#[test]
fn only_auto_destinations_need_save_paths() {
    let mut server_config = bypass_auth_config("http://127.0.0.1:1".to_string());
    server_config.categories.insert(String::from("anime"), String::from("auto"));
    server_config.categories.insert(String::from("tv"), String::from("/tv"));
    let client = TorrentClient::new(server_config);
    for (category, needed) in [("anime", true), ("tv", false), ("none", false)] {
        let torrent = Torrent { category: category.to_string(), ..Default::default() };
        assert_eq!(client.needs_save_paths(&torrent), needed);
    }
}

#[test]
fn path_outside_of_the_prefix_is_shown_as_reported() {
    for path in ["/x//y/./\"z\"/", "/it's", "/\u{7f}\0\u{200b}", r"D:\dl", "/é"] {
        for prefix in ["/data", "/it's \"x\"", "/\u{1b}\t"] {
            let mut server_config = bypass_auth_config("http://127.0.0.1:1".to_string());
            server_config.path_prefix = Some(prefix.to_string());
            let client = TorrentClient::new(server_config);
            let torrent = Torrent { content_path: Some(path.to_string()), ..Default::default() };
            let error = client.resolve_source_path(&torrent).unwrap_err();
            assert_eq!(
                error.message(),
                format!(
                    "Torrent path {:?} does not start with configured path_prefix {:?}",
                    PathBuf::from(path),
                    prefix
                )
            );
        }
    }
}

#[test]
fn path_outside_of_the_prefix_is_joined_as_text() {
    let mut server_config = bypass_auth_config("http://127.0.0.1:1".to_string());
    server_config.path_prefix = Some("/data".to_string());
    let client = TorrentClient::new(server_config);
    let torrent = Torrent {
        save_path: String::from("/x/"),
        name: String::from("y"),
        ..Default::default()
    };
    let error = client.resolve_source_path(&torrent).unwrap_err();
    assert!(error.message().contains("\"/x/y\""));
}

#[test]
fn verbatim_windows_prefix_matches() {
    let mut server_config = bypass_auth_config("http://127.0.0.1:1".to_string());
    server_config.path_prefix = Some(r"\\?\c:\dl".to_string());
    server_config.root_path = Some(r"\\?\E:\lib\..".to_string());
    let client = TorrentClient::on_host(server_config, PathStyle::Windows);
    let torrent =
        Torrent { content_path: Some(String::from(r"\\?\C:\dl\x")), ..Default::default() };
    let src = client.resolve_source_path(&torrent).unwrap();
    assert_eq!(src, r"\\?\E:\lib\..\x");
    assert!(move_path(PathStyle::Windows, r"\\?\C:\dl\.", r"E:\").is_none());
    assert!(move_path(PathStyle::Windows, r"\\?\C:", r"E:\").is_none());
    let job = move_path(PathStyle::Windows, r"\\?\C:\dl\x", r"\\?\E:").unwrap();
    assert_eq!(job.dest, r"\\?\E:\x");
}

#[test]
fn windows_paths_split_at_backslashes() {
    let mut server_config = bypass_auth_config("http://127.0.0.1:1".to_string());
    server_config.path_prefix = Some(r"d:\dl".to_string());
    server_config.root_path = Some(r"\\nas\torrents".to_string());
    let client = TorrentClient::on_host(server_config, PathStyle::Windows);
    let torrent = Torrent {
        content_path: Some(String::from(r"D:\dl\tv/film.mkv")),
        ..Default::default()
    };
    let src = client.resolve_source_path(&torrent).unwrap();
    assert_eq!(src, r"\\nas\torrents\tv\film.mkv");
    let job = move_path(PathStyle::Windows, r"D:\dl\film.mkv", "E:/lib").unwrap();
    assert_eq!(job.dest, r"E:/lib\film.mkv");
    assert!(move_path(PathStyle::Windows, r"D:\", r"E:\").is_none());
    assert!(move_path(PathStyle::Windows, "D:", r"E:\").is_none());
    assert!(move_path(PathStyle::Windows, r"\\nas\torrents", r"E:\").is_none());
}

#[test]
fn repeated_move_is_recognized() {
    // After a move the source is gone and the destination is there.
    for way in [
        vec![true, true, false, true],
        vec![true, true, false, false, true, true, true],
        vec![true, true, false, false, false, true, true, true],
    ] {
        assert_eq!(run_move(&way), MoveStep::Finished(MoveOutcome::Moved));
    }
    assert_eq!(run_move(&[false, true]), MoveStep::Finished(MoveOutcome::AlreadyMoved));
}
