use organizarr::client::{ApiRequest, ClientError, Command, Method, Reply, Step, TorrentClient};
use organizarr::config::ServerConfig;

fn bypass_auth_config(url: &str) -> ServerConfig {
    // Empty username skips the login/logout flow.
    ServerConfig {
        qbit_url: url.to_string(),
        username: String::new(),
        password: String::new(),
        ..Default::default()
    }
}

fn client() -> TorrentClient {
    TorrentClient::new(bypass_auth_config("http://qbit:8080"))
}

/// What the HTTP client says of an error status.
fn complaint(status: u16) -> String {
    if status >= 400 {
        format!("HTTP status error ({})", status)
    } else {
        String::new()
    }
}

fn answer(status: u16, body: &str) -> Reply {
    Reply::Answer { status, body: body.to_string(), complaint: complaint(status) }
}

fn request(step: Step) -> ApiRequest {
    match step {
        Step::Send(request) => request,
        other => panic!("{:?}", other),
    }
}

fn failure(step: Step) -> ClientError {
    match step {
        Step::Fail(e) => e,
        other => panic!("{:?}", other),
    }
}

fn fields(list: &[(&str, &str)]) -> Vec<(String, String)> {
    list.iter().map(|(k, v)| (k.to_string(), v.to_string())).collect()
}

#[test]
fn test_login_success() {
    let client = TorrentClient::new(ServerConfig {
        qbit_url: String::from("http://qbit:8080"),
        ..Default::default()
    });
    let sent = request(client.login(&vec![]));
    assert_eq!(sent.method, Method::Post);
    assert_eq!(sent.url, "http://qbit:8080/api/v2/auth/login");
    assert_eq!(sent.fields, fields(&[("username", "admin"), ("password", "adminadmin")]));
    assert!(matches!(client.login(&vec![answer(200, "Ok.")]), Step::Done));
    assert!(matches!(client.login(&vec![answer(200, " Ok.\n")]), Step::Done));
    assert!(sent.reads_body_of(200));
}

#[test]
fn test_login_bad_credentials() {
    let client = TorrentClient::new(ServerConfig {
        qbit_url: String::from("http://qbit:8080"),
        ..Default::default()
    });
    let result = client.login(&vec![answer(200, "Fails.")]);
    let error = failure(result);
    assert!(error.message().contains("Authentication failed"));
    assert_eq!(
        error.message(),
        "Authentication failed for http://qbit:8080 (check username/password)"
    );
}

#[test]
fn test_login_skipped_when_username_empty() {
    // No interaction expected at all.
    let client = TorrentClient::new(bypass_auth_config("http://127.0.0.1:1"));
    assert!(matches!(client.login(&vec![]), Step::Done));
    assert!(matches!(client.logout(&vec![]), Step::Done));
}

#[test]
fn test_http_error_status_is_reported() {
    let client = client();
    let sent = request(client.get_completed_torrents(&vec![]));
    assert_eq!(sent.method, Method::Get);
    assert_eq!(sent.url, "http://qbit:8080/api/v2/torrents/info");
    assert_eq!(sent.fields, fields(&[("filter", "completed")]));
    let error = failure(client.get_completed_torrents(&vec![answer(403, "")]));
    assert_eq!(
        error,
        ClientError::ErrorStatus {
            url: String::from("http://qbit:8080/api/v2/torrents/info"),
            status: 403,
            complaint: complaint(403),
        }
    );
    assert_eq!(
        error.message(),
        "Request to http://qbit:8080/api/v2/torrents/info returned an error status: HTTP status error (403)"
    );
}

#[test]
fn test_remove_torrent() {
    let client = client();
    let sent = request(client.remove_torrent("test_hash", false, &vec![]));
    assert_eq!(sent.method, Method::Post);
    assert_eq!(sent.url, "http://qbit:8080/api/v2/torrents/delete");
    assert_eq!(sent.fields, fields(&[("hashes", "test_hash"), ("deleteFiles", "false")]));
    let done = client.remove_torrent("test_hash", false, &vec![answer(200, "")]);
    assert!(matches!(done, Step::Done));
}

#[test]
fn test_stop_torrent_uses_stop_endpoint() {
    // qBittorrent 5.x path: torrents/stop exists.
    let client = client();
    let sent = request(client.stop_torrent("test_hash", &vec![]));
    assert_eq!(sent.method, Method::Post);
    assert_eq!(sent.url, "http://qbit:8080/api/v2/torrents/stop");
    assert_eq!(sent.fields, fields(&[("hashes", "test_hash")]));
    assert!(matches!(client.stop_torrent("test_hash", &vec![answer(200, "")]), Step::Done));
}

#[test]
fn test_stop_torrent_falls_back_to_pause() {
    // qBittorrent 4.x path: torrents/stop is 404, torrents/pause works.
    let client = client();
    let sent = request(client.stop_torrent("test_hash", &vec![answer(404, "")]));
    assert_eq!(sent.url, "http://qbit:8080/api/v2/torrents/pause");
    assert_eq!(sent.fields, fields(&[("hashes", "test_hash")]));
    let replies = vec![answer(404, ""), answer(200, "")];
    assert!(matches!(client.stop_torrent("test_hash", &replies), Step::Done));
}

#[test]
fn stopping_fails_without_an_endpoint() {
    let error = failure(client().stop_torrent("h", &vec![answer(404, ""), answer(404, "")]));
    assert_eq!(error, ClientError::NoStopEndpoint);
    assert_eq!(
        error.message(),
        "Neither torrents/stop nor torrents/pause is available on this qBittorrent version"
    );
}

#[test]
fn other_errors_do_not_fall_back() {
    let error = failure(client().stop_torrent("h", &vec![answer(500, "")]));
    assert_eq!(
        error,
        ClientError::ErrorStatus {
            url: String::from("http://qbit:8080/api/v2/torrents/stop"),
            status: 500,
            complaint: complaint(500),
        }
    );
}

#[test]
fn starting_falls_back_to_resume() {
    let client = client();
    assert!(request(client.start_torrent("h", &vec![])).url.ends_with("/torrents/start"));
    let sent = request(client.start_torrent("h", &vec![answer(404, "")]));
    assert!(sent.url.ends_with("/torrents/resume"));
    let error = failure(client.start_torrent("h", &vec![answer(404, ""), answer(404, "")]));
    assert_eq!(error, ClientError::NoStartEndpoint);
    assert_eq!(
        error.message(),
        "Neither torrents/start nor torrents/resume is available on this qBittorrent version"
    );
}

#[test]
fn unreachable_server_is_reported() {
    let replies = vec![Reply::Unreachable { cause: String::from("refused") }];
    let error = failure(client().get_torrents(&replies));
    assert_eq!(
        error,
        ClientError::RequestFailed {
            url: String::from("http://qbit:8080/api/v2/torrents/info"),
            cause: String::from("refused"),
        }
    );
    assert_eq!(
        error.message(),
        "Request to http://qbit:8080/api/v2/torrents/info failed: refused"
    );
}

#[test]
fn all_torrents_and_categories_are_listed() {
    let client = client();
    let sent = request(client.get_torrents(&vec![]));
    assert_eq!(sent.url, "http://qbit:8080/api/v2/torrents/info");
    assert!(sent.fields.is_empty() && sent.headers.is_empty());
    let sent = request(client.get_categories(&vec![]));
    assert_eq!(sent.url, "http://qbit:8080/api/v2/torrents/categories");
    assert_eq!(sent.method, Method::Get);
    assert!(matches!(client.get_categories(&vec![answer(200, "{}")]), Step::Done));
}

#[test]
fn logout_ends_the_session() {
    let client = TorrentClient::new(ServerConfig::default());
    let sent = request(client.logout(&vec![]));
    assert_eq!(sent.url, "http://localhost:8080/api/v2/auth/logout");
    assert_eq!(sent.method, Method::Post);
    assert!(sent.fields.is_empty());
    assert!(matches!(client.logout(&vec![answer(200, "")]), Step::Done));
}

#[test]
fn base_url_slashes_do_not_matter() {
    let client = TorrentClient::new(bypass_auth_config("http://qbit:8080//"));
    assert_eq!(client.url("/x"), "http://qbit:8080/x");
}

#[test]
fn missing_category_is_created_on_demand() {
    let client = client();
    let clash = || answer(409, "");
    let fine = || answer(200, "");
    let sent = request(client.set_category("h", "new", true, &vec![]));
    assert!(sent.url.ends_with("/torrents/setCategory"));
    let sent = request(client.set_category("h", "new", true, &vec![clash()]));
    assert!(sent.url.ends_with("/torrents/createCategory"));
    assert_eq!(sent.fields, fields(&[("category", "new")]));
    let sent = request(client.set_category("h", "new", true, &vec![clash(), fine()]));
    assert!(sent.url.ends_with("/torrents/setCategory"));
    assert_eq!(sent.fields, fields(&[("hashes", "h"), ("category", "new")]));
    let done = client.set_category("h", "new", true, &vec![clash(), fine(), fine()]);
    assert!(matches!(done, Step::Done));
    let error = failure(client.set_category("h", "new", false, &vec![clash()]));
    assert!(matches!(error, ClientError::ErrorStatus { status: 409, .. }));
    let error = failure(client.set_category("h", "new", true, &vec![clash(), answer(500, "")]));
    assert!(error.message().contains("createCategory"));
}

#[test]
fn commands_have_their_forms() {
    let client = client();
    let hash = || String::from("h");
    let sent = request(client.run_command(
        &Command::SetLocation { hash: hash(), location: String::from("/media") },
        &vec![],
    ));
    assert_eq!(sent.url, "http://qbit:8080/api/v2/torrents/setLocation");
    assert_eq!(sent.fields, fields(&[("hashes", "h"), ("location", "/media")]));
    let sent = request(client.run_command(&Command::Recheck { hash: hash() }, &vec![]));
    assert_eq!(sent.url, "http://qbit:8080/api/v2/torrents/recheck");
    let sent = request(client.run_command(
        &Command::RemoveTags { hash: hash(), tags: String::from("a,b") },
        &vec![],
    ));
    assert_eq!(sent.url, "http://qbit:8080/api/v2/torrents/removeTags");
    assert_eq!(sent.fields, fields(&[("hashes", "h"), ("tags", "a,b")]));
    let sent = request(client.run_command(
        &Command::Remove { hash: hash(), delete_files: true },
        &vec![],
    ));
    assert_eq!(sent.fields, fields(&[("hashes", "h"), ("deleteFiles", "true")]));
    let sent = request(client.run_command(&Command::Start { hash: hash() }, &vec![]));
    assert_eq!(sent.url, "http://qbit:8080/api/v2/torrents/start");
}

#[test]
fn redirect_like_statuses_are_no_errors() {
    assert!(matches!(client().get_torrents(&vec![answer(399, "")]), Step::Done));
    assert!(matches!(client().get_torrents(&vec![answer(400, "")]), Step::Fail(_)));
    assert!(matches!(client().get_torrents(&vec![answer(599, "")]), Step::Fail(_)));
    assert!(matches!(client().get_torrents(&vec![answer(600, "")]), Step::Done));
}

#[test]
fn failed_login_names_the_server() {
    let client = TorrentClient::new(ServerConfig::default());
    let error = failure(client.login(&vec![answer(403, "")]));
    assert_eq!(
        error.message(),
        "Failed to reach qBittorrent at http://localhost:8080: Request to \
         http://localhost:8080/api/v2/auth/login returned an error status: HTTP status error (403)"
    );
    let replies = vec![Reply::Unreachable { cause: String::from("refused") }];
    assert!(matches!(failure(client.login(&replies)), ClientError::LoginFailed { .. }));
}

#[test]
fn bodies_are_read_where_they_matter() {
    let client = client();
    let listing = request(client.get_torrents(&vec![]));
    assert!(listing.reads_body_of(200));
    assert!(!listing.reads_body_of(404) && !listing.reads_body_of(599));
    assert!(!request(client.stop_torrent("h", &vec![])).reads_body_of(200));
}

#[test]
fn unreadable_body_is_reported_as_such() {
    let replies = || vec![Reply::Unreadable { cause: String::from("cut off") }];
    let client = TorrentClient::new(ServerConfig::default());
    for step in [client.login(&replies()), client.get_torrents(&replies())] {
        let error = failure(step);
        assert_eq!(error, ClientError::UnreadableBody { cause: String::from("cut off") });
        assert_eq!(error.message(), "cut off");
    }
}
