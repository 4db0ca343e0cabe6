use organizarr::client::{ApiRequest, ClientError, Method, Reply, Step};
use organizarr::config::ArrConfig;
use organizarr::discovery::{
    fetch_arr_mappings, verify_mappings, ArrRemotePathMapping, Collection, DiscoveryCache, Event,
    PathMapping,
};

const SECOND: u64 = 1_000_000_000;

fn arr(url: &str) -> ArrConfig {
    ArrConfig {
        name: String::from("test-arr"),
        url: url.to_string(),
        api_key: String::from("key"),
        host: None,
        refresh: String::from("60s"),
    }
}

fn offered(host: &str, remote: &str, local: &str) -> ArrRemotePathMapping {
    ArrRemotePathMapping {
        host: host.to_string(),
        remote_path: remote.to_string(),
        local_path: local.to_string(),
    }
}

fn mapping(remote: &str, local: &str) -> PathMapping {
    PathMapping { remote: remote.to_string(), local: local.to_string() }
}

fn answer(status: u16) -> Reply {
    Reply::Answer { status, body: String::from("[]"), complaint: String::new() }
}

fn request(step: Step) -> ApiRequest {
    match step {
        Step::Send(request) => request,
        other => panic!("{:?}", other),
    }
}

/// Collects from one instance; `fetch` is what asking it gives.
fn collect(
    cache: &mut DiscoveryCache,
    arrs: &Vec<ArrConfig>,
    now: u64,
    fetch: impl Fn(usize) -> Option<Vec<PathMapping>>,
) -> (Vec<PathMapping>, Vec<usize>) {
    let mut collection = Collection::new();
    let mut asked = Vec::new();
    let mut next = cache.arr_mappings(arrs, &mut collection, Event::Begin { now });
    while let Some(i) = next {
        asked.push(i);
        let event = match fetch(i) {
            Some(mappings) => Event::Fetched { now, mappings },
            None => Event::Failed { now },
        };
        next = cache.arr_mappings(arrs, &mut collection, event);
    }
    (collection.mappings, asked)
}

#[test]
fn test_fetch_v3_mappings_verifies_local_paths() {
    let cfg = arr("http://sonarr");
    let sent = request(fetch_arr_mappings(&cfg, &vec![]));
    assert_eq!(sent.method, Method::Get);
    assert_eq!(sent.url, "http://sonarr/api/v3/remotepathmapping");
    assert_eq!(sent.headers, vec![(String::from("X-Api-Key"), String::from("key"))]);
    assert!(matches!(fetch_arr_mappings(&cfg, &vec![answer(200)]), Step::Done));

    let list = vec![
        offered("gluetun", "/data/torrents", "/here"),
        offered("gluetun", "/other", "/definitely/not/here"),
    ];
    let mappings = verify_mappings(&cfg, &list, &vec![true, false]);
    assert_eq!(mappings.adopted.len(), 1);
    assert_eq!(mappings.adopted[0].remote, "/data/torrents");
    assert_eq!(mappings.adopted[0].local, "/here");
    assert_eq!(mappings.skipped, vec![mapping("/other", "/definitely/not/here")]);
}

#[test]
fn test_fetch_falls_back_to_v1() {
    let cfg = arr("http://lidarr/");
    let sent = request(fetch_arr_mappings(&cfg, &vec![answer(404)]));
    assert_eq!(sent.url, "http://lidarr/api/v1/remotepathmapping");
    assert_eq!(sent.headers, vec![(String::from("X-Api-Key"), String::from("key"))]);
    assert!(matches!(fetch_arr_mappings(&cfg, &vec![answer(404), answer(200)]), Step::Done));
    let mappings = verify_mappings(&cfg, &vec![offered("qbit", "/music", "/here")], &vec![true]);
    assert_eq!(mappings.adopted.len(), 1);
    assert_eq!(mappings.adopted[0].remote, "/music");
}

#[test]
fn test_host_filter() {
    let list = vec![
        offered("gluetun", "/data/torrents", "/here"),
        offered("sabnzbd", "/usenet", "/here"),
    ];
    let mut cfg = arr("http://sonarr");
    cfg.host = Some(String::from("Gluetun")); // case-insensitive
    let mappings = verify_mappings(&cfg, &list, &vec![true, true]);
    assert_eq!(mappings.adopted.len(), 1);
    assert_eq!(mappings.adopted[0].remote, "/data/torrents");
    assert!(mappings.skipped.is_empty());
}

#[test]
fn test_cache_refresh_and_stale_reuse() {
    let mut cfg = arr("http://sonarr");
    cfg.refresh = String::from("1h");
    let mut cache = DiscoveryCache::default();
    let (first, asked) = collect(&mut cache, &vec![cfg.clone()], 0, |_| {
        Some(vec![mapping("/data", "/here")])
    });
    assert_eq!(asked, vec![0]);
    // The second call must be served from the cache.
    let (second, asked) = collect(&mut cache, &vec![cfg.clone()], SECOND, |_| None);
    assert!(asked.is_empty());
    assert_eq!(first, second);
    assert_eq!(first.len(), 1);

    // Force a refresh against a now-failing endpoint: the cached
    // mappings must survive.
    cfg.refresh = String::from("0s");
    let (third, asked) = collect(&mut cache, &vec![cfg], SECOND, |_| None);
    assert_eq!(asked, vec![0]);
    assert_eq!(third, first);
}

#[test]
fn fetch_failures_are_reported() {
    let cfg = arr("http://sonarr");
    match fetch_arr_mappings(&cfg, &vec![answer(404), answer(404)]) {
        Step::Fail(e) => {
            assert_eq!(e, ClientError::NoMappingEndpoint { label: String::from("test-arr") });
            assert_eq!(
                e.message(),
                "test-arr: no remotepathmapping endpoint found (tried /api/v3 and /api/v1)"
            );
        }
        other => panic!("{:?}", other),
    }
    match fetch_arr_mappings(&cfg, &vec![answer(401)]) {
        Step::Fail(ClientError::ErrorStatus { url, status, .. }) => {
            assert_eq!(url, "http://sonarr/api/v3/remotepathmapping");
            assert_eq!(status, 401);
        }
        other => panic!("{:?}", other),
    }
}

#[test]
fn host_filter_folds_ascii_only() {
    let mut cfg = arr("http://sonarr");
    cfg.host = Some(String::from("CAFÉ"));
    let list = vec![offered("cafÉ", "/a", "/a"), offered("café", "/b", "/b")];
    let mappings = verify_mappings(&cfg, &list, &vec![true, true]);
    assert_eq!(mappings.adopted, vec![mapping("/a", "/a")]);
}

#[test]
fn imports_are_stale_from_the_interval_on() {
    let cfg = arr("http://sonarr");
    let mut cache = DiscoveryCache::default();
    assert!(cache.needs_refresh(&cfg, 0));
    collect(&mut cache, &vec![cfg.clone()], 5 * SECOND, |_| Some(vec![]));
    assert!(!cache.needs_refresh(&cfg, 5 * SECOND));
    assert!(!cache.needs_refresh(&cfg, 65 * SECOND - 1));
    assert!(cache.needs_refresh(&cfg, 65 * SECOND));
}

#[test]
fn latest_import_wins() {
    let mut cfg = arr("http://sonarr");
    cfg.refresh = String::from("0s");
    let mut cache = DiscoveryCache::default();
    let old = vec![mapping("/data", "/old")];
    let new = vec![mapping("/data", "/new"), mapping("/more", "/more")];
    assert!(cache.is_news(&cfg, &old));
    collect(&mut cache, &vec![cfg.clone()], 0, |_| Some(vec![mapping("/data", "/old")]));
    assert!(!cache.is_news(&cfg, &old));
    assert!(cache.is_news(&cfg, &new));
    assert!(cache.is_news(&cfg, &vec![mapping("/data", "/new")]));
    let (served, _) = collect(&mut cache, &vec![cfg], 1, |_| {
        Some(vec![mapping("/data", "/new"), mapping("/more", "/more")])
    });
    assert_eq!(served, new);
}

#[test]
fn instances_are_served_in_order() {
    let arrs = vec![arr("http://a"), arr("http://b"), arr("http://c"), arr("http://a")];
    let mut cache = DiscoveryCache::default();
    let (served, asked) = collect(&mut cache, &arrs, 0, |i| match i {
        0 => Some(vec![mapping("/a", "/a")]),
        1 => None,
        _ => Some(vec![mapping("/c", "/c")]),
    });
    // The second entry for one URL finds it fresh, and the failed one gives nothing.
    assert_eq!(asked, vec![0, 1, 2]);
    assert_eq!(served, vec![mapping("/a", "/a"), mapping("/c", "/c"), mapping("/a", "/a")]);
    // Only the failed one is asked again.
    let (served, asked) = collect(&mut cache, &arrs, SECOND, |_| Some(vec![mapping("/b", "/b")]));
    assert_eq!(asked, vec![1]);
    assert_eq!(
        served,
        vec![mapping("/a", "/a"), mapping("/b", "/b"), mapping("/c", "/c"), mapping("/a", "/a")]
    );
    let (served, asked) = collect(&mut cache, &vec![], 0, |_| None);
    assert!(served.is_empty() && asked.is_empty());
}
