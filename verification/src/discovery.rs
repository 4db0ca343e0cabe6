//! Opt-in discovery of directory configuration that already exists in the
//! surrounding ecosystem, so users with mixed environments (e.g. qBittorrent
//! in a Docker container, this tool on the host) don't have to duplicate
//! path mappings they have already maintained elsewhere.
//!
//! What is imported are the remote path mappings of *arr instances: pairs of
//! "path as the download client reports it" and "path as this host sees it".
//! A mapping whose local side does not exist on this host is skipped, so a
//! mapping meant for a different machine can never mis-route a move.
//!
//! Imported values are fetched again on an interval, so the latest change made
//! inside the client application wins over anything imported before. When a fetch
//! fails the last good import is used again.
use crate::client::{
    self, pair, send_first_found, ApiRequest, ClientError, ErrorView, Method, Reply, ReplyView,
    RequestView, Step, StepView,
};
use crate::config::ArrConfig;
use crate::name_map::NameMap;
use crate::text;
use vstd::prelude::*;

verus! {

/// One "remote view" -> "local view" directory pair. `remote` is a
/// path as qBittorrent reports it (e.g. `/data/torrents` inside a
/// container); `local` is the same directory as this host sees it.
#[derive(Debug, PartialEq)]
pub struct PathMapping {
    pub remote: String,
    pub local: String,
}

/// A mapping, as mathematics sees it.
pub struct MappingView {
    pub remote: Seq<char>,
    pub local: Seq<char>,
}

impl View for PathMapping {
    type V = MappingView;

    open spec fn view(&self) -> MappingView {
        MappingView { remote: self.remote@, local: self.local@ }
    }
}

impl Clone for PathMapping {
    fn clone(&self) -> (r: PathMapping)
        ensures
            r@ == self@,
    {
        PathMapping { remote: self.remote.clone(), local: self.local.clone() }
    }
}

/// The views of a sequence of mappings.
pub open spec fn mapping_views(v: Seq<PathMapping>) -> Seq<MappingView> {
    Seq::new(v.len(), |i: int| v[i]@)
}

/// A remote path mapping as the *arr `remotepathmapping` API offers it.
#[derive(Debug, Clone)]
pub struct ArrRemotePathMapping {
    /// The download client that the mapping is for.
    pub host: String,
    pub remote_path: String,
    pub local_path: String,
}

/// The request for the mappings of an instance, by a version of its API.
pub open spec fn mapping_request(arr: ArrConfig, path: Seq<char>) -> RequestView {
    RequestView {
        method: Method::Get,
        url: text::trim_slashes(arr.url@) + path,
        headers: seq![("X-Api-Key"@, arr.api_key@)],
        fields: Seq::empty(),
        reads_body: true,
    }
}

/// Fetching the mappings of an instance.
pub open spec fn fetch_step(arr: ArrConfig, replies: Seq<ReplyView>) -> StepView {
    client::first_found(
        seq![
            mapping_request(arr, "/api/v3/remotepathmapping"@),
            mapping_request(arr, "/api/v1/remotepathmapping"@),
        ],
        replies,
        ErrorView::NoMappingEndpoint { label: arr.shown_as() },
    )
}

fn request_mappings(arr: &ArrConfig, path: &str) -> (r: ApiRequest)
    ensures
        r@ == mapping_request(*arr, path@),
{
    let r = ApiRequest {
        method: Method::Get,
        url: text::without_trailing_slashes(arr.url.as_str()).to_owned().concat(path),
        headers: vec![pair("X-Api-Key", arr.api_key.as_str())],
        fields: Vec::new(),
        reads_body: true,
    };
    assert(r@.headers =~= seq![("X-Api-Key"@, arr.api_key@)]);
    assert(r@.fields =~= Seq::empty());
    r
}

/// Fetches the remote path mappings from one *arr instance. Tries the v3
/// API (Sonarr, Radarr) first and falls back to v1 (Lidarr, Readarr) on
/// 404, so no per-app configuration is needed.
pub fn fetch_arr_mappings(arr: &ArrConfig, replies: &Vec<Reply>) -> (r: Step)
    ensures
        r@ == fetch_step(*arr, client::reply_views(replies@)),
{
    let requests = vec![
        request_mappings(arr, "/api/v3/remotepathmapping"),
        request_mappings(arr, "/api/v1/remotepathmapping"),
    ];
    assert(client::request_views(requests@) =~= seq![
        mapping_request(*arr, "/api/v3/remotepathmapping"@),
        mapping_request(*arr, "/api/v1/remotepathmapping"@),
    ]);
    send_first_found(
        requests,
        replies,
        ClientError::NoMappingEndpoint { label: arr.label().to_owned() },
    )
}

/// The mapping is for the download client that the instance is filtered by. Without a filter
/// every mapping is.
pub open spec fn for_host(arr: ArrConfig, offered: ArrRemotePathMapping) -> bool {
    arr.host matches Some(host) ==> text::same_ignoring_case(offered.host@, host@)
}

/// The local side of the mapping exists on this host; `present` says so place by place.
pub open spec fn is_present(present: Seq<bool>, i: int) -> bool {
    0 <= i < present.len() && present[i]
}

/// The mappings for the instance's download client whose local side is there, or is not, in
/// the order in which they were offered.
pub open spec fn sorted_out(
    arr: ArrConfig,
    offered: Seq<ArrRemotePathMapping>,
    present: Seq<bool>,
    there: bool,
) -> Seq<MappingView>
    decreases offered.len(),
{
    if offered.len() == 0 {
        Seq::empty()
    } else {
        let rest = sorted_out(arr, offered.drop_last(), present, there);
        let m = offered.last();
        if for_host(arr, m) && is_present(present, offered.len() - 1) == there {
            rest.push(MappingView { remote: m.remote_path@, local: m.local_path@ })
        } else {
            rest
        }
    }
}

/// The mappings of one import.
#[derive(Debug, Clone)]
pub struct Import {
    /// These are used.
    pub adopted: Vec<PathMapping>,
    /// The local side of these does not exist on this host.
    pub skipped: Vec<PathMapping>,
}

/// Sorts the mappings that an instance offers: those for other download clients are left
/// out, those whose local side does not exist on this host are skipped, and the rest is
/// adopted. `present` says for each of them whether its local side is a directory here.
pub fn verify_mappings(
    arr: &ArrConfig,
    offered: &Vec<ArrRemotePathMapping>,
    present: &Vec<bool>,
) -> (r: Import)
    ensures
        mapping_views(r.adopted@) == sorted_out(*arr, offered@, present@, true),
        mapping_views(r.skipped@) == sorted_out(*arr, offered@, present@, false),
        forall|i: int|
            #![trigger offered@[i]]
            0 <= i < offered@.len() && i < present@.len() && (arr.host is None
                || text::same_ignoring_case(offered@[i].host@, (arr.host->0)@)) ==> (
            if present@[i] {
                mapping_views(r.adopted@)
            } else {
                mapping_views(r.skipped@)
            }).contains(
                MappingView { remote: offered@[i].remote_path@, local: offered@[i].local_path@ },
            ),
{
    let mut adopted: Vec<PathMapping> = Vec::new();
    let mut skipped: Vec<PathMapping> = Vec::new();
    let mut i: usize = 0;
    assert(mapping_views(adopted@) =~= sorted_out(*arr, offered@.take(0), present@, true));
    assert(mapping_views(skipped@) =~= sorted_out(*arr, offered@.take(0), present@, false));
    while i < offered.len()
        invariant
            i <= offered.len(),
            mapping_views(adopted@) == sorted_out(
                *arr,
                offered@.take(i as int),
                present@,
                true,
            ),
            mapping_views(skipped@) == sorted_out(
                *arr,
                offered@.take(i as int),
                present@,
                false,
            ),
        decreases offered.len() - i,
    {
        let m = &offered[i];
        let ghost kept = mapping_views(adopted@);
        let ghost left = mapping_views(skipped@);
        assert(offered@.take(i + 1).drop_last() =~= offered@.take(i as int));
        assert(offered@.take(i + 1).last() == m);
        let wanted = match &arr.host {
            Some(host) => text::equal_ignoring_case(m.host.as_str(), host.as_str()),
            None => true,
        };
        if wanted {
            let mapping = PathMapping {
                remote: m.remote_path.clone(),
                local: m.local_path.clone(),
            };
            let ghost shown = mapping@;
            if i < present.len() && present[i] {
                adopted.push(mapping);
                assert(mapping_views(adopted@) =~= kept.push(shown));
            } else {
                skipped.push(mapping);
                assert(mapping_views(skipped@) =~= left.push(shown));
            }
        }
        i = i + 1;
    }
    assert(offered@.take(i as int) =~= offered@);
    proof {
        assert forall|k: int|
            #![trigger offered@[k]]
            0 <= k < offered@.len() && k < present@.len() && (arr.host is None
                || text::same_ignoring_case(offered@[k].host@, (arr.host->0)@)) implies (
        if present@[k] {
            mapping_views(adopted@)
        } else {
            mapping_views(skipped@)
        }).contains(
            MappingView { remote: offered@[k].remote_path@, local: offered@[k].local_path@ },
        ) by {
            law_each_mapping_is_judged_by_itself(*arr, offered@, present@, k);
        }
    }
    Import { adopted, skipped }
}

/// What was imported from one instance, and when.
#[derive(Debug, Clone)]
pub struct CachedMappings {
    /// Nanoseconds on a clock that does not run backwards.
    pub fetched_at: u64,
    pub mappings: Vec<PathMapping>,
}

/// Cache of imported *arr path mappings, by the URL of the instance, persisted across
/// polling cycles.
#[derive(Debug, Clone)]
pub struct DiscoveryCache {
    pub arr: NameMap<CachedMappings>,
}

impl Default for DiscoveryCache {
    fn default() -> (r: DiscoveryCache)
        ensures
            r.arr@ == Map::<Seq<char>, CachedMappings>::empty(),
    {
        DiscoveryCache { arr: NameMap::new() }
    }
}

/// The instance has to be asked: it never was, or its refresh interval is over.
pub open spec fn stale(
    cache: Map<Seq<char>, CachedMappings>,
    arr: ArrConfig,
    now: u64,
) -> bool {
    !cache.contains_key(arr.url@) || now - cache[arr.url@].fetched_at >= arr.refresh_secs()
        * 1_000_000_000
        || arr.refresh_secs() == 0
}

/// The place of the first instance from `from` on that has to be asked; the number of
/// instances if there is none.
pub open spec fn first_stale(
    cache: Map<Seq<char>, CachedMappings>,
    arrs: Seq<ArrConfig>,
    from: int,
    now: u64,
) -> int
    decreases arrs.len() - from,
{
    if from >= arrs.len() || stale(cache, arrs[from], now) {
        from
    } else {
        first_stale(cache, arrs, from + 1, now)
    }
}

/// What the cache has for an instance.
pub open spec fn cached(cache: Map<Seq<char>, CachedMappings>, arr: ArrConfig) -> Seq<MappingView> {
    if cache.contains_key(arr.url@) {
        mapping_views(cache[arr.url@].mappings@)
    } else {
        Seq::empty()
    }
}

/// What the cache has for the instances from place `from` up to place `to`, in order.
pub open spec fn served(
    cache: Map<Seq<char>, CachedMappings>,
    arrs: Seq<ArrConfig>,
    from: int,
    to: int,
) -> Seq<MappingView>
    decreases to - from,
{
    if from >= to {
        Seq::empty()
    } else {
        served(cache, arrs, from, to - 1) + cached(cache, arrs[to - 1])
    }
}

/// How far the collection of mappings from a list of instances has come.
#[derive(Debug)]
pub struct Collection {
    /// The instance that is next.
    pub next: usize,
    /// The mappings of the instances before it.
    pub mappings: Vec<PathMapping>,
}

impl Collection {
    /// Nothing collected yet.
    pub fn new() -> (r: Collection)
        ensures
            r.next == 0,
            r.mappings@.len() == 0,
    {
        Collection { next: 0, mappings: Vec::new() }
    }
}

/// What happened to a collection, and when.
#[derive(Debug)]
pub enum Event {
    /// It begins.
    Begin { now: u64 },
    /// The instance that is next was asked and these are its verified mappings.
    Fetched { now: u64, mappings: Vec<PathMapping> },
    /// The instance that is next was asked in vain.
    Failed { now: u64 },
}

impl Event {
    /// When it happened.
    pub open spec fn time(self) -> u64 {
        match self {
            Event::Begin { now } => now,
            Event::Fetched { now, .. } => now,
            Event::Failed { now } => now,
        }
    }
}

/// The cache after an event for `arr`: a new import takes the place of the old one, and a
/// failure leaves it as it is.
pub open spec fn after_event(
    cache: Map<Seq<char>, CachedMappings>,
    arr: ArrConfig,
    event: Event,
) -> Map<Seq<char>, CachedMappings> {
    match event {
        Event::Fetched { now, mappings } => cache.insert(
            arr.url@,
            CachedMappings { fetched_at: now, mappings },
        ),
        _ => cache,
    }
}

proof fn lemma_first_stale(
    cache: Map<Seq<char>, CachedMappings>,
    arrs: Seq<ArrConfig>,
    from: int,
    now: u64,
)
    requires
        0 <= from <= arrs.len(),
    ensures
        from <= first_stale(cache, arrs, from, now) <= arrs.len(),
        first_stale(cache, arrs, from, now) < arrs.len() ==> stale(
            cache,
            arrs[first_stale(cache, arrs, from, now)],
            now,
        ),
        forall|i: int|
            from <= i < first_stale(cache, arrs, from, now) ==> !stale(
                cache,
                #[trigger] arrs[i],
                now,
            ),
    decreases arrs.len() - from,
{
    if from < arrs.len() && !stale(cache, arrs[from], now) {
        lemma_first_stale(cache, arrs, from + 1, now);
    }
}

impl DiscoveryCache {
    /// Whether the instance has to be asked.
    pub fn needs_refresh(&self, arr: &ArrConfig, now: u64) -> (r: bool)
        ensures
            r == stale(self.arr@, *arr, now),
    {
        match self.arr.get(arr.url.as_str()) {
            None => true,
            Some(c) => {
                let refresh: u64 = arr.refresh_interval();
                let elapsed: u64 = if now >= c.fetched_at {
                    now - c.fetched_at
                } else {
                    0
                };
                elapsed as u128 >= refresh as u128 * 1_000_000_000u128
            },
        }
    }

    /// Whether an import differs from what the cache has for the instance.
    pub fn is_news(&self, arr: &ArrConfig, mappings: &Vec<PathMapping>) -> (r: bool)
        ensures
            r == (!self.arr@.contains_key(arr.url@) || mapping_views(mappings@) != mapping_views(
                self.arr@[arr.url@].mappings@,
            )),
    {
        match self.arr.get(arr.url.as_str()) {
            None => true,
            Some(c) => !same_mappings(mappings, &c.mappings),
        }
    }

    /// Adds what the cache has for the instance.
    fn serve(&self, arr: &ArrConfig, mappings: &mut Vec<PathMapping>)
        ensures
            mapping_views(final(mappings)@) == mapping_views(old(mappings)@) + cached(
                self.arr@,
                *arr,
            ),
    {
        let ghost before = mapping_views(mappings@);
        if let Some(c) = self.arr.get(arr.url.as_str()) {
            let mut i: usize = 0;
            assert(before + mapping_views(c.mappings@).take(0) =~= before);
            while i < c.mappings.len()
                invariant
                    i <= c.mappings.len(),
                    mapping_views(mappings@) == before + mapping_views(c.mappings@).take(i as int),
                decreases c.mappings.len() - i,
            {
                let ghost all = mapping_views(c.mappings@);
                let ghost so_far = mapping_views(mappings@);
                let mapping = c.mappings[i].clone();
                mappings.push(mapping);
                assert(mapping_views(mappings@) =~= so_far.push(all[i as int]));
                assert(before + all.take(i + 1) =~= (before + all.take(i as int)).push(
                    all[i as int],
                ));
                i = i + 1;
            }
            assert(mapping_views(c.mappings@).take(i as int) =~= mapping_views(c.mappings@));
        } else {
            assert(before + cached(self.arr@, *arr) =~= before);
        }
    }

    /// Collects the mappings of `arrs`, refreshing any instance whose cache entry is older
    /// than its refresh interval. Says which instance is to be asked next; when there is none
    /// left, the collection is finished and holds the mappings of all instances, in order.
    pub fn arr_mappings(
        &mut self,
        arrs: &Vec<ArrConfig>,
        collection: &mut Collection,
        event: Event,
    ) -> (r: Option<usize>)
        requires
            old(collection).next <= arrs@.len(),
            !(event is Begin) ==> old(collection).next < arrs@.len(),
        ensures
            final(self).arr@ == after_event(
                old(self).arr@,
                arrs@[old(collection).next as int],
                event,
            ),
            final(collection).next == first_stale(
                final(self).arr@,
                arrs@,
                if event is Begin {
                    old(collection).next as int
                } else {
                    old(collection).next + 1
                },
                event.time(),
            ),
            final(collection).next <= arrs@.len(),
            mapping_views(final(collection).mappings@) == mapping_views(old(collection).mappings@)
                + served(
                final(self).arr@,
                arrs@,
                old(collection).next as int,
                final(collection).next as int,
            ),
            r == (if final(collection).next < arrs@.len() {
                Some(final(collection).next)
            } else {
                None
            }),
    {
        let ghost came = event;
        let ghost from = collection.next as int;
        let ghost so_far = mapping_views(collection.mappings@);
        let mut next: usize = collection.next;
        let mut mappings: Vec<PathMapping> = Vec::new();
        std::mem::swap(&mut mappings, &mut collection.mappings);
        let begins = match &event {
            Event::Begin { .. } => true,
            _ => false,
        };
        let now: u64 = match event {
            Event::Begin { now } => now,
            Event::Fetched { now, mappings: fetched } => {
                let entry = CachedMappings { fetched_at: now, mappings: fetched };
                self.arr.insert(arrs[next].url.clone(), entry);
                now
            },
            Event::Failed { now } => now,
        };
        let ghost cache = self.arr@;
        let ghost start: int = if came is Begin {
            from
        } else {
            from + 1
        };
        if !begins {
            assert(next < arrs.len());
            self.serve(&arrs[next], &mut mappings);
            next = next + 1;
            reveal_with_fuel(served, 2);
        }
        assert(so_far + served(cache, arrs@, from, start) =~= mapping_views(mappings@));
        while next < arrs.len() && !self.needs_refresh(&arrs[next], now)
            invariant
                from <= start <= next <= arrs.len(),
                cache == self.arr@,
                mapping_views(mappings@) == so_far + served(cache, arrs@, from, next as int),
                first_stale(cache, arrs@, start, now) == first_stale(
                    cache,
                    arrs@,
                    next as int,
                    now,
                ),
            decreases arrs.len() - next,
        {
            let ghost before = served(cache, arrs@, from, next as int);
            self.serve(&arrs[next], &mut mappings);
            assert(so_far + before + cached(cache, arrs@[next as int]) =~= so_far + (before
                + cached(cache, arrs@[next as int])));
            next = next + 1;
        }
        collection.mappings = mappings;
        collection.next = next;
        if next < arrs.len() {
            Some(next)
        } else {
            None
        }
    }
}

/// Whether two lists hold the same mappings in the same order.
fn same_mappings(a: &Vec<PathMapping>, b: &Vec<PathMapping>) -> (r: bool)
    ensures
        r == (mapping_views(a@) == mapping_views(b@)),
{
    if a.len() != b.len() {
        assert(mapping_views(a@).len() != mapping_views(b@).len());
        return false;
    }
    let mut i: usize = 0;
    while i < a.len()
        invariant
            i <= a.len(),
            a.len() == b.len(),
            forall|j: int| 0 <= j < i ==> a@[j]@ == b@[j]@,
        decreases a.len() - i,
    {
        if a[i].remote != b[i].remote || a[i].local != b[i].local {
            assert(mapping_views(a@)[i as int] != mapping_views(b@)[i as int]);
            return false;
        }
        i = i + 1;
    }
    assert(mapping_views(a@) =~= mapping_views(b@));
    true
}

/// A mapping that was offered at place `i`.
pub open spec fn as_offered(offered: ArrRemotePathMapping) -> MappingView {
    MappingView { remote: offered.remote_path@, local: offered.local_path@ }
}

/// A mapping is adopted only where it is for the right download client and its local side
/// exists on this host, and every such mapping is adopted.
pub proof fn law_only_verified_mappings_are_adopted(
    arr: ArrConfig,
    offered: Seq<ArrRemotePathMapping>,
    present: Seq<bool>,
    m: MappingView,
)
    ensures
        sorted_out(arr, offered, present, true).contains(m) <==> exists|i: int|
            #![trigger offered[i]]
            0 <= i < offered.len() && as_offered(offered[i]) == m && for_host(arr, offered[i])
                && is_present(present, i),
    decreases offered.len(),
{
    let all = sorted_out(arr, offered, present, true);
    if offered.len() > 0 {
        let front = offered.drop_last();
        let rest = sorted_out(arr, front, present, true);
        law_only_verified_mappings_are_adopted(arr, front, present, m);
        let at = offered.len() - 1;
        if all.contains(m) {
            let k = choose|k: int| 0 <= k < all.len() && all[k] == m;
            if k < rest.len() {
                assert(rest[k] == m);
                assert(rest.contains(m));
                let i = choose|i: int|
                    #![trigger front[i]]
                    0 <= i < front.len() && as_offered(front[i]) == m && for_host(arr, front[i])
                        && is_present(present, i);
                assert(offered[i] == front[i]);
            } else {
                assert(as_offered(offered[at]) == m);
            }
        }
        if exists|i: int|
            #![trigger offered[i]]
            0 <= i < offered.len() && as_offered(offered[i]) == m && for_host(arr, offered[i])
                && is_present(present, i) {
            let i = choose|i: int|
                #![trigger offered[i]]
                0 <= i < offered.len() && as_offered(offered[i]) == m && for_host(arr, offered[i])
                    && is_present(present, i);
            if i < at {
                assert(front[i] == offered[i]);
                assert(rest.contains(m));
                let k = choose|k: int| 0 <= k < rest.len() && rest[k] == m;
                assert(all[k] == m);
            } else {
                assert(all[all.len() - 1] == m);
            }
        }
    }
}

/// Without a filter by host, each mapping that is offered is either adopted or skipped.
pub proof fn law_nothing_is_lost(
    arr: ArrConfig,
    offered: Seq<ArrRemotePathMapping>,
    present: Seq<bool>,
)
    requires
        arr.host is None,
    ensures
        sorted_out(arr, offered, present, true).len() + sorted_out(
            arr,
            offered,
            present,
            false,
        ).len() == offered.len(),
    decreases offered.len(),
{
    if offered.len() > 0 {
        law_nothing_is_lost(arr, offered.drop_last(), present);
    }
}

/// Within the refresh interval no instance is asked again: a collection that begins is
/// finished at once.
pub proof fn law_fresh_imports_are_not_fetched_again(
    cache: Map<Seq<char>, CachedMappings>,
    arrs: Seq<ArrConfig>,
    now: u64,
)
    requires
        forall|i: int| 0 <= i < arrs.len() ==> !stale(cache, #[trigger] arrs[i], now),
    ensures
        first_stale(cache, arrs, 0, now) == arrs.len(),
{
    lemma_first_stale(cache, arrs, 0, now);
}

/// An import is fresh until its refresh interval is over.
pub proof fn law_import_is_fresh_for_the_interval(
    cache: Map<Seq<char>, CachedMappings>,
    arr: ArrConfig,
    mappings: Vec<PathMapping>,
    fetched: u64,
    now: u64,
)
    requires
        fetched <= now,
    ensures
        stale(after_event(cache, arr, Event::Fetched { now: fetched, mappings }), arr, now) <==> now
            - fetched >= arr.refresh_secs() * 1_000_000_000,
{
}

/// After a failure the last good import is served again, and the instance is asked again in
/// the next cycle.
pub proof fn law_failure_keeps_the_last_import(
    cache: Map<Seq<char>, CachedMappings>,
    arr: ArrConfig,
    asked: u64,
    failed: u64,
    later: u64,
)
    requires
        stale(cache, arr, asked),
        asked <= later,
    ensures
        cached(after_event(cache, arr, Event::Failed { now: failed }), arr) == cached(cache, arr),
        stale(after_event(cache, arr, Event::Failed { now: failed }), arr, later),
{
}

/// The latest import wins over anything imported before, and leaves the other instances'
/// imports alone.
pub proof fn law_latest_import_wins(
    cache: Map<Seq<char>, CachedMappings>,
    arr: ArrConfig,
    other: ArrConfig,
    now: u64,
    mappings: Vec<PathMapping>,
)
    ensures
        cached(after_event(cache, arr, Event::Fetched { now, mappings }), arr) == mapping_views(
            mappings@,
        ),
        other.url@ != arr.url@ ==> cached(
            after_event(cache, arr, Event::Fetched { now, mappings }),
            other,
        ) == cached(cache, other),
{
}

/// Collecting ends: each answer moves the collection on, so an instance is asked at most
/// once, and only where it has to be.
pub proof fn law_each_instance_is_asked_at_most_once(
    cache: Map<Seq<char>, CachedMappings>,
    arrs: Seq<ArrConfig>,
    asked: int,
    now: u64,
)
    requires
        0 <= asked < arrs.len(),
    ensures
        asked < first_stale(cache, arrs, asked + 1, now) <= arrs.len(),
        first_stale(cache, arrs, asked + 1, now) < arrs.len() ==> stale(
            cache,
            arrs[first_stale(cache, arrs, asked + 1, now)],
            now,
        ),
{
    lemma_first_stale(cache, arrs, asked + 1, now);
}

/// The v3 API is asked first, and the v1 API exactly when v3 is not there; where neither is,
/// the import fails.
pub proof fn law_v1_is_asked_when_v3_is_not_there(
    arr: ArrConfig,
    first: ReplyView,
    second: ReplyView,
)
    ensures
        ({
            let v3 = mapping_request(arr, "/api/v3/remotepathmapping"@);
            let v1 = mapping_request(arr, "/api/v1/remotepathmapping"@);
            &&& fetch_step(arr, seq![]) == StepView::Send(v3)
            &&& !client::not_found(first) ==> fetch_step(arr, seq![first]) == client::verdict(
                v3.url,
                first,
            )
            &&& client::not_found(first) ==> fetch_step(arr, seq![first]) == StepView::Send(v1)
            &&& client::not_found(first) && client::not_found(second) ==> fetch_step(
                arr,
                seq![first, second],
            ) == StepView::Fail(ErrorView::NoMappingEndpoint { label: arr.shown_as() })
        }),
{
    let requests = seq![
        mapping_request(arr, "/api/v3/remotepathmapping"@),
        mapping_request(arr, "/api/v1/remotepathmapping"@),
    ];
    let missing = ErrorView::NoMappingEndpoint { label: arr.shown_as() };
    client::law_next_endpoint_is_asked(requests, seq![], missing);
    if client::not_found(first) {
        client::law_next_endpoint_is_asked(requests, seq![first], missing);
        if client::not_found(second) {
            client::law_next_endpoint_is_asked(requests, seq![first, second], missing);
        }
    } else {
        client::law_found_endpoint_settles(requests, seq![first], missing, 0);
    }
}

/// No two instances have the same URL.
pub open spec fn distinct_urls(arrs: Seq<ArrConfig>) -> bool {
    forall|i: int, j: int|
        0 <= i < arrs.len() && 0 <= j < arrs.len() && i != j ==> (#[trigger] arrs[i]).url@ != (
        #[trigger] arrs[j]).url@
}

proof fn lemma_served_unchanged(
    cache: Map<Seq<char>, CachedMappings>,
    arrs: Seq<ArrConfig>,
    at: int,
    event: Event,
    from: int,
    to: int,
)
    requires
        distinct_urls(arrs),
        0 <= from <= to <= at < arrs.len(),
    ensures
        served(after_event(cache, arrs[at], event), arrs, from, to) == served(
            cache,
            arrs,
            from,
            to,
        ),
    decreases to - from,
{
    if from < to {
        lemma_served_unchanged(cache, arrs, at, event, from, to - 1);
        assert(arrs[to - 1].url@ != arrs[at].url@);
    }
}

proof fn lemma_served_splits(
    cache: Map<Seq<char>, CachedMappings>,
    arrs: Seq<ArrConfig>,
    from: int,
    mid: int,
    to: int,
)
    requires
        from <= mid <= to,
    ensures
        served(cache, arrs, from, mid) + served(cache, arrs, mid, to) == served(
            cache,
            arrs,
            from,
            to,
        ),
    decreases to - mid,
{
    let head = served(cache, arrs, from, mid);
    if mid == to {
        assert(head + served(cache, arrs, mid, to) =~= head);
    } else {
        lemma_served_splits(cache, arrs, from, mid, to - 1);
        let more = cached(cache, arrs[to - 1]);
        assert(head + (served(cache, arrs, mid, to - 1) + more) =~= head + served(
            cache,
            arrs,
            mid,
            to - 1,
        ) + more);
    }
}

/// What is collected agrees with the cache: where it holds the imports of the instances
/// before the next one, it still does so after every event. A finished collection so holds
/// the current imports of all instances, in order.
pub proof fn law_collection_agrees_with_the_cache(
    cache: Map<Seq<char>, CachedMappings>,
    arrs: Seq<ArrConfig>,
    collected: Seq<MappingView>,
    next: int,
    event: Event,
    new_next: int,
)
    requires
        distinct_urls(arrs),
        0 <= next <= new_next <= arrs.len(),
        !(event is Begin) ==> next < arrs.len(),
        collected == served(cache, arrs, 0, next),
    ensures
        ({
            let after = after_event(cache, arrs[next], event);
            collected + served(after, arrs, next, new_next) == served(after, arrs, 0, new_next)
        }),
{
    let after = after_event(cache, arrs[next], event);
    if next < arrs.len() {
        lemma_served_unchanged(cache, arrs, next, event, 0, next);
    }
    lemma_served_splits(after, arrs, 0, next, new_next);
}

/// Each offered mapping is sorted out in its own place: it goes to the end of what came before
/// it, among those wanted, if it is meant for the filtered download client and its own local
/// side was found there (or not found, for the mappings to skip), and nowhere otherwise.
proof fn lemma_sorted_out_at(
    arr: ArrConfig,
    offered: Seq<ArrRemotePathMapping>,
    present: Seq<bool>,
    there: bool,
    i: int,
)
    requires
        0 <= i < offered.len(),
    ensures
        ({
            let m = offered[i];
            let meant = arr.host is None || text::same_ignoring_case(m.host@, (arr.host->0)@);
            let found = i < present.len() && present[i];
            let before = sorted_out(arr, offered.take(i), present, there);
            let after = sorted_out(arr, offered.take(i + 1), present, there);
            after == (if meant && found == there {
                before.push(MappingView { remote: m.remote_path@, local: m.local_path@ })
            } else {
                before
            })
        }),
        sorted_out(arr, offered.take(i + 1), present, there).is_prefix_of(
            sorted_out(arr, offered, present, there),
        ),
    decreases offered.len(),
{
    assert(offered.take(i + 1).drop_last() =~= offered.take(i));
    assert(offered.take(i + 1).last() == offered[i]);
    let front = offered.drop_last();
    if i < front.len() {
        lemma_sorted_out_at(arr, front, present, there, i);
        assert(front.take(i + 1) =~= offered.take(i + 1));
    } else {
        assert(offered.take(i + 1) =~= offered);
    }
}

/// A mapping that is meant for the filtered download client (every mapping, where there is no
/// filter) is adopted where its own local side was found on this host, and skipped where it was
/// not; what was found of the other mappings makes no difference to it.
pub proof fn law_each_mapping_is_judged_by_itself(
    arr: ArrConfig,
    offered: Seq<ArrRemotePathMapping>,
    present: Seq<bool>,
    i: int,
)
    requires
        0 <= i < offered.len(),
        i < present.len(),
        arr.host is None || text::same_ignoring_case(offered[i].host@, (arr.host->0)@),
    ensures
        ({
            let m = MappingView { remote: offered[i].remote_path@, local: offered[i].local_path@ };
            &&& present[i] ==> sorted_out(arr, offered, present, true).contains(m)
            &&& !present[i] ==> sorted_out(arr, offered, present, false).contains(m)
        }),
{
    let m = MappingView { remote: offered[i].remote_path@, local: offered[i].local_path@ };
    let there = present[i];
    lemma_sorted_out_at(arr, offered, present, there, i);
    let so_far = sorted_out(arr, offered.take(i + 1), present, there);
    let all = sorted_out(arr, offered, present, there);
    assert(so_far.last() == m);
    assert(all[so_far.len() - 1] == m);
}

/// The adopted and the skipped mappings are each in the order in which they were offered, one
/// for each place at which a mapping was offered that belongs there, and no others: with one
/// more mapping offered at the end, exactly one of the two grows by it, or neither where it is
/// meant for another download client.
pub proof fn law_mappings_are_sorted_out_in_order(
    arr: ArrConfig,
    offered: Seq<ArrRemotePathMapping>,
    present: Seq<bool>,
    i: int,
)
    requires
        0 <= i < offered.len(),
        i < present.len(),
    ensures
        sorted_out(arr, Seq::empty(), present, true) == Seq::<MappingView>::empty(),
        sorted_out(arr, Seq::empty(), present, false) == Seq::<MappingView>::empty(),
        ({
            let m = MappingView { remote: offered[i].remote_path@, local: offered[i].local_path@ };
            let meant = arr.host is None || text::same_ignoring_case(
                offered[i].host@,
                (arr.host->0)@,
            );
            let adopted = sorted_out(arr, offered.take(i), present, true);
            let skipped = sorted_out(arr, offered.take(i), present, false);
            &&& sorted_out(arr, offered.take(i + 1), present, true) == (if meant && present[i] {
                adopted.push(m)
            } else {
                adopted
            })
            &&& sorted_out(arr, offered.take(i + 1), present, false) == (if meant && !present[i] {
                skipped.push(m)
            } else {
                skipped
            })
        }),
        sorted_out(arr, offered.take(i + 1), present, true).is_prefix_of(
            sorted_out(arr, offered, present, true),
        ),
        sorted_out(arr, offered.take(i + 1), present, false).is_prefix_of(
            sorted_out(arr, offered, present, false),
        ),
{
    lemma_sorted_out_at(arr, offered, present, true, i);
    lemma_sorted_out_at(arr, offered, present, false, i);
}

/// A mapping of which nothing was found out counts as not found: it is skipped.
pub proof fn law_unchecked_mapping_is_skipped(
    arr: ArrConfig,
    offered: Seq<ArrRemotePathMapping>,
    present: Seq<bool>,
    i: int,
)
    requires
        present.len() <= i < offered.len(),
        arr.host is None || text::same_ignoring_case(offered[i].host@, (arr.host->0)@),
    ensures
        sorted_out(arr, offered.take(i + 1), present, false) == sorted_out(
            arr,
            offered.take(i),
            present,
            false,
        ).push(MappingView { remote: offered[i].remote_path@, local: offered[i].local_path@ }),
        sorted_out(arr, offered.take(i + 1), present, true) == sorted_out(
            arr,
            offered.take(i),
            present,
            true,
        ),
{
    lemma_sorted_out_at(arr, offered, present, true, i);
    lemma_sorted_out_at(arr, offered, present, false, i);
}

/// An instance is to be asked if it never answered, or if its refresh interval has passed since
/// it did; while the clock stands before its answer, only if the interval is zero.
pub proof fn law_instance_is_asked_when_its_interval_has_passed(
    cache: Map<Seq<char>, CachedMappings>,
    arr: ArrConfig,
    now: u64,
)
    ensures
        !cache.contains_key(arr.url@) ==> stale(cache, arr, now),
        cache.contains_key(arr.url@) && cache[arr.url@].fetched_at <= now ==> (stale(
            cache,
            arr,
            now,
        ) <==> now - cache[arr.url@].fetched_at >= arr.refresh_secs() * 1_000_000_000),
        cache.contains_key(arr.url@) && now < cache[arr.url@].fetched_at ==> (stale(
            cache,
            arr,
            now,
        ) <==> arr.refresh_secs() == 0),
{
}

/// The instance asked next is the first from `from` on that is to be asked; those passed over
/// are not.
pub proof fn law_next_instance_is_the_first_to_ask(
    cache: Map<Seq<char>, CachedMappings>,
    arrs: Seq<ArrConfig>,
    from: int,
    at: int,
    now: u64,
)
    requires
        0 <= from <= at <= arrs.len(),
        at < arrs.len() ==> stale(cache, arrs[at], now),
        forall|i: int| from <= i < at ==> !stale(cache, #[trigger] arrs[i], now),
    ensures
        first_stale(cache, arrs, from, now) == at,
{
    lemma_first_stale(cache, arrs, from, now);
    let found = first_stale(cache, arrs, from, now);
    if found < at {
        assert(!stale(cache, arrs[found], now));
    } else if found > at {
        assert(!stale(cache, arrs[at], now));
    }
}

/// The mappings of the instances from `from` to `to` are what the cache holds of each, in order
/// of the instances; an instance that the cache does not hold adds nothing.
pub proof fn law_mappings_are_served_in_order(
    cache: Map<Seq<char>, CachedMappings>,
    arrs: Seq<ArrConfig>,
    from: int,
    to: int,
)
    requires
        0 <= from <= to < arrs.len(),
    ensures
        served(cache, arrs, from, from) == Seq::<MappingView>::empty(),
        cache.contains_key(arrs[to].url@) ==> served(cache, arrs, from, to + 1) == served(
            cache,
            arrs,
            from,
            to,
        ) + cache[arrs[to].url@].mappings@.map_values(
            |m: PathMapping| MappingView { remote: m.remote@, local: m.local@ },
        ),
        !cache.contains_key(arrs[to].url@) ==> served(cache, arrs, from, to + 1) == served(
            cache,
            arrs,
            from,
            to,
        ),
{
    if cache.contains_key(arrs[to].url@) {
        assert(mapping_views(cache[arrs[to].url@].mappings@)
            =~= cache[arrs[to].url@].mappings@.map_values(
            |m: PathMapping| MappingView { remote: m.remote@, local: m.local@ },
        ));
    } else {
        assert(served(cache, arrs, from, to) + Seq::empty() =~= served(cache, arrs, from, to));
    }
}

/// Only an answer changes the cache, and only for the instance that gave it: the cache then
/// holds its mappings and the time at which they came.
pub proof fn law_only_answers_change_the_cache(
    cache: Map<Seq<char>, CachedMappings>,
    arr: ArrConfig,
    now: u64,
    mappings: Vec<PathMapping>,
    url: Seq<char>,
)
    ensures
        after_event(cache, arr, Event::Begin { now }) == cache,
        after_event(cache, arr, Event::Failed { now }) == cache,
        ({
            let after = after_event(cache, arr, Event::Fetched { now, mappings });
            &&& after.contains_key(arr.url@)
            &&& after[arr.url@].fetched_at == now
            &&& after[arr.url@].mappings@ == mappings@
            &&& url != arr.url@ ==> after.contains_key(url) == cache.contains_key(url)
            &&& url != arr.url@ && cache.contains_key(url) ==> after[url] == cache[url]
        }),
        (Event::Begin { now }).time() == now,
        (Event::Failed { now }).time() == now,
        (Event::Fetched { now, mappings }).time() == now,
{
}

/// The mappings are asked for below the instance's URL, without slashes at its end, with the
/// API key in its header; the answer's body is wanted.
pub proof fn law_mappings_are_asked_for_with_the_key(arr: ArrConfig, path: Seq<char>)
    ensures
        ({
            let r = mapping_request(arr, path);
            &&& r.method == Method::Get
            &&& r.url == text::trim_slashes(arr.url@) + path
            &&& r.headers == seq![("X-Api-Key"@, arr.api_key@)]
            &&& r.fields == Seq::<(Seq<char>, Seq<char>)>::empty()
            &&& r.reads_body
        }),
{
}

/// The view of a mapping holds both of its sides, and that of a sequence has the view of each
/// member in its place.
pub proof fn law_views_keep_places(mappings: Seq<PathMapping>, i: int)
    ensures
        mapping_views(mappings).len() == mappings.len(),
        0 <= i < mappings.len() ==> mapping_views(mappings)[i] == (MappingView {
            remote: mappings[i].remote@,
            local: mappings[i].local@,
        }),
{
}

} // verus!
