//! Torrents as qBittorrent reports them, and what is remembered of their states.
use crate::binary64::{Binary64, ONE_BITS};
use crate::name_map::NameMap;
use crate::text;
use vstd::prelude::*;

verus! {

/// The state of a torrent.
#[derive(Debug, Clone, Copy, PartialEq, Eq, Structural)]
pub enum TorrentState {
    Error,
    MissingFiles,
    Uploading,
    StoppedUpload,
    QueuedUpload,
    StalledUpload,
    CheckingUpload,
    ForcedUpload,
    Allocating,
    Downloading,
    MetadataDownload,
    ForcedMetadataDownload,
    StoppedDownload,
    QueuedDownload,
    StalledDownload,
    CheckingDownload,
    ForcedDownload,
    CheckingResumeData,
    Moving,
    Unknown,
}

/// The state that qBittorrent reports by the given name.
pub open spec fn state_named(name: Seq<char>) -> TorrentState {
    if name == "error"@ {
        TorrentState::Error
    } else if name == "missingFiles"@ {
        TorrentState::MissingFiles
    } else if name == "uploading"@ {
        TorrentState::Uploading
    } else if name == "stoppedUP"@ || name == "pausedUP"@ {
        TorrentState::StoppedUpload
    } else if name == "queuedUP"@ {
        TorrentState::QueuedUpload
    } else if name == "stalledUP"@ {
        TorrentState::StalledUpload
    } else if name == "checkingUP"@ {
        TorrentState::CheckingUpload
    } else if name == "forcedUP"@ {
        TorrentState::ForcedUpload
    } else if name == "allocating"@ {
        TorrentState::Allocating
    } else if name == "downloading"@ {
        TorrentState::Downloading
    } else if name == "metaDL"@ {
        TorrentState::MetadataDownload
    } else if name == "forcedMetaDL"@ {
        TorrentState::ForcedMetadataDownload
    } else if name == "stoppedDL"@ || name == "pausedDL"@ {
        TorrentState::StoppedDownload
    } else if name == "queuedDL"@ {
        TorrentState::QueuedDownload
    } else if name == "stalledDL"@ {
        TorrentState::StalledDownload
    } else if name == "checkingDL"@ {
        TorrentState::CheckingDownload
    } else if name == "forcedDL"@ {
        TorrentState::ForcedDownload
    } else if name == "checkingResumeData"@ {
        TorrentState::CheckingResumeData
    } else if name == "moving"@ {
        TorrentState::Moving
    } else {
        TorrentState::Unknown
    }
}

/// The name by which qBittorrent reports a state.
pub open spec fn name_of(state: TorrentState) -> Seq<char> {
    match state {
        TorrentState::Error => "error"@,
        TorrentState::MissingFiles => "missingFiles"@,
        TorrentState::Uploading => "uploading"@,
        TorrentState::StoppedUpload => "stoppedUP"@,
        TorrentState::QueuedUpload => "queuedUP"@,
        TorrentState::StalledUpload => "stalledUP"@,
        TorrentState::CheckingUpload => "checkingUP"@,
        TorrentState::ForcedUpload => "forcedUP"@,
        TorrentState::Allocating => "allocating"@,
        TorrentState::Downloading => "downloading"@,
        TorrentState::MetadataDownload => "metaDL"@,
        TorrentState::ForcedMetadataDownload => "forcedMetaDL"@,
        TorrentState::StoppedDownload => "stoppedDL"@,
        TorrentState::QueuedDownload => "queuedDL"@,
        TorrentState::StalledDownload => "stalledDL"@,
        TorrentState::CheckingDownload => "checkingDL"@,
        TorrentState::ForcedDownload => "forcedDL"@,
        TorrentState::CheckingResumeData => "checkingResumeData"@,
        TorrentState::Moving => "moving"@,
        TorrentState::Unknown => "unknown"@,
    }
}

/// A state is read back from its name.
pub proof fn law_state_names_read_back(state: TorrentState)
    ensures
        state_named(name_of(state)) == state,
{
    lemma_names_are_told_apart(state);
}

/// Each name, the two that are out of use too, is read as the state that it stands for.
proof fn lemma_names_are_told_apart(state: TorrentState)
    ensures
        state_named(name_of(state)) == state,
        state_named("pausedUP"@) == TorrentState::StoppedUpload,
        state_named("pausedDL"@) == TorrentState::StoppedDownload,
{
    reveal_strlit("error");
    assert("error"@.len() == 5);
    reveal_strlit("missingFiles");
    assert("missingFiles"@.len() == 12);
    reveal_strlit("uploading");
    assert("uploading"@.len() == 9);
    reveal_strlit("stoppedUP");
    assert("stoppedUP"@.len() == 9);
    reveal_strlit("pausedUP");
    assert("pausedUP"@.len() == 8);
    reveal_strlit("queuedUP");
    assert("queuedUP"@.len() == 8);
    reveal_strlit("stalledUP");
    assert("stalledUP"@.len() == 9);
    reveal_strlit("checkingUP");
    assert("checkingUP"@.len() == 10);
    reveal_strlit("forcedUP");
    assert("forcedUP"@.len() == 8);
    reveal_strlit("allocating");
    assert("allocating"@.len() == 10);
    reveal_strlit("downloading");
    assert("downloading"@.len() == 11);
    reveal_strlit("metaDL");
    assert("metaDL"@.len() == 6);
    reveal_strlit("forcedMetaDL");
    assert("forcedMetaDL"@.len() == 12);
    reveal_strlit("stoppedDL");
    assert("stoppedDL"@.len() == 9);
    reveal_strlit("pausedDL");
    assert("pausedDL"@.len() == 8);
    reveal_strlit("queuedDL");
    assert("queuedDL"@.len() == 8);
    reveal_strlit("stalledDL");
    assert("stalledDL"@.len() == 9);
    reveal_strlit("checkingDL");
    assert("checkingDL"@.len() == 10);
    reveal_strlit("forcedDL");
    assert("forcedDL"@.len() == 8);
    reveal_strlit("checkingResumeData");
    assert("checkingResumeData"@.len() == 18);
    reveal_strlit("moving");
    assert("moving"@.len() == 6);
    reveal_strlit("unknown");
    assert("unknown"@.len() == 7);
    // Names of the same length differ in these places.
    assert("uploading"@[0] == 'u' && "uploading"@[2] == 'l' && "uploading"@[7] == 'n');
    assert("stoppedUP"@[0] == 's' && "stoppedUP"@[2] == 'o' && "stoppedUP"@[7] == 'U');
    assert("stalledUP"@[0] == 's' && "stalledUP"@[2] == 'a' && "stalledUP"@[7] == 'U');
    assert("stoppedDL"@[0] == 's' && "stoppedDL"@[2] == 'o' && "stoppedDL"@[7] == 'D');
    assert("stalledDL"@[0] == 's' && "stalledDL"@[2] == 'a' && "stalledDL"@[7] == 'D');
    assert("pausedUP"@[0] == 'p' && "pausedUP"@[6] == 'U');
    assert("queuedUP"@[0] == 'q' && "queuedUP"@[6] == 'U');
    assert("forcedUP"@[0] == 'f' && "forcedUP"@[6] == 'U');
    assert("pausedDL"@[0] == 'p' && "pausedDL"@[6] == 'D');
    assert("queuedDL"@[0] == 'q' && "queuedDL"@[6] == 'D');
    assert("forcedDL"@[0] == 'f' && "forcedDL"@[6] == 'D');
    assert("checkingUP"@[0] == 'c' && "checkingUP"@[8] == 'U');
    assert("allocating"@[0] == 'a' && "allocating"@[8] == 'n');
    assert("checkingDL"@[0] == 'c' && "checkingDL"@[8] == 'D');
    assert("missingFiles"@[0] == 'm');
    assert("forcedMetaDL"@[0] == 'f');
    assert("metaDL"@[1] == 'e');
    assert("moving"@[1] == 'o');
}

impl TorrentState {
    /// Nothing is left to download.
    pub open spec fn finished(self) -> bool {
        ||| self == TorrentState::Uploading
        ||| self == TorrentState::StoppedUpload
        ||| self == TorrentState::QueuedUpload
        ||| self == TorrentState::StalledUpload
        ||| self == TorrentState::CheckingUpload
        ||| self == TorrentState::ForcedUpload
    }

    /// Something is wrong with the torrent or its files.
    pub open spec fn errored(self) -> bool {
        self == TorrentState::Error || self == TorrentState::MissingFiles
    }

    /// The state that qBittorrent reports by the given name; names that are not known give
    /// `Unknown`. The names of qBittorrent 4 and 5 are both understood.
    pub fn from_name(name: &str) -> (r: TorrentState)
        ensures
            r == state_named(name@),
    {
        if text::same(name, "error") {
            TorrentState::Error
        } else if text::same(name, "missingFiles") {
            TorrentState::MissingFiles
        } else if text::same(name, "uploading") {
            TorrentState::Uploading
        } else if text::same(name, "stoppedUP") || text::same(name, "pausedUP") {
            TorrentState::StoppedUpload
        } else if text::same(name, "queuedUP") {
            TorrentState::QueuedUpload
        } else if text::same(name, "stalledUP") {
            TorrentState::StalledUpload
        } else if text::same(name, "checkingUP") {
            TorrentState::CheckingUpload
        } else if text::same(name, "forcedUP") {
            TorrentState::ForcedUpload
        } else if text::same(name, "allocating") {
            TorrentState::Allocating
        } else if text::same(name, "downloading") {
            TorrentState::Downloading
        } else if text::same(name, "metaDL") {
            TorrentState::MetadataDownload
        } else if text::same(name, "forcedMetaDL") {
            TorrentState::ForcedMetadataDownload
        } else if text::same(name, "stoppedDL") || text::same(name, "pausedDL") {
            TorrentState::StoppedDownload
        } else if text::same(name, "queuedDL") {
            TorrentState::QueuedDownload
        } else if text::same(name, "stalledDL") {
            TorrentState::StalledDownload
        } else if text::same(name, "checkingDL") {
            TorrentState::CheckingDownload
        } else if text::same(name, "forcedDL") {
            TorrentState::ForcedDownload
        } else if text::same(name, "checkingResumeData") {
            TorrentState::CheckingResumeData
        } else if text::same(name, "moving") {
            TorrentState::Moving
        } else {
            TorrentState::Unknown
        }
    }

    /// The state with the given name, or nothing where no state has that name.
    pub fn known(name: &str) -> (r: Option<TorrentState>)
        ensures
            r == (if state_named(name@) == TorrentState::Unknown && name@ != "unknown"@ {
                None
            } else {
                Some(state_named(name@))
            }),
    {
        let state = TorrentState::from_name(name);
        if state == TorrentState::Unknown && !text::same(name, "unknown") {
            None
        } else {
            Some(state)
        }
    }

    /// The name by which qBittorrent 5 reports the state.
    pub fn name(&self) -> (r: &'static str)
        ensures
            r@ == name_of(*self),
    {
        match self {
            TorrentState::Error => "error",
            TorrentState::MissingFiles => "missingFiles",
            TorrentState::Uploading => "uploading",
            TorrentState::StoppedUpload => "stoppedUP",
            TorrentState::QueuedUpload => "queuedUP",
            TorrentState::StalledUpload => "stalledUP",
            TorrentState::CheckingUpload => "checkingUP",
            TorrentState::ForcedUpload => "forcedUP",
            TorrentState::Allocating => "allocating",
            TorrentState::Downloading => "downloading",
            TorrentState::MetadataDownload => "metaDL",
            TorrentState::ForcedMetadataDownload => "forcedMetaDL",
            TorrentState::StoppedDownload => "stoppedDL",
            TorrentState::QueuedDownload => "queuedDL",
            TorrentState::StalledDownload => "stalledDL",
            TorrentState::CheckingDownload => "checkingDL",
            TorrentState::ForcedDownload => "forcedDL",
            TorrentState::CheckingResumeData => "checkingResumeData",
            TorrentState::Moving => "moving",
            TorrentState::Unknown => "unknown",
        }
    }

    /// Whether nothing is left to download.
    pub fn download_finished(&self) -> (r: bool)
        ensures
            r == self.finished(),
    {
        match self {
            TorrentState::Uploading => true,
            TorrentState::StoppedUpload => true,
            TorrentState::QueuedUpload => true,
            TorrentState::StalledUpload => true,
            TorrentState::CheckingUpload => true,
            TorrentState::ForcedUpload => true,
            _ => false,
        }
    }

    /// Whether something is wrong with the torrent or its files.
    pub fn is_errored(&self) -> (r: bool)
        ensures
            r == self.errored(),
    {
        match self {
            TorrentState::Error => true,
            TorrentState::MissingFiles => true,
            _ => false,
        }
    }
}

/// One torrent of a server.
#[derive(Debug, Clone)]
pub struct Torrent {
    pub save_path: String,
    pub name: String,
    pub category: String,
    pub hash: String,
    /// Absolute path of the torrent's content on the qBittorrent host
    /// (root path for multi-file torrents, file path for single-file ones).
    /// Available since qBittorrent 4.2; preferred over `save_path` + `name`
    /// because it stays correct when a torrent's content is renamed.
    pub content_path: Option<String>,
    pub state: TorrentState,
    /// Tags, separated by commas.
    pub tags: String,
    /// Share of the payload that is there, from 0 to 1.
    pub progress: Binary64,
    /// Share ratio.
    pub ratio: Binary64,
    /// Seconds for which the torrent has been active.
    pub time_active: u64,
}

impl Default for Torrent {
    fn default() -> (r: Torrent)
        ensures
            r.save_path@.len() == 0,
            r.name@.len() == 0,
            r.category@.len() == 0,
            r.hash@.len() == 0,
            r.content_path is None,
            r.state == TorrentState::Unknown,
            r.tags@.len() == 0,
            r.progress.bits == 0,
            r.ratio.bits == 0,
            r.time_active == 0,
    {
        Torrent {
            save_path: String::new(),
            name: String::new(),
            category: String::new(),
            hash: String::new(),
            content_path: None,
            state: TorrentState::Unknown,
            tags: String::new(),
            progress: Binary64::default(),
            ratio: Binary64::default(),
            time_active: 0,
        }
    }
}

/// Whether a progress is complete: 1 or more.
pub open spec fn full(progress: Binary64) -> bool {
    progress.ge(Binary64 { bits: ONE_BITS })
}

impl Torrent {
    /// The tags, in order.
    pub open spec fn tag_views(self) -> Seq<Seq<char>> {
        text::non_blank(text::split_on(self.tags@, ','))
    }

    /// All of the payload is there.
    pub open spec fn complete(self) -> bool {
        full(self.progress)
    }

    /// The download is over and the payload may be moved.
    pub open spec fn movable(self) -> bool {
        self.state.finished() && self.complete()
    }

    /// The tags, in order, without blanks around them; blank ones are left out.
    pub fn tag_list(&self) -> (r: Vec<String>)
        ensures
            text::views(r@) == self.tag_views(),
    {
        text::comma_list(self.tags.as_str())
    }

    /// Whether all of the payload is there.
    pub fn is_download_complete(&self) -> (r: bool)
        ensures
            r == self.complete(),
    {
        self.progress.at_least(&Binary64::from_bits(ONE_BITS))
    }

    /// Whether the download is over and the payload may be moved.
    pub fn eligible_for_move(&self) -> (r: bool)
        ensures
            r == self.movable(),
    {
        self.state.download_finished() && self.is_download_complete()
    }

    /// Seconds for which the torrent has been active.
    pub fn active_duration(&self) -> (r: u64)
        ensures
            r == self.time_active,
    {
        self.time_active
    }
}

/// The state of each torrent of a listing, by hash. Of two entries with one hash the later
/// one counts.
pub open spec fn states_of(listing: Seq<Torrent>) -> Map<Seq<char>, TorrentState>
    decreases listing.len(),
{
    if listing.len() == 0 {
        Map::empty()
    } else {
        states_of(listing.drop_last()).insert(listing.last().hash@, listing.last().state)
    }
}

/// A torrent whose state is not what it was one cycle ago.
#[derive(Debug, Clone)]
pub struct Transition {
    pub name: String,
    pub from: TorrentState,
    pub to: TorrentState,
}

/// A transition, as mathematics sees it.
pub struct TransitionView {
    pub name: Seq<char>,
    pub from: TorrentState,
    pub to: TorrentState,
}

impl View for Transition {
    type V = TransitionView;

    open spec fn view(&self) -> TransitionView {
        TransitionView { name: self.name@, from: self.from, to: self.to }
    }
}

/// The views of a sequence of transitions.
pub open spec fn transition_views(v: Seq<Transition>) -> Seq<TransitionView> {
    Seq::new(v.len(), |i: int| v[i]@)
}

/// The torrents of a listing whose state differs from the one that `known` has for them, in
/// the order of the listing. Torrents that are not known yet are no transitions.
pub open spec fn transitions_of(
    listing: Seq<Torrent>,
    known: Map<Seq<char>, TorrentState>,
) -> Seq<TransitionView>
    decreases listing.len(),
{
    if listing.len() == 0 {
        Seq::empty()
    } else {
        let rest = transitions_of(listing.drop_last(), known);
        let t = listing.last();
        if known.contains_key(t.hash@) && known[t.hash@] != t.state {
            rest.push(TransitionView { name: t.name@, from: known[t.hash@], to: t.state })
        } else {
            rest
        }
    }
}

/// What one server's torrents were doing in the latest cycle and in the one before, so that
/// state transitions can be seen.
#[derive(Debug, Clone)]
pub struct StateTracker {
    pub previous: NameMap<TorrentState>,
    pub current: NameMap<TorrentState>,
}

impl Default for StateTracker {
    fn default() -> (r: StateTracker)
        ensures
            r.is_fresh(),
    {
        StateTracker { previous: NameMap::new(), current: NameMap::new() }
    }
}

impl StateTracker {
    /// Nothing has been observed yet.
    pub open spec fn is_fresh(self) -> bool {
        &&& self.previous@ == Map::<Seq<char>, TorrentState>::empty()
        &&& self.current@ == Map::<Seq<char>, TorrentState>::empty()
    }

    /// The state of a torrent one cycle ago.
    pub open spec fn state_before(self, hash: Seq<char>) -> Option<TorrentState> {
        if self.previous@.contains_key(hash) {
            Some(self.previous@[hash])
        } else {
            None
        }
    }

    /// Whether this is what `before` becomes by observing `listing`.
    pub open spec fn observed(self, before: StateTracker, listing: Seq<Torrent>) -> bool {
        &&& self.previous@ == before.current@
        &&& self.current@ == states_of(listing)
    }

    /// Records the state of every torrent of a cycle. What was recorded last becomes the
    /// previous cycle; torrents that are gone are forgotten one cycle later. The result lists
    /// the torrents whose state changed since then.
    pub fn observe(&mut self, torrents: &Vec<Torrent>) -> (r: Vec<Transition>)
        ensures
            final(self).observed(*old(self), torrents@),
            transition_views(r@) == transitions_of(torrents@, old(self).current@),
    {
        let mut seen: NameMap<TorrentState> = NameMap::new();
        let mut changed: Vec<Transition> = Vec::new();
        let ghost known = self.current@;
        let mut i: usize = 0;
        assert(transition_views(changed@) =~= transitions_of(torrents@.take(0), known));
        while i < torrents.len()
            invariant
                i <= torrents.len(),
                known == self.current@,
                *self == *old(self),
                seen@ == states_of(torrents@.take(i as int)),
                transition_views(changed@) == transitions_of(torrents@.take(i as int), known),
            decreases torrents.len() - i,
        {
            let torrent = &torrents[i];
            let ghost before = transition_views(changed@);
            assert(torrents@.take(i + 1).drop_last() =~= torrents@.take(i as int));
            assert(torrents@.take(i + 1).last() == torrent);
            if let Some(state) = self.current.get(torrent.hash.as_str()) {
                if *state != torrent.state {
                    changed.push(
                        Transition { name: torrent.name.clone(), from: *state, to: torrent.state },
                    );
                    assert(transition_views(changed@) =~= before.push(changed@.last()@));
                }
            }
            seen.insert(torrent.hash.clone(), torrent.state);
            i = i + 1;
        }
        assert(torrents@.take(i as int) =~= torrents@);
        std::mem::swap(&mut self.previous, &mut self.current);
        self.current = seen;
        changed
    }

    /// The state that the torrent was in on the previous cycle; nothing for a torrent that
    /// was not there then.
    pub fn previous_state(&self, hash: &str) -> (r: Option<TorrentState>)
        ensures
            r == self.state_before(hash@),
    {
        match self.previous.get(hash) {
            Some(state) => Some(*state),
            None => None,
        }
    }
}

/// Whether a listing has the hash.
pub open spec fn lists_hash(listing: Seq<Torrent>, hash: Seq<char>) -> bool {
    exists|i: int| 0 <= i < listing.len() && (#[trigger] listing[i]).hash@ == hash
}

/// The entry at place `at` is the last one with its hash.
pub open spec fn last_of_hash(listing: Seq<Torrent>, at: int) -> bool {
    forall|j: int| at < j < listing.len() ==> (#[trigger] listing[j]).hash@ != listing[at].hash@
}

proof fn lemma_states_domain(listing: Seq<Torrent>, hash: Seq<char>)
    ensures
        states_of(listing).contains_key(hash) <==> lists_hash(listing, hash),
    decreases listing.len(),
{
    if listing.len() > 0 {
        let rest = listing.drop_last();
        lemma_states_domain(rest, hash);
        if listing.last().hash@ == hash {
            assert(listing[listing.len() - 1].hash@ == hash);
        } else if lists_hash(rest, hash) {
            let i = choose|i: int| 0 <= i < rest.len() && (#[trigger] rest[i]).hash@ == hash;
            assert(listing[i].hash@ == hash);
        } else if lists_hash(listing, hash) {
            let i = choose|i: int| 0 <= i < listing.len() && (#[trigger] listing[i]).hash@ == hash;
            assert(rest[i].hash@ == hash);
        }
    }
}

proof fn lemma_states_value(listing: Seq<Torrent>, at: int)
    requires
        0 <= at < listing.len(),
        last_of_hash(listing, at),
    ensures
        states_of(listing).contains_key(listing[at].hash@),
        states_of(listing)[listing[at].hash@] == listing[at].state,
    decreases listing.len(),
{
    let rest = listing.drop_last();
    if at < rest.len() {
        assert(listing[listing.len() - 1].hash@ != listing[at].hash@);
        assert(rest[at] == listing[at]);
        assert forall|j: int| at < j < rest.len() implies (#[trigger] rest[j]).hash@
            != rest[at].hash@ by {
            assert(rest[j] == listing[j]);
        }
        lemma_states_value(rest, at);
    }
}

/// After two cycles, the state before of a torrent is the one that the first of the two
/// listings has for it, whatever the tracker held: nothing where it was not listed, else the
/// state of its last entry.
pub proof fn law_previous_state_is_one_cycle_back(
    start: StateTracker,
    middle: StateTracker,
    end: StateTracker,
    first: Seq<Torrent>,
    second: Seq<Torrent>,
    hash: Seq<char>,
)
    requires
        middle.observed(start, first),
        end.observed(middle, second),
    ensures
        end.state_before(hash) is None <==> !lists_hash(first, hash),
        forall|i: int|
            #![trigger last_of_hash(first, i)]
            0 <= i < first.len() && first[i].hash@ == hash && last_of_hash(first, i)
                ==> end.state_before(hash) == Some(first[i].state),
{
    lemma_states_domain(first, hash);
    assert forall|i: int|
        #![trigger last_of_hash(first, i)]
        0 <= i < first.len() && first[i].hash@ == hash && last_of_hash(
            first,
            i,
        ) implies end.state_before(hash) == Some(first[i].state) by {
        lemma_states_value(first, i);
    }
}

/// In the first cycle no torrent has a previous state and nothing counts as a transition.
pub proof fn law_first_cycle_has_no_history(
    start: StateTracker,
    end: StateTracker,
    listing: Seq<Torrent>,
    hash: Seq<char>,
)
    requires
        start.is_fresh(),
        end.observed(start, listing),
    ensures
        end.state_before(hash) is None,
        transitions_of(listing, start.current@) == Seq::<TransitionView>::empty(),
    decreases listing.len(),
{
    lemma_nothing_known(listing);
}

proof fn lemma_nothing_known(listing: Seq<Torrent>)
    ensures
        transitions_of(listing, Map::empty()) == Seq::<TransitionView>::empty(),
    decreases listing.len(),
{
    if listing.len() > 0 {
        lemma_nothing_known(listing.drop_last());
    }
}

/// Every transition that is reported is a change of state.
pub proof fn law_transitions_are_changes(
    listing: Seq<Torrent>,
    known: Map<Seq<char>, TorrentState>,
)
    ensures
        forall|i: int|
            0 <= i < transitions_of(listing, known).len() ==> (#[trigger] transitions_of(
                listing,
                known,
            )[i]).from != transitions_of(listing, known)[i].to,
        transitions_of(listing, known).len() <= listing.len(),
    decreases listing.len(),
{
    if listing.len() > 0 {
        law_transitions_are_changes(listing.drop_last(), known);
    }
}

/// A state counts as finished exactly when qBittorrent's name for it is `uploading` or ends in
/// `UP`, and as errored when its name is `error` or `missingFiles`.
pub proof fn law_names_tell_finished_and_errored(state: TorrentState)
    ensures
        state.finished() <==> name_of(state) == "uploading"@ || text::ends_with(
            name_of(state),
            seq!['U', 'P'],
        ),
        state.errored() <==> name_of(state) == "error"@ || name_of(state) == "missingFiles"@,
{
    law_state_names_read_back(state);
    law_state_names_read_back(TorrentState::Uploading);
    law_state_names_read_back(TorrentState::Error);
    law_state_names_read_back(TorrentState::MissingFiles);
    text::lemma_ends_with_two(name_of(state), 'U', 'P');
    reveal_strlit("error");
    reveal_strlit("missingFiles");
    reveal_strlit("uploading");
    reveal_strlit("stoppedUP");
    reveal_strlit("queuedUP");
    reveal_strlit("stalledUP");
    reveal_strlit("checkingUP");
    reveal_strlit("forcedUP");
    reveal_strlit("allocating");
    reveal_strlit("downloading");
    reveal_strlit("metaDL");
    reveal_strlit("forcedMetaDL");
    reveal_strlit("stoppedDL");
    reveal_strlit("queuedDL");
    reveal_strlit("stalledDL");
    reveal_strlit("checkingDL");
    reveal_strlit("forcedDL");
    reveal_strlit("checkingResumeData");
    reveal_strlit("moving");
    reveal_strlit("unknown");
}

/// A payload is complete exactly when the progress is a number from 1 on, by its bits.
pub proof fn law_complete_from_one_on(t: Torrent)
    ensures
        t.complete() <==> 0x3ff0_0000_0000_0000 <= t.progress.bits <= 0x7ff0_0000_0000_0000,
        t.movable() <==> t.state.finished() && t.complete(),
{
    crate::binary64::law_numbers_order_by_their_bits(t.progress, Binary64 { bits: ONE_BITS });
}

/// A text of tags without a comma is one tag, or none where it is blank; a comma puts the tags
/// on its two sides side by side.
pub proof fn law_tags_stand_between_commas(t: Torrent, left: Torrent, right: Torrent)
    ensures
        !t.tags@.contains(',') ==> t.tag_views() == (if text::trimmed(t.tags@).len() == 0 {
            Seq::<Seq<char>>::empty()
        } else {
            seq![text::trimmed(t.tags@)]
        }),
        t.tags@ == left.tags@ + seq![','] + right.tags@ ==> t.tag_views() == left.tag_views()
            + right.tag_views(),
{
    if !t.tags@.contains(',') {
        text::lemma_split_none(t.tags@, ',');
        reveal_with_fuel(text::non_blank, 2);
        assert(seq![t.tags@].drop_last() =~= Seq::<Seq<char>>::empty());
        assert(t.tag_views() =~= (if text::trimmed(t.tags@).len() == 0 {
            Seq::<Seq<char>>::empty()
        } else {
            seq![text::trimmed(t.tags@)]
        }));
    }
    if t.tags@ == left.tags@ + seq![','] + right.tags@ {
        text::lemma_split_at(left.tags@, right.tags@, ',');
        lemma_non_blank_concat(
            text::split_on(left.tags@, ','),
            text::split_on(right.tags@, ','),
        );
    }
}

proof fn lemma_non_blank_concat(a: Seq<Seq<char>>, b: Seq<Seq<char>>)
    ensures
        text::non_blank(a + b) == text::non_blank(a) + text::non_blank(b),
    decreases b.len(),
{
    if b.len() == 0 {
        assert(a + b =~= a);
        assert(text::non_blank(a) + text::non_blank(b) =~= text::non_blank(a));
    } else {
        assert((a + b).drop_last() =~= a + b.drop_last());
        assert((a + b).last() == b.last());
        lemma_non_blank_concat(a, b.drop_last());
        assert(text::non_blank(a + b) =~= text::non_blank(a) + text::non_blank(b));
    }
}

/// Every torrent that was known with another state is reported with its name, the state it had
/// and the state it has; nothing else is reported, and the reports keep the order of the listing.
pub proof fn law_every_change_is_reported(
    listing: Seq<Torrent>,
    known: Map<Seq<char>, TorrentState>,
    i: int,
)
    requires
        0 <= i < listing.len(),
    ensures
        ({
            let before = transitions_of(listing.take(i), known);
            let after = transitions_of(listing.take(i + 1), known);
            let t = listing[i];
            if known.contains_key(t.hash@) && known[t.hash@] != t.state {
                after == before.push(
                    TransitionView { name: t.name@, from: known[t.hash@], to: t.state },
                )
            } else {
                after == before
            }
        }),
        transitions_of(listing.take(i), known).is_prefix_of(transitions_of(listing, known)),
    decreases listing.len(),
{
    assert(listing.take(i + 1).drop_last() =~= listing.take(i));
    assert(listing.take(i + 1).last() == listing[i]);
    let front = listing.drop_last();
    if i < front.len() {
        law_every_change_is_reported(front, known, i);
        assert(front.take(i) =~= listing.take(i));
    } else {
        assert(listing.take(i) =~= front);
    }
}

/// The name that qBittorrent has for each state. It had other names for the stopped states once,
/// which mean the same; a name that it does not have means a state that is not known.
pub proof fn law_each_state_has_its_name(name: Seq<char>)
    ensures
        name_of(TorrentState::Error) == "error"@,
        name_of(TorrentState::MissingFiles) == "missingFiles"@,
        name_of(TorrentState::Uploading) == "uploading"@,
        name_of(TorrentState::StoppedUpload) == "stoppedUP"@,
        name_of(TorrentState::QueuedUpload) == "queuedUP"@,
        name_of(TorrentState::StalledUpload) == "stalledUP"@,
        name_of(TorrentState::CheckingUpload) == "checkingUP"@,
        name_of(TorrentState::ForcedUpload) == "forcedUP"@,
        name_of(TorrentState::Allocating) == "allocating"@,
        name_of(TorrentState::Downloading) == "downloading"@,
        name_of(TorrentState::MetadataDownload) == "metaDL"@,
        name_of(TorrentState::ForcedMetadataDownload) == "forcedMetaDL"@,
        name_of(TorrentState::StoppedDownload) == "stoppedDL"@,
        name_of(TorrentState::QueuedDownload) == "queuedDL"@,
        name_of(TorrentState::StalledDownload) == "stalledDL"@,
        name_of(TorrentState::CheckingDownload) == "checkingDL"@,
        name_of(TorrentState::ForcedDownload) == "forcedDL"@,
        name_of(TorrentState::CheckingResumeData) == "checkingResumeData"@,
        name_of(TorrentState::Moving) == "moving"@,
        name_of(TorrentState::Unknown) == "unknown"@,
        state_named("pausedUP"@) == TorrentState::StoppedUpload,
        state_named("pausedDL"@) == TorrentState::StoppedDownload,
        state_named(name) != TorrentState::Unknown ==> name == name_of(state_named(name)) || name
            == "pausedUP"@ || name == "pausedDL"@,
{
    lemma_names_are_told_apart(TorrentState::Unknown);
}

/// What a tracker holds after a cycle: of the cycle before, what it held as the latest; of the
/// latest, a state for each hash that was listed and for no other, and for a hash that was
/// listed more than once the state that was listed last.
pub proof fn law_tracker_holds_two_cycles(
    before: StateTracker,
    after: StateTracker,
    listing: Seq<Torrent>,
    hash: Seq<char>,
    at: int,
)
    requires
        after.observed(before, listing),
    ensures
        before.current@.contains_key(hash) ==> after.state_before(hash) == Some(
            before.current@[hash],
        ),
        !before.current@.contains_key(hash) ==> after.state_before(hash) is None,
        after.current@.contains_key(hash) <==> exists|i: int|
            0 <= i < listing.len() && (#[trigger] listing[i]).hash@ == hash,
        0 <= at < listing.len() && (forall|j: int|
            at < j < listing.len() ==> (#[trigger] listing[j]).hash@ != listing[at].hash@)
            ==> after.current@[listing[at].hash@] == listing[at].state,
{
    lemma_states_domain(listing, hash);
    if 0 <= at < listing.len() && (forall|j: int|
        at < j < listing.len() ==> (#[trigger] listing[j]).hash@ != listing[at].hash@) {
        lemma_states_value(listing, at);
    }
}

/// The view of a transition holds all that it holds, and that of a sequence has the view of each
/// member in its place.
pub proof fn law_views_keep_places(transitions: Seq<Transition>, i: int)
    ensures
        transition_views(transitions).len() == transitions.len(),
        0 <= i < transitions.len() ==> transition_views(transitions)[i] == (TransitionView {
            name: transitions[i].name@,
            from: transitions[i].from,
            to: transitions[i].to,
        }),
{
}

} // verus!
