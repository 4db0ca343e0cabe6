//! The configuration: servers, rules, default behaviors and durations.
use crate::binary64::Binary64;
use crate::name_map::NameMap;
use crate::text;
use crate::torrent::TorrentState;
use vstd::prelude::*;

verus! {

/// Name of the configuration file.
pub const CONFIG_FILE: &'static str = "config.yaml";

/// The destination that stands for "the save path that qBittorrent has for the category".
pub const AUTO_DESTINATION: &'static str = "auto";

/// The whole configuration.
#[derive(Debug, Clone)]
pub struct Config {
    pub servers: Vec<ServerConfig>,
    /// Seconds to wait between polling cycles.
    pub rate_limit_delay: u64,
    pub log_file: String,
    /// Maximum log file size, e.g. "500K", "10M", "10MB", "1GB".
    pub max_log_file_size: String,
}

/// What happens to a torrent of a mapped category once it is complete.
#[derive(Debug, Clone, Copy, PartialEq, Eq, Structural)]
pub enum AfterMove {
    /// qBittorrent relocates the payload and goes on seeding it.
    KeepSeeding,
    /// The payload is moved on this host and the torrent is removed.
    Remove,
}

/// One qBittorrent server.
#[derive(Debug, Clone)]
pub struct ServerConfig {
    pub qbit_url: String,
    /// WebUI username. Leave empty to skip authentication (for WebUI
    /// setups with authentication bypass enabled).
    pub username: String,
    pub password: String,
    /// Maps a qBittorrent category to the directory completed torrents in
    /// that category should be moved to.
    pub categories: NameMap<String>,
    /// Local path that replaces `path_prefix` when mapping remote
    /// qBittorrent paths onto the local filesystem.
    pub root_path: Option<String>,
    /// Prefix of paths as reported by qBittorrent (e.g. a container or
    /// remote mount path) to strip before prepending `root_path`.
    pub path_prefix: Option<String>,
    pub after_move: AfterMove,
    /// Categories whose torrents are never touched.
    pub ignore_categories: Vec<String>,
    /// User rules, in order of precedence.
    pub rules: Vec<Rule>,
    pub behaviors: BehaviorConfig,
    /// *arr instances to import remote path mappings from.
    pub arr: Vec<ArrConfig>,
}

/// One *arr instance.
#[derive(Debug, Clone)]
pub struct ArrConfig {
    pub name: String,
    pub url: String,
    pub api_key: String,
    /// Only mappings of this download client host are imported.
    pub host: Option<String>,
    /// How long imported mappings are good for, e.g. "60s".
    pub refresh: String,
}

/// The built-in behaviors.
#[derive(Debug, Clone)]
pub struct BehaviorConfig {
    pub delete: DeleteConfig,
    pub forced_seeding_limit: ForcedSeedingLimitConfig,
    pub send_to_seeding: SendToSeedingConfig,
}

/// How payloads are deleted.
#[derive(Debug, Clone)]
pub struct DeleteConfig {
    /// Move payloads to the trash of this host.
    pub use_trash: bool,
    /// Where torrents wait for a retry when the trash is not available.
    pub fallback_category: String,
}

/// When a torrent with forced seeding has seeded enough.
#[derive(Debug, Clone)]
pub struct ForcedSeedingLimitConfig {
    pub enabled: bool,
    pub max_time_active: Option<String>,
    pub max_ratio: Option<Binary64>,
}

/// Where torrents go that finish downloading.
#[derive(Debug, Clone)]
pub struct SendToSeedingConfig {
    pub enabled: bool,
    pub category: String,
    /// Create the category when it does not exist.
    pub create_category: bool,
    pub clear_tags: bool,
}

/// A user rule: conditions, and what to do when all of them hold.
#[derive(Debug, Clone)]
pub struct Rule {
    pub name: Option<String>,
    pub when: RuleMatch,
    pub then: Vec<RuleAction>,
}

impl Rule {
    /// The actions, in order.
    pub open spec fn actions(self) -> Seq<RuleAction> {
        match self {
            Rule { then: actions, .. } => actions@,
        }
    }
}

/// The conditions of a rule. One that is left out holds for every torrent.
#[derive(Debug, Clone)]
pub struct RuleMatch {
    /// The state is one of these.
    pub states: Option<Vec<TorrentState>>,
    /// The state changed, and was one of these before.
    pub from_states: Option<Vec<TorrentState>>,
    /// The category is one of these.
    pub categories: Option<Vec<String>>,
    /// At least one of the tags is one of these.
    pub tags: Option<Vec<String>>,
    /// The download is complete, or is not.
    pub complete: Option<bool>,
    /// The torrent has been active for at least this long, e.g. "1d".
    pub min_time_active: Option<String>,
    /// The share ratio is at least this.
    pub min_ratio: Option<Binary64>,
}

/// What a rule does.
#[derive(Debug, Clone)]
pub enum RuleAction {
    SetCategory(String),
    AddTags(Vec<String>),
    RemoveTags(Vec<String>),
    ClearTags,
    Stop,
    Start,
    Recheck,
    /// Move the payload to this directory and remove the torrent.
    MoveFiles(String),
    /// Remove the torrent and keep its files.
    Remove,
    /// Remove the torrent with its files.
    RemoveWithData,
    /// Delete the payload as `DeleteConfig` says.
    Delete,
    Nothing,
}

/// Seconds between polling cycles where the configuration does not say.
pub fn default_rate_limit_delay() -> (r: u64)
    ensures
        r == 5,
{
    5
}

/// Log file where the configuration does not say.
pub fn default_log_file() -> (r: String)
    ensures
        r@ == "qbittorrent-mover.log"@,
{
    "qbittorrent-mover.log".to_owned()
}

/// Log file size where the configuration does not say.
pub fn default_max_log_file_size() -> (r: String)
    ensures
        r@ == "10M"@,
{
    "10M".to_owned()
}

/// What happens to a moved torrent where the configuration does not say.
pub fn default_after_move() -> (r: AfterMove)
    ensures
        r == AfterMove::KeepSeeding,
{
    AfterMove::KeepSeeding
}

/// Refresh interval of an *arr instance where the configuration does not say.
pub fn default_refresh() -> (r: String)
    ensures
        r@ == "60s"@,
{
    "60s".to_owned()
}

impl Default for Config {
    fn default() -> (r: Config)
        ensures
            r.servers@.len() == 0,
            r.rate_limit_delay == 5,
            r.log_file@ == "qbittorrent-mover.log"@,
            r.max_log_file_size@ == "10M"@,
    {
        Config {
            servers: Vec::new(),
            rate_limit_delay: default_rate_limit_delay(),
            log_file: default_log_file(),
            max_log_file_size: default_max_log_file_size(),
        }
    }
}

impl Default for ServerConfig {
    fn default() -> (r: ServerConfig)
        ensures
            r.qbit_url@ == "http://localhost:8080"@,
            r.username@ == "admin"@,
            r.password@ == "adminadmin"@,
            r.categories@ == Map::<Seq<char>, String>::empty(),
            r.root_path is None,
            r.path_prefix is None,
            r.after_move == AfterMove::Remove,
            r.ignore_categories@.len() == 0,
            r.rules@.len() == 0,
            r.behaviors.is_default(),
            r.arr@.len() == 0,
    {
        ServerConfig {
            qbit_url: "http://localhost:8080".to_owned(),
            username: "admin".to_owned(),
            password: "adminadmin".to_owned(),
            categories: NameMap::new(),
            root_path: None,
            path_prefix: None,
            after_move: AfterMove::Remove,
            ignore_categories: Vec::new(),
            rules: Vec::new(),
            behaviors: BehaviorConfig::default(),
            arr: Vec::new(),
        }
    }
}

impl DeleteConfig {
    pub open spec fn is_default(self) -> bool {
        self.use_trash && self.fallback_category@ == "Delete"@
    }
}

impl Default for DeleteConfig {
    fn default() -> (r: DeleteConfig)
        ensures
            r.is_default(),
    {
        DeleteConfig { use_trash: true, fallback_category: "Delete".to_owned() }
    }
}

impl ForcedSeedingLimitConfig {
    pub open spec fn is_default(self) -> bool {
        &&& self.enabled
        &&& self.max_time_active matches Some(t)
        &&& t@ == "7d"@
        &&& self.max_ratio is None
    }
}

impl Default for ForcedSeedingLimitConfig {
    fn default() -> (r: ForcedSeedingLimitConfig)
        ensures
            r.is_default(),
    {
        ForcedSeedingLimitConfig {
            enabled: true,
            max_time_active: Some("7d".to_owned()),
            max_ratio: None,
        }
    }
}

impl SendToSeedingConfig {
    pub open spec fn is_default(self) -> bool {
        self.enabled && self.category@ == "Seeding"@ && self.create_category && self.clear_tags
    }
}

impl Default for SendToSeedingConfig {
    fn default() -> (r: SendToSeedingConfig)
        ensures
            r.is_default(),
    {
        SendToSeedingConfig {
            enabled: true,
            category: "Seeding".to_owned(),
            create_category: true,
            clear_tags: true,
        }
    }
}

impl BehaviorConfig {
    pub open spec fn is_default(self) -> bool {
        &&& self.delete.is_default()
        &&& self.forced_seeding_limit.is_default()
        &&& self.send_to_seeding.is_default()
    }
}

impl Default for BehaviorConfig {
    fn default() -> (r: BehaviorConfig)
        ensures
            r.is_default(),
    {
        BehaviorConfig {
            delete: DeleteConfig::default(),
            forced_seeding_limit: ForcedSeedingLimitConfig::default(),
            send_to_seeding: SendToSeedingConfig::default(),
        }
    }
}

impl RuleMatch {
    /// No condition at all.
    pub open spec fn is_empty(self) -> bool {
        &&& self.states is None
        &&& self.from_states is None
        &&& self.categories is None
        &&& self.tags is None
        &&& self.complete is None
        &&& self.min_time_active is None
        &&& self.min_ratio is None
    }
}

impl Default for RuleMatch {
    fn default() -> (r: RuleMatch)
        ensures
            r.is_empty(),
    {
        RuleMatch {
            states: None,
            from_states: None,
            categories: None,
            tags: None,
            complete: None,
            min_time_active: None,
            min_ratio: None,
        }
    }
}

/// A text that is not a duration.
#[derive(Debug, Clone, PartialEq)]
pub struct DurationError {
    pub duration: String,
}

/// The seconds that an upper-case unit letter stands for.
pub open spec fn unit_seconds(unit: char) -> Option<nat> {
    if unit == 'S' {
        Some(1)
    } else if unit == 'M' {
        Some(60)
    } else if unit == 'H' {
        Some(3600)
    } else if unit == 'D' {
        Some(86400)
    } else {
        None
    }
}

/// The seconds that a duration like "90s", "5m", "1h" or "7d" denotes: a number and a unit
/// letter of either case.
pub open spec fn duration_secs(duration: Seq<char>) -> Option<nat> {
    let whole = text::trimmed(duration);
    if whole.len() == 0 {
        None
    } else {
        match (text::number(text::trimmed(whole.drop_last())), unit_seconds(
            text::upper(whole.last()),
        )) {
            (Some(n), Some(unit)) if n * unit <= u64::MAX => Some(n * unit),
            _ => None,
        }
    }
}

fn seconds_of(unit: char) -> (r: Option<u64>)
    ensures
        r matches Some(n) ==> unit_seconds(unit) == Some(n as nat),
        r is None ==> unit_seconds(unit) is None,
{
    match unit {
        'S' => Some(1),
        'M' => Some(60),
        'H' => Some(3600),
        'D' => Some(86400),
        _ => None,
    }
}

/// Parses a duration like "90s", "5m", "1h" or "7d" into seconds.
pub fn parse_duration(duration: &str) -> (r: Result<u64, DurationError>)
    ensures
        r matches Ok(n) ==> duration_secs(duration@) == Some(n as nat),
        r matches Err(e) ==> duration_secs(duration@) is None && e.duration@ == duration@,
{
    let v = text::chars_of(duration);
    let (a, b) = text::trim_range(&v, 0, v.len());
    assert(v@.subrange(0, v@.len() as int) =~= duration@);
    let ghost whole = text::trimmed(duration@);
    if a < b {
        let (c, d) = text::trim_range(&v, a, b - 1);
        assert(v@.subrange(a as int, b - 1) =~= whole.drop_last());
        assert(v@[b - 1] == whole.last());
        if let Ok(n) = text::parse_range(&v, c, d) {
            if let Some(unit) = seconds_of(text::to_upper(v[b - 1])) {
                if let Some(total) = n.checked_mul(unit) {
                    return Ok(total);
                }
            }
        }
    }
    Err(DurationError { duration: duration.to_owned() })
}

impl ArrConfig {
    /// The name to show: the configured one, or the URL.
    pub open spec fn shown_as(self) -> Seq<char> {
        if self.name@.len() == 0 {
            self.url@
        } else {
            self.name@
        }
    }

    /// The refresh interval in seconds; a minute where the setting is not a duration.
    pub open spec fn refresh_secs(self) -> nat {
        match duration_secs(self.refresh@) {
            Some(n) => n,
            None => 60,
        }
    }

    /// The name to show for this instance.
    pub fn label(&self) -> (r: &str)
        ensures
            r@ == self.shown_as(),
    {
        if self.name.as_str().is_empty() {
            self.url.as_str()
        } else {
            self.name.as_str()
        }
    }

    /// How many seconds imported mappings are good for.
    pub fn refresh_interval(&self) -> (r: u64)
        ensures
            r == self.refresh_secs(),
    {
        match parse_duration(self.refresh.as_str()) {
            Ok(n) => n,
            Err(_) => 60,
        }
    }
}

/// Digits with a unit letter behind them denote that many times the unit, in either case of
/// the letter, as long as the seconds fit.
pub proof fn law_duration_is_number_times_unit(digits: Seq<char>, letter: char)
    requires
        text::all_digits(digits),
        text::digits_value(digits) <= u64::MAX,
        unit_seconds(text::upper(letter)) is Some,
    ensures
        duration_secs(digits.push(letter)) == ({
            let total = text::digits_value(digits) * unit_seconds(text::upper(letter))->0;
            if total <= u64::MAX {
                Some(total)
            } else {
                None
            }
        }),
{
    let whole = digits.push(letter);
    let d = digits.len() as int;
    assert(text::is_digit(digits[0]));
    assert(text::is_digit(digits[d - 1]));
    assert(whole[0] == digits[0]);
    text::lemma_trimmed_same(whole);
    text::lemma_trimmed_same(digits);
    assert(whole.drop_last() =~= digits);
    assert(digits[0] != '+');
}

/// A text is a duration exactly when, without white space around it, it is a number and one of
/// the unit letters, in either case; it then denotes that many seconds, minutes, hours or days.
pub proof fn law_duration_has_number_and_unit(duration: Seq<char>)
    ensures
        ({
            let whole = text::trimmed(duration);
            let letter = whole.last();
            let count = text::number(text::trimmed(whole.drop_last()));
            let unit: nat = if letter == 's' || letter == 'S' {
                1
            } else if letter == 'm' || letter == 'M' {
                60
            } else if letter == 'h' || letter == 'H' {
                3600
            } else if letter == 'd' || letter == 'D' {
                86400
            } else {
                0
            };
            if whole.len() > 0 && unit > 0 && count is Some && count->0 * unit <= u64::MAX {
                duration_secs(duration) == Some(count->0 * unit)
            } else {
                duration_secs(duration) is None
            }
        }),
{
    let letter = text::trimmed(duration).last();
    text::lemma_upper(letter);
    text::lemma_code_tells(letter, 's');
    text::lemma_code_tells(letter, 'm');
    text::lemma_code_tells(letter, 'h');
    text::lemma_code_tells(letter, 'd');
    text::lemma_code_tells(text::upper(letter), 'S');
    text::lemma_code_tells(text::upper(letter), 'M');
    text::lemma_code_tells(text::upper(letter), 'H');
    text::lemma_code_tells(text::upper(letter), 'D');
}

/// An instance is asked again after its refresh interval, or after a minute where the setting
/// is no duration; it is shown by its name, or by its URL where it has none.
pub proof fn law_instance_settings(arr: ArrConfig)
    ensures
        duration_secs(arr.refresh@) matches Some(secs) ==> arr.refresh_secs() == secs,
        duration_secs(arr.refresh@) is None ==> arr.refresh_secs() == 60,
        arr.name@.len() > 0 ==> arr.shown_as() == arr.name@,
        arr.name@.len() == 0 ==> arr.shown_as() == arr.url@,
{
}

/// By default torrents are deleted through the trash, forced uploads end after a week, and what
/// has finished is sent to seeding with its tags cleared.
pub proof fn law_default_behaviors(b: BehaviorConfig)
    requires
        b.is_default(),
    ensures
        b.delete.use_trash,
        b.delete.fallback_category@ == "Delete"@,
        b.forced_seeding_limit.enabled,
        b.forced_seeding_limit.max_time_active is Some,
        duration_secs((b.forced_seeding_limit.max_time_active->0)@) == Some(604800nat),
        b.forced_seeding_limit.max_ratio is None,
        b.send_to_seeding.enabled,
        b.send_to_seeding.category@ == "Seeding"@,
        b.send_to_seeding.create_category,
        b.send_to_seeding.clear_tags,
{
    reveal_strlit("7d");
    assert("7d"@ =~= seq!['7'].push('d'));
    reveal_with_fuel(text::digits_value, 2);
    assert(seq!['7'].drop_last() =~= Seq::<char>::empty());
    assert(text::digits_value(seq!['7']) == 7);
    text::lemma_upper('d');
    text::lemma_code_tells(text::upper('d'), 'D');
    law_duration_is_number_times_unit(seq!['7'], 'd');
}

} // verus!
