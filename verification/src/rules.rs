//! Decision engine: for each torrent on each cycle, decide what (if
//! anything) to do with it. User-defined rules always take precedence
//! over the built-in default behaviors, and `ignore_categories` shields
//! torrents from everything.
use crate::client::{self, Command, CommandView};
use crate::config::{
    self, parse_duration, DeleteConfig, ForcedSeedingLimitConfig, Rule, RuleAction, RuleMatch,
    SendToSeedingConfig, ServerConfig,
};
use crate::text;
use crate::torrent::{StateTracker, Torrent, TorrentState};
use vstd::prelude::*;

verus! {

/// What the pipeline decided to do with one torrent this cycle.
/// Exactly one decision applies per torrent per cycle.
#[derive(Debug)]
pub enum Decision<'a> {
    /// Category is listed in `ignore_categories`: hands off entirely.
    Ignore,
    /// A user rule matched; apply its actions.
    UserRule(&'a Rule),
    /// Torrent is errored: it is reported, so that it can be recovered or removed.
    Errored,
    /// Torrent is parked in the delete fallback category: retry deletion.
    RetryDelete,
    /// Category is mapped and the torrent is eligible: move the payload.
    MoveMapped,
    /// Forced-seeding torrent exceeded its configured limits: delete it.
    ForcedLimitExceeded,
    /// Torrent finished downloading this cycle: send it to the seeding
    /// category.
    SendToSeeding,
    /// Nothing applies this cycle.
    Nothing,
}

/// The state is one that the rule lists.
pub open spec fn state_holds(m: RuleMatch, t: Torrent) -> bool {
    m.states matches Some(states) ==> states@.contains(t.state)
}

/// The state changed from one that the rule lists.
pub open spec fn transition_holds(m: RuleMatch, t: Torrent, previous: Option<TorrentState>) -> bool {
    m.from_states matches Some(from) ==> {
        &&& previous matches Some(prev)
        &&& from@.contains(prev)
        &&& prev != t.state
    }
}

/// The category is one that the rule lists.
pub open spec fn category_holds(m: RuleMatch, t: Torrent) -> bool {
    m.categories matches Some(cats) ==> text::views(cats@).contains(t.category@)
}

/// One of the torrent's tags is one that the rule lists.
pub open spec fn tags_hold(m: RuleMatch, t: Torrent) -> bool {
    m.tags matches Some(tags) ==> exists|i: int|
        0 <= i < tags@.len() && t.tag_views().contains(#[trigger] text::views(tags@)[i])
}

/// The download is as complete as the rule wants it.
pub open spec fn completion_holds(m: RuleMatch, t: Torrent) -> bool {
    m.complete matches Some(complete) ==> t.complete() == complete
}

/// The torrent has been active long enough. A limit that is not a duration never holds.
pub open spec fn time_holds(m: RuleMatch, t: Torrent) -> bool {
    m.min_time_active matches Some(min) ==> {
        &&& config::duration_secs(min@) matches Some(limit)
        &&& t.time_active >= limit
    }
}

/// The share ratio is not below the limit.
pub open spec fn ratio_holds(m: RuleMatch, t: Torrent) -> bool {
    m.min_ratio matches Some(min) ==> !t.ratio.lt(min)
}

/// Every condition of the rule holds.
pub open spec fn all_hold(m: RuleMatch, t: Torrent, previous: Option<TorrentState>) -> bool {
    &&& state_holds(m, t)
    &&& transition_holds(m, t, previous)
    &&& category_holds(m, t)
    &&& tags_hold(m, t)
    &&& completion_holds(m, t)
    &&& time_holds(m, t)
    &&& ratio_holds(m, t)
}

/// The place of the first rule that matches; the number of rules if none does.
pub open spec fn first_match(rules: Seq<Rule>, t: Torrent, previous: Option<TorrentState>) -> int
    decreases rules.len(),
{
    if rules.len() == 0 || all_hold(rules[0].when, t, previous) {
        0
    } else {
        1 + first_match(rules.drop_first(), t, previous)
    }
}

/// The torrent finished downloading between the previous cycle and now.
pub open spec fn finished_now(t: Torrent, previous: Option<TorrentState>) -> bool {
    &&& previous matches Some(prev)
    &&& !prev.finished()
    &&& t.state.finished()
    &&& t.complete()
}

/// A limit on active time or ratio is exceeded; to reach one is not enough. A time limit that is not a duration counts
/// as no limit.
pub open spec fn over_limit(t: Torrent, cfg: ForcedSeedingLimitConfig) -> bool {
    ||| {
        &&& cfg.max_time_active matches Some(max)
        &&& config::duration_secs(max@) matches Some(limit)
        &&& t.time_active > limit
    }
    ||| {
        &&& cfg.max_ratio matches Some(max)
        &&& max.lt(t.ratio)
    }
}

/// Whether the torrent's category is to be left alone.
pub open spec fn ignored(t: Torrent, server: ServerConfig) -> bool {
    text::views(server.ignore_categories@).contains(t.category@)
}

/// The decision of the built-in behaviors, for a torrent that no rule matches.
pub open spec fn default_decision<'a>(
    t: Torrent,
    previous: Option<TorrentState>,
    server: &'a ServerConfig,
) -> Decision<'a> {
    let behaviors = server.behaviors;
    if t.category@ == behaviors.delete.fallback_category@ {
        Decision::RetryDelete
    } else if t.state.errored() {
        Decision::Errored
    } else if server.categories@.contains_key(t.category@) {
        if t.movable() {
            Decision::MoveMapped
        } else {
            Decision::Nothing
        }
    } else if behaviors.forced_seeding_limit.enabled && t.state == TorrentState::ForcedUpload
        && over_limit(t, behaviors.forced_seeding_limit) {
        Decision::ForcedLimitExceeded
    } else if behaviors.send_to_seeding.enabled && t.category@
        != behaviors.send_to_seeding.category@ && finished_now(t, previous) {
        Decision::SendToSeeding
    } else {
        Decision::Nothing
    }
}

/// What to do with a torrent: `ignore_categories` first, then the first rule that matches,
/// then the built-in behaviors.
pub open spec fn decision<'a>(
    t: Torrent,
    previous: Option<TorrentState>,
    server: &'a ServerConfig,
) -> Decision<'a> {
    let at = first_match(server.rules@, t, previous);
    if ignored(t, *server) {
        Decision::Ignore
    } else if at < server.rules@.len() {
        Decision::UserRule(&server.rules@[at])
    } else {
        default_decision(t, previous, server)
    }
}

/// Whether `states` lists `state`.
fn lists(states: &Vec<TorrentState>, state: TorrentState) -> (r: bool)
    ensures
        r == states@.contains(state),
{
    let mut i: usize = 0;
    while i < states.len()
        invariant
            i <= states.len(),
            forall|j: int| 0 <= j < i ==> states@[j] != state,
        decreases states.len() - i,
    {
        if states[i] == state {
            return true;
        }
        i = i + 1;
    }
    false
}

/// Whether one of `wanted` is among `tags`.
fn any_tag(wanted: &Vec<String>, tags: &Vec<String>) -> (r: bool)
    ensures
        r == exists|i: int|
            0 <= i < wanted@.len() && text::views(tags@).contains(
                #[trigger] text::views(wanted@)[i],
            ),
{
    let mut i: usize = 0;
    while i < wanted.len()
        invariant
            i <= wanted.len(),
            forall|j: int|
                0 <= j < i ==> !text::views(tags@).contains(#[trigger] text::views(wanted@)[j]),
        decreases wanted.len() - i,
    {
        assert(text::views(wanted@)[i as int] == wanted@[i as int]@);
        if text::contains(tags, wanted[i].as_str()) {
            return true;
        }
        i = i + 1;
    }
    false
}

/// True when every condition in `m` holds for the torrent (logical AND).
/// Omitted conditions match anything; an empty `when` matches everything.
pub fn rule_matches(m: &RuleMatch, torrent: &Torrent, previous: Option<TorrentState>) -> (r: bool)
    ensures
        r == all_hold(*m, *torrent, previous),
{
    if let Some(states) = &m.states {
        if !lists(states, torrent.state) {
            return false;
        }
    }
    if let Some(from) = &m.from_states {
        // Matches an actual *transition*: the previous state must be
        // known, listed, and different from the current one.
        let transitioned = match previous {
            Some(prev) => lists(from, prev) && prev != torrent.state,
            None => false,
        };
        if !transitioned {
            return false;
        }
    }
    if let Some(cats) = &m.categories {
        if !text::contains(cats, torrent.category.as_str()) {
            return false;
        }
    }
    if let Some(tags) = &m.tags {
        let torrent_tags = torrent.tag_list();
        if !any_tag(tags, &torrent_tags) {
            return false;
        }
    }
    if let Some(complete) = m.complete {
        if torrent.is_download_complete() != complete {
            return false;
        }
    }
    if let Some(min) = &m.min_time_active {
        match parse_duration(min.as_str()) {
            Ok(limit) => {
                if torrent.active_duration() < limit {
                    return false;
                }
            },
            Err(_) => {
                return false;
            },
        }
    }
    if let Some(min_ratio) = &m.min_ratio {
        if torrent.ratio.below(min_ratio) {
            return false;
        }
    }
    true
}

/// True when the torrent transitioned from a not-finished state to a
/// finished one between the previous cycle and now — i.e. its download
/// finished while this tool was watching. Torrents seen for the first
/// time never qualify, so a restart of this tool cannot re-categorize
/// every existing torrent.
pub fn just_finished(torrent: &Torrent, previous: Option<TorrentState>) -> (r: bool)
    ensures
        r == finished_now(*torrent, previous),
{
    let was_unfinished = match previous {
        Some(prev) => !prev.download_finished(),
        None => false,
    };
    was_unfinished && torrent.state.download_finished() && torrent.is_download_complete()
}

/// True when the forced-seeding torrent exceeds any configured limit.
pub fn forced_limit_exceeded(torrent: &Torrent, cfg: &ForcedSeedingLimitConfig) -> (r: bool)
    ensures
        r == over_limit(*torrent, *cfg),
        cfg.max_time_active matches Some(max) && config::duration_secs(max@) matches Some(limit)
            && torrent.time_active > limit ==> r,
        cfg.max_ratio matches Some(max) && max.lt(torrent.ratio) ==> r,
{
    if let Some(max) = &cfg.max_time_active {
        if let Ok(limit) = parse_duration(max.as_str()) {
            if torrent.active_duration() > limit {
                return true;
            }
        }
    }
    if let Some(max_ratio) = &cfg.max_ratio {
        if max_ratio.below(&torrent.ratio) {
            return true;
        }
    }
    false
}

/// The place of the first rule that matches.
fn find_rule(rules: &Vec<Rule>, torrent: &Torrent, previous: Option<TorrentState>) -> (at: usize)
    ensures
        at == first_match(rules@, *torrent, previous),
        at <= rules@.len(),
{
    let mut i: usize = 0;
    assert(rules@.skip(0) =~= rules@);
    while i < rules.len()
        invariant
            i <= rules.len(),
            first_match(rules@, *torrent, previous) == i + first_match(
                rules@.skip(i as int),
                *torrent,
                previous,
            ),
        decreases rules.len() - i,
    {
        assert(rules@.skip(i as int)[0] == rules@[i as int]);
        if rule_matches(&rules[i].when, torrent, previous) {
            return i;
        }
        assert(rules@.skip(i as int).drop_first() =~= rules@.skip(i + 1));
        i = i + 1;
    }
    i
}

/// Decides what to do with `torrent` this cycle. `previous` is the state
/// the torrent was in on the previous cycle, used to match state
/// *transitions*.
///
/// Precedence: `ignore_categories` > user rules (in order, first match
/// wins) > delete-retry > errored handling > mapped-category move >
/// forced-seeding limit > send-to-seeding.
pub fn decide<'a>(
    torrent: &Torrent,
    previous: Option<TorrentState>,
    server: &'a ServerConfig,
) -> (r: Decision<'a>)
    ensures
        r == decision(*torrent, previous, server),
{
    if text::contains(&server.ignore_categories, torrent.category.as_str()) {
        return Decision::Ignore;
    }
    let at = find_rule(&server.rules, torrent, previous);
    if at < server.rules.len() {
        return Decision::UserRule(&server.rules[at]);
    }
    let behaviors = &server.behaviors;
    // Torrents parked in the fallback category are pending deletion.
    if text::same(torrent.category.as_str(), behaviors.delete.fallback_category.as_str()) {
        return Decision::RetryDelete;
    }
    if torrent.state.is_errored() {
        return Decision::Errored;
    }
    if server.categories.contains_key(torrent.category.as_str()) {
        // Mapped categories keep the move flow; the eligibility check
        // avoids re-deciding incomplete torrents.
        return if torrent.eligible_for_move() {
            Decision::MoveMapped
        } else {
            Decision::Nothing
        };
    }
    if behaviors.forced_seeding_limit.enabled && torrent.state == TorrentState::ForcedUpload
        && forced_limit_exceeded(torrent, &behaviors.forced_seeding_limit) {
        return Decision::ForcedLimitExceeded;
    }
    if behaviors.send_to_seeding.enabled && !text::same(
        torrent.category.as_str(),
        behaviors.send_to_seeding.category.as_str(),
    ) && just_finished(torrent, previous) {
        return Decision::SendToSeeding;
    }
    Decision::Nothing
}

/// One thing to do for a rule.
#[derive(Debug)]
pub enum RuleStep {
    /// Have the API change the torrent.
    Run(Command),
    /// Move the payload to this directory on this host and remove the torrent.
    MoveFiles(String),
    /// Delete the payload as `delete_with_fallback` says.
    Delete,
}

/// A rule step, as mathematics sees it.
pub enum RuleStepView {
    Run(CommandView),
    MoveFiles(Seq<char>),
    Delete,
}

impl View for RuleStep {
    type V = RuleStepView;

    open spec fn view(&self) -> RuleStepView {
        match self {
            RuleStep::Run(command) => RuleStepView::Run(command@),
            RuleStep::MoveFiles(dir) => RuleStepView::MoveFiles(dir@),
            RuleStep::Delete => RuleStepView::Delete,
        }
    }
}

/// The views of a sequence of rule steps.
pub open spec fn step_views(v: Seq<RuleStep>) -> Seq<RuleStepView> {
    Seq::new(v.len(), |i: int| v[i]@)
}

/// The torrent is gone after such an action.
pub open spec fn is_terminal(action: RuleAction) -> bool {
    action is MoveFiles || action is Remove || action is RemoveWithData || action is Delete
}

/// The torrent is gone after such a step.
pub open spec fn ends_torrent(step: RuleStepView) -> bool {
    match step {
        RuleStepView::Run(command) => command is Remove,
        RuleStepView::MoveFiles(_) => true,
        RuleStepView::Delete => true,
    }
}

/// Commands as rule steps.
pub open spec fn run_all(commands: Seq<CommandView>) -> Seq<RuleStepView> {
    Seq::new(commands.len(), |i: int| RuleStepView::Run(commands[i]))
}

/// The steps of one action.
pub open spec fn action_steps(t: Torrent, action: RuleAction) -> Seq<RuleStepView> {
    let hash = t.hash@;
    match action {
        RuleAction::SetCategory(category) => seq![
            RuleStepView::Run(
                CommandView::SetCategory { hash, category: category@, create: true },
            ),
        ],
        RuleAction::AddTags(tags) => seq![
            RuleStepView::Run(
                CommandView::AddTags { hash, tags: text::join(text::views(tags@), ","@) },
            ),
        ],
        RuleAction::RemoveTags(tags) => seq![
            RuleStepView::Run(
                CommandView::RemoveTags { hash, tags: text::join(text::views(tags@), ","@) },
            ),
        ],
        RuleAction::ClearTags => run_all(client::clear_tags_views(t)),
        RuleAction::Stop => seq![RuleStepView::Run(CommandView::Stop { hash })],
        RuleAction::Start => seq![RuleStepView::Run(CommandView::Start { hash })],
        RuleAction::Recheck => seq![RuleStepView::Run(CommandView::Recheck { hash })],
        RuleAction::MoveFiles(dir) => seq![RuleStepView::MoveFiles(dir@)],
        RuleAction::Remove => seq![
            RuleStepView::Run(CommandView::Remove { hash, delete_files: false }),
        ],
        RuleAction::RemoveWithData => seq![
            RuleStepView::Run(CommandView::Remove { hash, delete_files: true }),
        ],
        RuleAction::Delete => seq![RuleStepView::Delete],
        RuleAction::Nothing => Seq::empty(),
    }
}

/// The steps of a rule's actions, in order; what stands behind a terminal action is left out.
pub open spec fn rule_steps(t: Torrent, actions: Seq<RuleAction>) -> Seq<RuleStepView>
    decreases actions.len(),
{
    if actions.len() == 0 {
        Seq::empty()
    } else if is_terminal(actions[0]) {
        action_steps(t, actions[0])
    } else {
        action_steps(t, actions[0]) + rule_steps(t, actions.drop_first())
    }
}

/// Adds the steps of one action, and says whether the torrent is gone after it.
fn push_action(torrent: &Torrent, action: &RuleAction, steps: &mut Vec<RuleStep>) -> (ended: bool)
    ensures
        ended == is_terminal(*action),
        step_views(final(steps)@) == step_views(old(steps)@) + action_steps(*torrent, *action),
{
    let ghost before = step_views(steps@);
    let step = match action {
        RuleAction::SetCategory(category) => RuleStep::Run(
            Command::SetCategory {
                hash: torrent.hash.clone(),
                category: category.clone(),
                create: true,
            },
        ),
        RuleAction::AddTags(tags) => RuleStep::Run(
            Command::AddTags { hash: torrent.hash.clone(), tags: text::join_with(tags, ",") },
        ),
        RuleAction::RemoveTags(tags) => RuleStep::Run(
            Command::RemoveTags { hash: torrent.hash.clone(), tags: text::join_with(tags, ",") },
        ),
        RuleAction::ClearTags => {
            let commands = client::clear_tags(torrent);
            append_commands(commands, steps);
            return false;
        },
        RuleAction::Stop => RuleStep::Run(Command::Stop { hash: torrent.hash.clone() }),
        RuleAction::Start => RuleStep::Run(Command::Start { hash: torrent.hash.clone() }),
        RuleAction::Recheck => RuleStep::Run(Command::Recheck { hash: torrent.hash.clone() }),
        RuleAction::MoveFiles(dir) => RuleStep::MoveFiles(dir.clone()),
        RuleAction::Remove => RuleStep::Run(
            Command::Remove { hash: torrent.hash.clone(), delete_files: false },
        ),
        RuleAction::RemoveWithData => RuleStep::Run(
            Command::Remove { hash: torrent.hash.clone(), delete_files: true },
        ),
        RuleAction::Delete => RuleStep::Delete,
        RuleAction::Nothing => {
            assert(step_views(steps@) =~= before + action_steps(*torrent, *action));
            return false;
        },
    };
    let ghost shown = step@;
    steps.push(step);
    assert(step_views(steps@) =~= before.push(shown));
    assert(before.push(shown) =~= before + seq![shown]);
    match action {
        RuleAction::MoveFiles(_) => true,
        RuleAction::Remove => true,
        RuleAction::RemoveWithData => true,
        RuleAction::Delete => true,
        _ => false,
    }
}

/// Adds commands as rule steps.
pub(crate) fn append_commands(commands: Vec<Command>, steps: &mut Vec<RuleStep>)
    ensures
        step_views(final(steps)@) == step_views(old(steps)@) + run_all(
            client::command_views(commands@),
        ),
{
    let ghost given = client::command_views(commands@);
    let ghost before = step_views(steps@);
    let mut rest = commands;
    let mut moved: Vec<RuleStep> = Vec::new();
    while rest.len() > 0
        invariant
            moved@.len() + rest@.len() == given.len(),
            client::command_views(rest@) == given.skip(moved@.len() as int),
            step_views(moved@) == run_all(given.take(moved@.len() as int)),
        decreases rest@.len(),
    {
        let ghost shown = step_views(moved@);
        let ghost left = client::command_views(rest@);
        let command = rest.remove(0);
        assert(command@ == left[0]);
        moved.push(RuleStep::Run(command));
        assert(step_views(moved@) =~= shown.push(RuleStepView::Run(left[0])));
        assert(client::command_views(rest@) =~= left.skip(1));
        assert(run_all(given.take(moved@.len() as int)) =~= run_all(
            given.take(moved@.len() - 1),
        ).push(RuleStepView::Run(given[moved@.len() - 1])));
        assert(given.skip(moved@.len() - 1).skip(1) =~= given.skip(moved@.len() as int));
    }
    assert(given.take(moved@.len() as int) =~= given);
    let ghost tail = moved@;
    steps.append(&mut moved);
    assert(step_views(steps@) =~= before + step_views(tail));
}

/// The steps that apply a matched rule's actions to the torrent, in order. Terminal
/// actions (`move_files`, `remove`, `remove_with_data`, `delete`) stop the sequence
/// since the torrent no longer exists afterwards. A step that fails ends the rule.
pub fn execute_rule(torrent: &Torrent, rule: &Rule) -> (r: Vec<RuleStep>)
    ensures
        step_views(r@) == rule_steps(*torrent, rule.actions()),
{
    let Rule { then: actions, .. } = rule;
    let mut steps: Vec<RuleStep> = Vec::new();
    let mut i: usize = 0;
    let ghost all = rule_steps(*torrent, actions@);
    assert(actions@.skip(0) =~= actions@);
    assert(step_views(steps@) + all =~= all);
    while i < actions.len()
        invariant
            i <= actions.len(),
            all == rule_steps(*torrent, rule.actions()),
            step_views(steps@) + rule_steps(*torrent, actions@.skip(i as int)) == all,
        decreases actions.len() - i,
    {
        let ghost before = step_views(steps@);
        let ghost rest = actions@.skip(i as int);
        assert(rest[0] == actions@[i as int]);
        assert(rest.drop_first() =~= actions@.skip(i + 1));
        let ended = push_action(torrent, &actions[i], &mut steps);
        if ended {
            return steps;
        }
        assert(before + rule_steps(*torrent, rest) =~= before + action_steps(*torrent, rest[0])
            + rule_steps(*torrent, rest.drop_first()));
        i = i + 1;
    }
    assert(step_views(steps@) + rule_steps(*torrent, actions@.skip(i as int)) =~= step_views(
        steps@,
    ));
    steps
}

/// How far a sequence of steps has come.
#[derive(Debug, Clone, PartialEq)]
pub enum Progress {
    /// The step at this place is next.
    Next(usize),
    /// All steps succeeded.
    Done,
    /// The step at this place failed, and its error is that of the whole sequence.
    Failed { at: usize, error: String },
}

/// Progress, as mathematics sees it.
pub enum ProgressView {
    Next(int),
    Done,
    Failed { at: int, error: Seq<char> },
}

impl View for Progress {
    type V = ProgressView;

    open spec fn view(&self) -> ProgressView {
        match self {
            Progress::Next(at) => ProgressView::Next(*at as int),
            Progress::Done => ProgressView::Done,
            Progress::Failed { at, error } => ProgressView::Failed { at: *at as int, error: error@ },
        }
    }
}

/// The errors of the steps that were taken, `None` for each that succeeded.
pub open spec fn error_views(results: Seq<Option<String>>) -> Seq<Option<Seq<char>>> {
    Seq::new(
        results.len(),
        |i: int|
            match results[i] {
                Some(e) => Some(e@),
                None => None,
            },
    )
}

/// The place of the first step that failed; the number of steps taken if none did.
pub open spec fn first_error(results: Seq<Option<Seq<char>>>) -> int
    decreases results.len(),
{
    if results.len() == 0 || results[0] is Some {
        0
    } else {
        1 + first_error(results.drop_first())
    }
}

/// How far `count` steps have come after the given results: the first failure ends them.
pub open spec fn progress(count: int, results: Seq<Option<Seq<char>>>) -> ProgressView {
    let at = first_error(results);
    if at >= count {
        ProgressView::Done
    } else if at < results.len() {
        ProgressView::Failed { at, error: results[at]->0 }
    } else {
        ProgressView::Next(at)
    }
}

/// Says which of `count` steps is to be taken next, given the error of each one taken so far.
/// Steps are taken in order; one that fails ends the sequence with its error, and none behind
/// it is taken.
pub fn run_steps(count: usize, results: &Vec<Option<String>>) -> (r: Progress)
    ensures
        r@ == progress(count as int, error_views(results@)),
{
    let ghost seen = error_views(results@);
    let mut i: usize = 0;
    assert(seen.skip(0) =~= seen);
    while i < results.len() && i < count
        invariant
            i <= results.len(),
            i <= count,
            seen == error_views(results@),
            first_error(seen) == i + first_error(seen.skip(i as int)),
        decreases results.len() - i,
    {
        assert(seen.skip(i as int)[0] == seen[i as int]);
        if let Some(e) = &results[i] {
            return Progress::Failed { at: i, error: e.clone() };
        }
        assert(seen.skip(i as int).drop_first() =~= seen.skip(i + 1));
        i = i + 1;
    }
    proof {
        lemma_first_error(seen.skip(i as int));
    }
    if i < count {
        Progress::Next(i)
    } else {
        Progress::Done
    }
}

proof fn lemma_first_error(results: Seq<Option<Seq<char>>>)
    ensures
        0 <= first_error(results) <= results.len(),
        first_error(results) < results.len() ==> results[first_error(results)] is Some,
        forall|j: int| 0 <= j < first_error(results) ==> (#[trigger] results[j]) is None,
    decreases results.len(),
{
    if results.len() > 0 && results[0] is None {
        let rest = results.drop_first();
        lemma_first_error(rest);
        assert forall|j: int| 0 <= j < first_error(results) implies (#[trigger] results[j]) is None by {
            if j > 0 {
                assert(rest[j - 1] == results[j]);
            }
        }
        if first_error(rest) < rest.len() {
            assert(results[first_error(results)] == rest[first_error(rest)]);
        }
    }
}

/// A step that fails ends the sequence with its error: whatever is said of steps behind it,
/// the sequence has failed at that place and none of them is next.
pub proof fn law_failure_ends_the_sequence(
    count: int,
    results: Seq<Option<Seq<char>>>,
    i: int,
    error: Seq<char>,
)
    requires
        0 <= i < results.len(),
        i < count,
        results[i] == Some(error),
        forall|j: int| 0 <= j < i ==> (#[trigger] results[j]) is None,
    ensures
        progress(count, results) == (ProgressView::Failed { at: i, error }),
{
    lemma_first_error(results);
    let at = first_error(results);
    if at < i {
        assert(results[at] is None);
    } else if at > i {
        assert(results[i] is None);
    }
}

/// A step is next only after every step before it was taken once and succeeded, and the
/// sequence is done exactly when all steps succeeded.
pub proof fn law_steps_are_taken_in_order(count: int, results: Seq<Option<Seq<char>>>)
    requires
        0 <= count,
    ensures
        progress(count, results) matches ProgressView::Next(at) ==> at == results.len() && at
            < count && forall|j: int| 0 <= j < at ==> (#[trigger] results[j]) is None,
        progress(count, results) is Done <==> results.len() >= count && forall|j: int|
            0 <= j < count ==> (#[trigger] results[j]) is None,
{
    lemma_first_error(results);
    let at = first_error(results);
    if at < count && at < results.len() {
        assert(results[at] is Some);
    }
}

/// Where an action of a rule fails, its error ends the rule and no later action is taken: the
/// steps taken are those of the actions before it, and the one that failed.
pub proof fn law_failed_action_ends_the_rule(
    t: Torrent,
    first: Seq<RuleAction>,
    failing: RuleAction,
    rest: Seq<RuleAction>,
    results: Seq<Option<Seq<char>>>,
    error: Seq<char>,
)
    requires
        none_terminal(first),
        action_steps(t, failing).len() == 1,
        results.len() == rule_steps(t, first).len() + 1,
        results.last() == Some(error),
        forall|j: int| 0 <= j < results.len() - 1 ==> (#[trigger] results[j]) is None,
    ensures
        ({
            let steps = rule_steps(t, first + seq![failing] + rest);
            let at = rule_steps(t, first).len() as int;
            &&& at < steps.len()
            &&& steps[at] == action_steps(t, failing)[0]
            &&& progress(steps.len() as int, results) == (ProgressView::Failed { at, error })
        }),
{
    let tail = seq![failing] + rest;
    assert(first + seq![failing] + rest =~= first + tail);
    law_actions_apply_in_order(t, first, tail);
    assert(tail[0] == failing);
    let steps = rule_steps(t, first + tail);
    assert(steps[rule_steps(t, first).len() as int] == rule_steps(t, tail)[0]);
    law_failure_ends_the_sequence(
        steps.len() as int,
        results,
        rule_steps(t, first).len() as int,
        error,
    );
}

/// Where the seeding category cannot be set, its error is the result and the tags are left
/// alone; they are cleared only after it was set.
pub proof fn law_tags_are_kept_without_the_category(
    t: Torrent,
    cfg: SendToSeedingConfig,
    error: Seq<char>,
)
    ensures
        ({
            let count = seeding_commands(t, cfg).len() as int;
            &&& progress(count, seq![]) == ProgressView::Next(0)
            &&& progress(count, seq![Some(error)]) == (ProgressView::Failed { at: 0, error })
            &&& progress(count, seq![None]) == (if count == 1 {
                ProgressView::Done
            } else {
                ProgressView::Next(1)
            })
        }),
{
    reveal_with_fuel(first_error, 2);
    assert(seq![None::<Seq<char>>].drop_first() =~= seq![]);
}

/// The name to show for a rule.
pub fn rule_label(rule: &Rule) -> (r: &str)
    ensures
        r@ == (match rule.name {
            Some(name) => name@,
            None => "unnamed rule"@,
        }),
{
    match &rule.name {
        Some(name) => name.as_str(),
        None => "unnamed rule",
    }
}

/// What the deletion of a torrent does next.
#[derive(Debug)]
pub enum DeleteStep {
    /// Have the API change the torrent; the deletion ends with it.
    Run(Command),
    /// Move the payload to the trash of this host and remove the torrent.
    Trash,
    /// The payload is in the trash.
    Done,
}

/// What the deletion of a torrent is to do next. `trashed` says how the trash went, once it
/// was tried.
pub open spec fn delete_fits(
    step: DeleteStep,
    t: Torrent,
    cfg: DeleteConfig,
    trashed: Option<bool>,
) -> bool {
    if !cfg.use_trash {
        step matches DeleteStep::Run(c) && c@ == (CommandView::Remove {
            hash: t.hash@,
            delete_files: true,
        })
    } else {
        match trashed {
            None => step is Trash,
            Some(true) => step is Done,
            Some(false) => step matches DeleteStep::Run(c) && c@ == (CommandView::SetCategory {
                hash: t.hash@,
                category: cfg.fallback_category@,
                create: true,
            }),
        }
    }
}

/// Deletes a torrent's payload according to the configured delete flow:
/// host-side trash when `use_trash` is set (parking the torrent in the
/// fallback category for retry if the trash is unavailable), otherwise a
/// straight remove-with-data, which honors qBittorrent's own trash
/// preference. `trashed` says how the trash went, once it was tried.
pub fn delete_with_fallback(torrent: &Torrent, cfg: &DeleteConfig, trashed: Option<bool>) -> (r:
    DeleteStep)
    ensures
        delete_fits(r, *torrent, *cfg, trashed),
{
    if !cfg.use_trash {
        return DeleteStep::Run(
            Command::Remove { hash: torrent.hash.clone(), delete_files: true },
        );
    }
    match trashed {
        None => DeleteStep::Trash,
        Some(true) => DeleteStep::Done,
        Some(false) => DeleteStep::Run(
            Command::SetCategory {
                hash: torrent.hash.clone(),
                category: cfg.fallback_category.clone(),
                create: true,
            },
        ),
    }
}

/// The commands that send a torrent to the seeding category.
pub open spec fn seeding_commands(t: Torrent, cfg: SendToSeedingConfig) -> Seq<CommandView> {
    let set = seq![
        CommandView::SetCategory {
            hash: t.hash@,
            category: cfg.category@,
            create: cfg.create_category,
        },
    ];
    if cfg.clear_tags {
        set + client::clear_tags_views(t)
    } else {
        set
    }
}

/// Applies the "Send to Seeding" default behavior: overwrite the torrent's
/// category with the seeding category (created on demand when configured)
/// and clear its tags.
pub fn send_to_seeding(torrent: &Torrent, cfg: &SendToSeedingConfig) -> (r: Vec<Command>)
    ensures
        client::command_views(r@) == seeding_commands(*torrent, *cfg),
{
    let mut commands = vec![
        Command::SetCategory {
            hash: torrent.hash.clone(),
            category: cfg.category.clone(),
            create: cfg.create_category,
        },
    ];
    let ghost set = client::command_views(commands@);
    if cfg.clear_tags {
        let mut cleared = client::clear_tags(torrent);
        let ghost tail = cleared@;
        commands.append(&mut cleared);
        assert(client::command_views(commands@) =~= set + client::command_views(tail));
    }
    assert(client::command_views(commands@) =~= seeding_commands(*torrent, *cfg));
    commands
}

proof fn lemma_first_match(rules: Seq<Rule>, t: Torrent, previous: Option<TorrentState>)
    ensures
        0 <= first_match(rules, t, previous) <= rules.len(),
        first_match(rules, t, previous) < rules.len() ==> all_hold(
            rules[first_match(rules, t, previous)].when,
            t,
            previous,
        ),
        forall|j: int|
            0 <= j < first_match(rules, t, previous) ==> !all_hold(
                (#[trigger] rules[j]).when,
                t,
                previous,
            ),
    decreases rules.len(),
{
    if rules.len() > 0 && !all_hold(rules[0].when, t, previous) {
        let rest = rules.drop_first();
        lemma_first_match(rest, t, previous);
        assert forall|j: int| 0 <= j < first_match(rules, t, previous) implies !all_hold(
            (#[trigger] rules[j]).when,
            t,
            previous,
        ) by {
            if j > 0 {
                assert(rest[j - 1] == rules[j]);
            }
        }
    }
}

/// Whether one of the server's rules matches.
pub open spec fn some_rule_matches(
    t: Torrent,
    previous: Option<TorrentState>,
    server: ServerConfig,
) -> bool {
    exists|i: int|
        0 <= i < server.rules@.len() && all_hold((#[trigger] server.rules@[i]).when, t, previous)
}

/// `ignore_categories` shields torrents from everything, and nothing else does.
pub proof fn law_ignored_category_shields(
    t: Torrent,
    previous: Option<TorrentState>,
    server: &ServerConfig,
)
    ensures
        decision(t, previous, server) is Ignore <==> ignored(t, *server),
{
}

/// Of the rules that match, the first one decides.
pub proof fn law_first_matching_rule_wins(
    t: Torrent,
    previous: Option<TorrentState>,
    server: &ServerConfig,
    i: int,
)
    requires
        0 <= i < server.rules@.len(),
        all_hold(server.rules@[i].when, t, previous),
        forall|j: int| 0 <= j < i ==> !all_hold((#[trigger] server.rules@[j]).when, t, previous),
        !ignored(t, *server),
    ensures
        decision(t, previous, server) == Decision::UserRule(&server.rules@[i]),
{
    lemma_first_match(server.rules@, t, previous);
    let at = first_match(server.rules@, t, previous);
    if at < i {
        assert(!all_hold(server.rules@[at].when, t, previous));
    } else if at > i {
        assert(!all_hold(server.rules@[i].when, t, previous));
    }
}

/// Rules take precedence over the built-in behaviors: these decide exactly where no rule
/// matches.
pub proof fn law_rules_precede_defaults(
    t: Torrent,
    previous: Option<TorrentState>,
    server: &ServerConfig,
)
    requires
        !ignored(t, *server),
    ensures
        decision(t, previous, server) is UserRule <==> some_rule_matches(t, previous, *server),
        !some_rule_matches(t, previous, *server) ==> decision(t, previous, server)
            == default_decision(t, previous, server),
{
    lemma_first_match(server.rules@, t, previous);
    let at = first_match(server.rules@, t, previous);
    if at < server.rules@.len() {
        assert(all_hold(server.rules@[at].when, t, previous));
    } else if some_rule_matches(t, previous, *server) {
        let i = choose|i: int|
            0 <= i < server.rules@.len() && all_hold(
                (#[trigger] server.rules@[i]).when,
                t,
                previous,
            );
        assert(!all_hold(server.rules@[i].when, t, previous));
    }
}

/// A torrent that is seen for the first time is never sent to the seeding category, so that a
/// restart cannot re-categorize every existing torrent.
pub proof fn law_restart_sends_nothing_to_seeding(
    t: Torrent,
    server: &ServerConfig,
    fresh: StateTracker,
    tracker: StateTracker,
    listing: Seq<Torrent>,
)
    requires
        fresh.is_fresh(),
        tracker.observed(fresh, listing),
    ensures
        !(decision(t, tracker.state_before(t.hash@), server) is SendToSeeding),
{
    crate::torrent::law_first_cycle_has_no_history(fresh, tracker, listing, t.hash@);
}

/// A torrent is sent to the seeding category once: not where it was finished before, and not
/// where it is in that category already.
pub proof fn law_sent_to_seeding_once(
    t: Torrent,
    previous: Option<TorrentState>,
    server: &ServerConfig,
)
    requires
        (previous matches Some(prev) && prev.finished()) || t.category@
            == server.behaviors.send_to_seeding.category@,
    ensures
        !(decision(t, previous, server) is SendToSeeding),
{
}

/// Only complete torrents of a mapped category are moved, and those are never sent to the
/// seeding category.
pub proof fn law_only_finished_mapped_torrents_are_moved(
    t: Torrent,
    previous: Option<TorrentState>,
    server: &ServerConfig,
)
    ensures
        decision(t, previous, server) is MoveMapped ==> t.state.finished() && t.complete()
            && server.categories@.contains_key(t.category@),
        server.categories@.contains_key(t.category@) ==> !(decision(
            t,
            previous,
            server,
        ) is SendToSeeding),
{
}

/// An errored torrent is flagged as such unless it waits for its deletion: the built-in
/// behaviors neither move nor re-categorize it.
pub proof fn law_errored_torrent_is_flagged(
    t: Torrent,
    previous: Option<TorrentState>,
    server: &ServerConfig,
)
    requires
        t.state.errored(),
        !ignored(t, *server),
        !some_rule_matches(t, previous, *server),
    ensures
        decision(t, previous, server) is Errored || decision(t, previous, server) is RetryDelete,
        decision(t, previous, server) is RetryDelete <==> t.category@
            == server.behaviors.delete.fallback_category@,
{
    law_rules_precede_defaults(t, previous, server);
}

/// A deletion is not lost when the trash is not available: the torrent is put into the
/// fallback category, and a torrent of that category is up for deletion in every later cycle.
pub proof fn law_failed_deletion_is_retried(
    t: Torrent,
    step: DeleteStep,
    server: &ServerConfig,
    parked: Torrent,
    previous: Option<TorrentState>,
)
    requires
        server.behaviors.delete.use_trash,
        delete_fits(step, t, server.behaviors.delete, Some(false)),
        step matches DeleteStep::Run(c) && c@ matches CommandView::SetCategory { category, .. }
            && parked.category@ == category,
        !ignored(parked, *server),
        !some_rule_matches(parked, previous, *server),
    ensures
        decision(parked, previous, server) is RetryDelete,
{
    law_rules_precede_defaults(parked, previous, server);
}

/// With the trash in use, a deletion removes no data through the API.
pub proof fn law_trash_never_removes_data(
    t: Torrent,
    step: DeleteStep,
    cfg: DeleteConfig,
    trashed: Option<bool>,
)
    requires
        cfg.use_trash,
        delete_fits(step, t, cfg, trashed),
    ensures
        step matches DeleteStep::Run(c) ==> !(c@ is Remove),
{
}

/// An empty `when` matches every torrent.
pub proof fn law_empty_when_matches_everything(
    m: RuleMatch,
    t: Torrent,
    previous: Option<TorrentState>,
)
    requires
        m.is_empty(),
    ensures
        all_hold(m, t, previous),
{
}

/// `wide` has no condition that `narrow` does not have.
pub open spec fn fewer_conditions(wide: RuleMatch, narrow: RuleMatch) -> bool {
    &&& wide.states is None || wide.states == narrow.states
    &&& wide.from_states is None || wide.from_states == narrow.from_states
    &&& wide.categories is None || wide.categories == narrow.categories
    &&& wide.tags is None || wide.tags == narrow.tags
    &&& wide.complete is None || wide.complete == narrow.complete
    &&& wide.min_time_active is None || wide.min_time_active == narrow.min_time_active
    &&& wide.min_ratio is None || wide.min_ratio == narrow.min_ratio
}

/// Conditions are joined by AND: one that is added can only exclude torrents.
pub proof fn law_conditions_only_narrow(
    wide: RuleMatch,
    narrow: RuleMatch,
    t: Torrent,
    previous: Option<TorrentState>,
)
    requires
        fewer_conditions(wide, narrow),
        all_hold(narrow, t, previous),
    ensures
        all_hold(wide, t, previous),
{
}

/// `from_states` matches real transitions only: the previous state has to be known and to
/// differ from the present one.
pub proof fn law_from_states_need_a_transition(
    m: RuleMatch,
    t: Torrent,
    previous: Option<TorrentState>,
)
    requires
        m.from_states is Some,
        previous is None || previous == Some(t.state),
    ensures
        !all_hold(m, t, previous),
{
}

/// No action of a sequence is terminal.
pub open spec fn none_terminal(actions: Seq<RuleAction>) -> bool {
    forall|i: int| 0 <= i < actions.len() ==> !is_terminal(#[trigger] actions[i])
}

/// Actions apply in order.
pub proof fn law_actions_apply_in_order(t: Torrent, first: Seq<RuleAction>, rest: Seq<RuleAction>)
    requires
        none_terminal(first),
    ensures
        rule_steps(t, first + rest) == rule_steps(t, first) + rule_steps(t, rest),
    decreases first.len(),
{
    if first.len() == 0 {
        assert(first + rest =~= rest);
        assert(rule_steps(t, first) + rule_steps(t, rest) =~= rule_steps(t, rest));
    } else {
        let tail = first.drop_first();
        assert forall|i: int| 0 <= i < tail.len() implies !is_terminal(#[trigger] tail[i]) by {
            assert(tail[i] == first[i + 1]);
        }
        law_actions_apply_in_order(t, tail, rest);
        assert((first + rest).drop_first() =~= tail + rest);
        assert((first + rest)[0] == first[0]);
        assert(action_steps(t, first[0]) + (rule_steps(t, tail) + rule_steps(t, rest))
            =~= action_steps(t, first[0]) + rule_steps(t, tail) + rule_steps(t, rest));
    }
}

/// Terminal actions stop the sequence: what stands behind one has no effect.
pub proof fn law_terminal_action_ends_the_rule(
    t: Torrent,
    first: Seq<RuleAction>,
    last: RuleAction,
    rest: Seq<RuleAction>,
)
    requires
        none_terminal(first),
        is_terminal(last),
    ensures
        rule_steps(t, first + seq![last] + rest) == rule_steps(t, first) + action_steps(t, last),
{
    let tail = seq![last] + rest;
    assert(first + seq![last] + rest =~= first + tail);
    law_actions_apply_in_order(t, first, tail);
    assert(tail[0] == last);
}

/// Nothing is done to a torrent after a step that ends it.
pub proof fn law_ending_step_is_the_last(t: Torrent, actions: Seq<RuleAction>, i: int)
    requires
        0 <= i < rule_steps(t, actions).len(),
        ends_torrent(rule_steps(t, actions)[i]),
    ensures
        i == rule_steps(t, actions).len() - 1,
    decreases actions.len(),
{
    let head = action_steps(t, actions[0]);
    if !is_terminal(actions[0]) {
        if i < head.len() {
            assert(rule_steps(t, actions)[i] == head[i]);
        } else {
            let tail = rule_steps(t, actions.drop_first());
            assert(rule_steps(t, actions)[i] == tail[i - head.len()]);
            law_ending_step_is_the_last(t, actions.drop_first(), i - head.len());
        }
    }
}

/// Sending a torrent to the seeding category sets that category first and, beyond it, only
/// removes tags.
pub proof fn law_send_to_seeding_keeps_the_payload(t: Torrent, cfg: SendToSeedingConfig)
    ensures
        seeding_commands(t, cfg).len() >= 1,
        seeding_commands(t, cfg)[0] matches CommandView::SetCategory { category, .. } && category
            == cfg.category@,
        forall|i: int|
            1 <= i < seeding_commands(t, cfg).len() ==> (#[trigger] seeding_commands(
                t,
                cfg,
            )[i]) is RemoveTags,
{
}

/// A limit has to be exceeded: a torrent that just reaches its limits on active time and ratio
/// is within them.
pub proof fn law_reached_limit_is_not_exceeded(t: Torrent, cfg: ForcedSeedingLimitConfig)
    requires
        cfg.max_time_active matches Some(max) ==> (config::duration_secs(max@) matches Some(limit)
            ==> t.time_active <= limit),
        cfg.max_ratio matches Some(max) ==> max.ge(t.ratio),
    ensures
        !over_limit(t, cfg),
{
}

/// A rule that only lists states matches exactly the torrents in one of them.
pub proof fn law_listed_state_matches(m: RuleMatch, t: Torrent, previous: Option<TorrentState>)
    requires
        m.states is Some,
        m.from_states is None && m.categories is None && m.tags is None && m.complete is None
            && m.min_time_active is None && m.min_ratio is None,
    ensures
        all_hold(m, t, previous) <==> exists|i: int|
            0 <= i < (m.states->0)@.len() && #[trigger] (m.states->0)@[i] == t.state,
{
}

/// A rule that only lists states to come from matches exactly the torrents that were in one of
/// them on the cycle before and are in another state now.
pub proof fn law_listed_transition_matches(
    m: RuleMatch,
    t: Torrent,
    previous: Option<TorrentState>,
)
    requires
        m.from_states is Some,
        m.states is None && m.categories is None && m.tags is None && m.complete is None
            && m.min_time_active is None && m.min_ratio is None,
    ensures
        all_hold(m, t, previous) <==> exists|i: int|
            0 <= i < (m.from_states->0)@.len() && previous == Some(
                #[trigger] (m.from_states->0)@[i],
            ) && previous != Some(t.state),
{
    let from = (m.from_states->0)@;
    if all_hold(m, t, previous) {
        let i = choose|i: int| 0 <= i < from.len() && from[i] == previous->0;
        assert(previous == Some(from[i]));
    }
}

/// A rule that only lists categories matches exactly the torrents whose category it lists.
pub proof fn law_listed_category_matches(m: RuleMatch, t: Torrent, previous: Option<TorrentState>)
    requires
        m.categories is Some,
        m.states is None && m.from_states is None && m.tags is None && m.complete is None
            && m.min_time_active is None && m.min_ratio is None,
    ensures
        all_hold(m, t, previous) <==> exists|i: int|
            0 <= i < (m.categories->0)@.len() && (#[trigger] (m.categories->0)@[i])@ == t.category@,
{
    let cats = (m.categories->0)@;
    let seen = text::views(cats);
    if all_hold(m, t, previous) {
        let i = choose|i: int| 0 <= i < seen.len() && seen[i] == t.category@;
        assert(cats[i]@ == t.category@);
    }
    if exists|i: int| 0 <= i < cats.len() && (#[trigger] cats[i])@ == t.category@ {
        let i = choose|i: int| 0 <= i < cats.len() && (#[trigger] cats[i])@ == t.category@;
        assert(seen[i] == t.category@);
    }
}

/// A rule that only lists tags matches a torrent exactly when one of the tags that it lists, at
/// any place, is one of the torrent's tags, at any place.
pub proof fn law_any_shared_tag_matches(m: RuleMatch, t: Torrent, previous: Option<TorrentState>)
    requires
        m.tags is Some,
        m.states is None && m.from_states is None && m.categories is None && m.complete is None
            && m.min_time_active is None && m.min_ratio is None,
    ensures
        all_hold(m, t, previous) <==> exists|i: int, j: int|
            0 <= i < (m.tags->0)@.len() && 0 <= j < t.tag_views().len()
                && (#[trigger] (m.tags->0)@[i])@ == #[trigger] t.tag_views()[j],
{
    let listed = (m.tags->0)@;
    let seen = text::views(listed);
    let own = t.tag_views();
    if all_hold(m, t, previous) {
        let i = choose|i: int| 0 <= i < listed.len() && own.contains(#[trigger] seen[i]);
        let j = choose|j: int| 0 <= j < own.len() && own[j] == seen[i];
        assert(listed[i]@ == own[j]);
    }
    if exists|i: int, j: int|
        0 <= i < listed.len() && 0 <= j < own.len() && (#[trigger] listed[i])@
            == #[trigger] own[j] {
        let (i, j) = choose|i: int, j: int|
            0 <= i < listed.len() && 0 <= j < own.len() && (#[trigger] listed[i])@
                == #[trigger] own[j];
        assert(own.contains(seen[i]));
    }
}

/// The order of a torrent's tags does not matter to a rule, nor whether one is given twice: two
/// torrents that have the same tags, and agree otherwise, match the same rules.
pub proof fn law_order_of_tags_does_not_matter(
    m: RuleMatch,
    t: Torrent,
    other: Torrent,
    previous: Option<TorrentState>,
)
    requires
        other == (Torrent { tags: other.tags, ..t }),
        forall|tag: Seq<char>| #[trigger]
            t.tag_views().contains(tag) <==> other.tag_views().contains(tag),
    ensures
        all_hold(m, t, previous) == all_hold(m, other, previous),
{
    assert(t.complete() == other.complete());
}

/// A rule that only speaks of completion wants a progress of at least one, or anything else.
pub proof fn law_completion_matches(m: RuleMatch, t: Torrent, previous: Option<TorrentState>)
    requires
        m.complete is Some,
        m.states is None && m.from_states is None && m.categories is None && m.tags is None
            && m.min_time_active is None && m.min_ratio is None,
    ensures
        all_hold(m, t, previous) <==> (m.complete->0 == (0x3ff0_0000_0000_0000 <= t.progress.bits
            <= 0x7ff0_0000_0000_0000)),
{
    crate::torrent::law_complete_from_one_on(t);
}

/// A rule that only speaks of active time matches from that time on, and never where the time
/// is no duration.
pub proof fn law_active_time_matches(m: RuleMatch, t: Torrent, previous: Option<TorrentState>)
    requires
        m.min_time_active is Some,
        m.states is None && m.from_states is None && m.categories is None && m.tags is None
            && m.complete is None && m.min_ratio is None,
    ensures
        config::duration_secs((m.min_time_active->0)@) matches Some(limit) ==> (all_hold(
            m,
            t,
            previous,
        ) <==> t.time_active as int >= limit),
        config::duration_secs((m.min_time_active->0)@) is None ==> !all_hold(m, t, previous),
{
}

/// A rule that only speaks of the share ratio matches unless the ratio is below the limit.
pub proof fn law_ratio_matches(m: RuleMatch, t: Torrent, previous: Option<TorrentState>)
    requires
        m.min_ratio is Some,
        m.states is None && m.from_states is None && m.categories is None && m.tags is None
            && m.complete is None && m.min_time_active is None,
    ensures
        all_hold(m, t, previous) <==> !t.ratio.lt(m.min_ratio->0),
{
}

/// A rule with several conditions matches exactly when each of them, as the only condition of a
/// rule, does.
pub proof fn law_conditions_are_joined(m: RuleMatch, t: Torrent, previous: Option<TorrentState>)
    ensures
        ({
            let none = RuleMatch {
                states: None,
                from_states: None,
                categories: None,
                tags: None,
                complete: None,
                min_time_active: None,
                min_ratio: None,
            };
            all_hold(m, t, previous) <==> {
                &&& all_hold(RuleMatch { states: m.states, ..none }, t, previous)
                &&& all_hold(RuleMatch { from_states: m.from_states, ..none }, t, previous)
                &&& all_hold(RuleMatch { categories: m.categories, ..none }, t, previous)
                &&& all_hold(RuleMatch { tags: m.tags, ..none }, t, previous)
                &&& all_hold(RuleMatch { complete: m.complete, ..none }, t, previous)
                &&& all_hold(RuleMatch { min_time_active: m.min_time_active, ..none }, t, previous)
                &&& all_hold(RuleMatch { min_ratio: m.min_ratio, ..none }, t, previous)
            }
        }),
{
}

/// Each limit counts by itself. A torrent is over the limit if its active time is above a valid
/// `max_time_active`, whatever `max_ratio` says; it is over the limit if its ratio is above
/// `max_ratio`, whatever `max_time_active` says; and otherwise it is not.
pub proof fn law_each_limit_counts_by_itself(
    t: Torrent,
    max_time_active: Option<String>,
    max_ratio: Option<crate::binary64::Binary64>,
    enabled: bool,
    limit: nat,
)
    ensures
        ({
            let cfg = ForcedSeedingLimitConfig { enabled, max_time_active, max_ratio };
            let by_time = max_time_active is Some && config::duration_secs(
                (max_time_active->0)@,
            ) == Some(limit) && t.time_active as int > limit;
            let by_ratio = max_ratio is Some && (max_ratio->0).lt(t.ratio);
            &&& by_time ==> over_limit(t, cfg)
            &&& by_ratio ==> over_limit(t, cfg)
            &&& (max_time_active is None || config::duration_secs((max_time_active->0)@) is None)
                ==> over_limit(t, cfg) == by_ratio
            &&& max_time_active is Some && config::duration_secs((max_time_active->0)@) == Some(
                limit,
            ) ==> over_limit(t, cfg) == (by_time || by_ratio)
        }),
{
}

/// A torrent is left alone exactly when its category is one of `ignore_categories`.
pub proof fn law_only_listed_categories_are_ignored(
    t: Torrent,
    previous: Option<TorrentState>,
    server: ServerConfig,
)
    ensures
        decision(t, previous, &server) is Ignore <==> exists|i: int|
            0 <= i < server.ignore_categories@.len() && (
            #[trigger] server.ignore_categories@[i])@ == t.category@,
{
    lemma_ignored(t, server);
}

proof fn lemma_ignored(t: Torrent, server: ServerConfig)
    ensures
        ignored(t, server) <==> exists|i: int|
            0 <= i < server.ignore_categories@.len() && (
            #[trigger] server.ignore_categories@[i])@ == t.category@,
{
    let listed = server.ignore_categories@;
    let seen = text::views(listed);
    if ignored(t, server) {
        let i = choose|i: int| 0 <= i < seen.len() && seen[i] == t.category@;
        assert(listed[i]@ == t.category@);
    }
    if exists|i: int| 0 <= i < listed.len() && (#[trigger] listed[i])@ == t.category@ {
        let i = choose|i: int| 0 <= i < listed.len() && (#[trigger] listed[i])@ == t.category@;
        assert(seen[i] == t.category@);
    }
}

/// Where no rule matches, the search for one runs past the last.
proof fn lemma_no_match(rules: Seq<Rule>, t: Torrent, previous: Option<TorrentState>)
    requires
        forall|i: int| 0 <= i < rules.len() ==> !all_hold((#[trigger] rules[i]).when, t, previous),
    ensures
        first_match(rules, t, previous) == rules.len(),
    decreases rules.len(),
{
    if rules.len() > 0 {
        assert(!all_hold(rules[0].when, t, previous));
        let rest = rules.drop_first();
        assert forall|i: int| 0 <= i < rest.len() implies !all_hold(
            (#[trigger] rest[i]).when,
            t,
            previous,
        ) by {
            assert(rest[i] == rules[i + 1]);
        }
        lemma_no_match(rest, t, previous);
    }
}

/// A torrent that is not ignored and matches no rule is decided on by what it is: parked in the
/// fallback category, its deletion is tried again; errored, it is reported; in a mapped
/// category, it is moved once it is finished and complete, and not touched before.
pub proof fn law_category_and_state_decide(
    t: Torrent,
    previous: Option<TorrentState>,
    server: ServerConfig,
)
    requires
        forall|i: int|
            0 <= i < server.ignore_categories@.len() ==> (
            #[trigger] server.ignore_categories@[i])@ != t.category@,
        forall|i: int|
            0 <= i < server.rules@.len() ==> !all_hold(
                (#[trigger] server.rules@[i]).when,
                t,
                previous,
            ),
    ensures
        ({
            let parked = t.category@ == server.behaviors.delete.fallback_category@;
            let errored = t.state == TorrentState::Error || t.state == TorrentState::MissingFiles;
            let mapped = server.categories@.contains_key(t.category@);
            let whole = 0x3ff0_0000_0000_0000 <= t.progress.bits <= 0x7ff0_0000_0000_0000;
            &&& decision(t, previous, &server) is RetryDelete <==> parked
            &&& decision(t, previous, &server) is Errored <==> !parked && errored
            &&& decision(t, previous, &server) is MoveMapped <==> !parked && !errored && mapped
                && t.state.finished() && whole
            &&& !parked && !errored && mapped && !(t.state.finished() && whole) ==> decision(
                t,
                previous,
                &server,
            ) is Nothing
        }),
{
    lemma_ignored(t, server);
    lemma_no_match(server.rules@, t, previous);
    crate::torrent::law_complete_from_one_on(t);
}

/// A torrent in forced upload that is not ignored, matches no rule, and is neither parked in the
/// fallback category nor in a mapped one is to be deleted exactly when the limit is enabled and
/// its active time or its ratio is above its own limit.
pub proof fn law_forced_limit_decides(
    t: Torrent,
    previous: Option<TorrentState>,
    server: ServerConfig,
)
    requires
        forall|i: int|
            0 <= i < server.ignore_categories@.len() ==> (
            #[trigger] server.ignore_categories@[i])@ != t.category@,
        forall|i: int|
            0 <= i < server.rules@.len() ==> !all_hold(
                (#[trigger] server.rules@[i]).when,
                t,
                previous,
            ),
        t.category@ != server.behaviors.delete.fallback_category@,
        !server.categories@.contains_key(t.category@),
    ensures
        ({
            let cfg = server.behaviors.forced_seeding_limit;
            let by_time = cfg.max_time_active matches Some(max) && config::duration_secs(
                max@,
            ) matches Some(limit) && t.time_active as int > limit;
            let by_ratio = cfg.max_ratio matches Some(max) && max.lt(t.ratio);
            decision(t, previous, &server) is ForcedLimitExceeded <==> cfg.enabled && t.state
                == TorrentState::ForcedUpload && (by_time || by_ratio)
        }),
{
    lemma_ignored(t, server);
    lemma_no_match(server.rules@, t, previous);
}

/// With `send_to_seeding` enabled, a torrent that is not ignored, matches no rule, is neither in
/// the fallback category nor in a mapped one nor in the seeding category, and is not over its
/// forced-seeding limit, is sent to seeding exactly when it went from an unfinished state to a
/// finished one with its payload complete. What category it is in, and whether it is in one,
/// makes no difference.
pub proof fn law_finished_torrents_are_sent_to_seeding(
    t: Torrent,
    previous: Option<TorrentState>,
    server: ServerConfig,
)
    requires
        server.behaviors.send_to_seeding.enabled,
        forall|i: int|
            0 <= i < server.ignore_categories@.len() ==> (
            #[trigger] server.ignore_categories@[i])@ != t.category@,
        forall|i: int|
            0 <= i < server.rules@.len() ==> !all_hold(
                (#[trigger] server.rules@[i]).when,
                t,
                previous,
            ),
        t.category@ != server.behaviors.delete.fallback_category@,
        !server.categories@.contains_key(t.category@),
        t.category@ != server.behaviors.send_to_seeding.category@,
        server.behaviors.forced_seeding_limit.enabled && t.state == TorrentState::ForcedUpload
            ==> !over_limit(t, server.behaviors.forced_seeding_limit),
    ensures
        decision(t, previous, &server) is SendToSeeding <==> previous is Some
            && !(previous->0).finished() && t.state.finished() && 0x3ff0_0000_0000_0000
            <= t.progress.bits <= 0x7ff0_0000_0000_0000,
{
    lemma_ignored(t, server);
    lemma_no_match(server.rules@, t, previous);
    crate::torrent::law_complete_from_one_on(t);
}

/// Nothing is sent to seeding, and no forced upload deleted, that the settings do not ask for.
pub proof fn law_disabled_behaviors_do_nothing(
    t: Torrent,
    previous: Option<TorrentState>,
    server: ServerConfig,
)
    ensures
        !server.behaviors.send_to_seeding.enabled ==> !(decision(
            t,
            previous,
            &server,
        ) is SendToSeeding),
        t.category@ == server.behaviors.send_to_seeding.category@ ==> !(decision(
            t,
            previous,
            &server,
        ) is SendToSeeding),
        !server.behaviors.forced_seeding_limit.enabled ==> !(decision(
            t,
            previous,
            &server,
        ) is ForcedLimitExceeded),
{
}

/// Each action of a rule does its own work on the torrent, in its place among the others. Moving
/// the files, removing and deleting end the rule; nothing else does.
pub proof fn law_each_action_does_its_work(
    t: Torrent,
    before: Seq<RuleAction>,
    action: RuleAction,
    after: Seq<RuleAction>,
)
    requires
        forall|i: int|
            0 <= i < before.len() ==> !((#[trigger] before[i]) is MoveFiles || before[i] is Remove
                || before[i] is RemoveWithData || before[i] is Delete),
    ensures
        rule_steps(t, Seq::empty()) == Seq::<RuleStepView>::empty(),
        ({
            let hash = t.hash@;
            let own = match action {
                RuleAction::SetCategory(category) => seq![
                    RuleStepView::Run(
                        CommandView::SetCategory { hash, category: category@, create: true },
                    ),
                ],
                RuleAction::AddTags(tags) => seq![
                    RuleStepView::Run(
                        CommandView::AddTags {
                            hash,
                            tags: text::join(tags@.map_values(|tag: String| tag@), seq![',']),
                        },
                    ),
                ],
                RuleAction::RemoveTags(tags) => seq![
                    RuleStepView::Run(
                        CommandView::RemoveTags {
                            hash,
                            tags: text::join(tags@.map_values(|tag: String| tag@), seq![',']),
                        },
                    ),
                ],
                RuleAction::ClearTags => if t.tag_views().len() > 0 {
                    seq![
                        RuleStepView::Run(
                            CommandView::RemoveTags {
                                hash,
                                tags: text::join(t.tag_views(), seq![',']),
                            },
                        ),
                    ]
                } else {
                    Seq::empty()
                },
                RuleAction::Stop => seq![RuleStepView::Run(CommandView::Stop { hash })],
                RuleAction::Start => seq![RuleStepView::Run(CommandView::Start { hash })],
                RuleAction::Recheck => seq![RuleStepView::Run(CommandView::Recheck { hash })],
                RuleAction::MoveFiles(dir) => seq![RuleStepView::MoveFiles(dir@)],
                RuleAction::Remove => seq![
                    RuleStepView::Run(CommandView::Remove { hash, delete_files: false }),
                ],
                RuleAction::RemoveWithData => seq![
                    RuleStepView::Run(CommandView::Remove { hash, delete_files: true }),
                ],
                RuleAction::Delete => seq![RuleStepView::Delete],
                RuleAction::Nothing => Seq::empty(),
            };
            let ends = action is MoveFiles || action is Remove || action is RemoveWithData
                || action is Delete;
            rule_steps(t, before + seq![action] + after) == rule_steps(t, before) + own + (if ends {
                Seq::empty()
            } else {
                rule_steps(t, after)
            })
        }),
{
    reveal_strlit(",");
    assert(","@ =~= seq![',']);
    let tail = seq![action] + after;
    assert(before + seq![action] + after =~= before + tail);
    law_actions_apply_in_order(t, before, tail);
    assert(tail[0] == action);
    assert(tail.drop_first() =~= after);
    match action {
        RuleAction::AddTags(tags) => {
            assert(text::views(tags@) =~= tags@.map_values(|tag: String| tag@));
        },
        RuleAction::RemoveTags(tags) => {
            assert(text::views(tags@) =~= tags@.map_values(|tag: String| tag@));
        },
        RuleAction::ClearTags => {
            let commands = client::clear_tags_views(t);
            if commands.len() > 0 {
                assert(run_all(commands) =~= seq![RuleStepView::Run(commands[0])]);
            } else {
                assert(run_all(commands) =~= Seq::empty());
            }
        },
        _ => {},
    }
    let head = rule_steps(t, before);
    let own = action_steps(t, action);
    if is_terminal(action) {
        assert(head + own + Seq::empty() =~= head + own);
    } else {
        assert(head + (own + rule_steps(t, after)) =~= head + own + rule_steps(t, after));
    }
}

/// Without the trash a deletion is one removal with the data. With it the trash is tried first;
/// where that succeeds the deletion is over, and where it does not the torrent is put into the
/// fallback category.
pub proof fn law_deletion_goes_through_the_trash(
    step: DeleteStep,
    t: Torrent,
    cfg: DeleteConfig,
    trashed: Option<bool>,
)
    requires
        delete_fits(step, t, cfg, trashed),
    ensures
        step is Trash <==> cfg.use_trash && trashed is None,
        step is Done <==> cfg.use_trash && trashed == Some(true),
        step matches DeleteStep::Run(c) ==> c@ == (if cfg.use_trash {
            CommandView::SetCategory {
                hash: t.hash@,
                category: cfg.fallback_category@,
                create: true,
            }
        } else {
            CommandView::Remove { hash: t.hash@, delete_files: true }
        }),
{
}

/// Sending a torrent to seeding sets the seeding category, creating it where the settings ask
/// for that, and then removes all of the torrent's tags where they ask for that and it has any.
pub proof fn law_seeding_sets_the_category_and_clears_tags(t: Torrent, cfg: SendToSeedingConfig)
    ensures
        ({
            let hash = t.hash@;
            let set = CommandView::SetCategory {
                hash,
                category: cfg.category@,
                create: cfg.create_category,
            };
            let clear = CommandView::RemoveTags {
                hash,
                tags: text::join(t.tag_views(), seq![',']),
            };
            seeding_commands(t, cfg) == (if cfg.clear_tags && t.tag_views().len() > 0 {
                seq![set, clear]
            } else {
                seq![set]
            })
        }),
{
    reveal_strlit(",");
    assert(","@ =~= seq![',']);
    let set = CommandView::SetCategory {
        hash: t.hash@,
        category: cfg.category@,
        create: cfg.create_category,
    };
    let cleared = client::clear_tags_views(t);
    if cleared.len() > 0 {
        assert(seq![set] + cleared =~= seq![set, cleared[0]]);
    } else {
        assert(seq![set] + cleared =~= seq![set]);
    }
}

/// A sequence of steps has failed exactly where one of its steps did, with all before it
/// successful; while none has failed and some are left, the first of those is next.
pub proof fn law_progress_is_up_to_the_results(count: int, results: Seq<Option<Seq<char>>>)
    requires
        0 <= count,
    ensures
        progress(count, results) matches ProgressView::Failed { at, error } ==> 0 <= at < count
            && at < results.len() && results[at] == Some(error) && forall|j: int|
            0 <= j < at ==> (#[trigger] results[j]) is None,
        results.len() < count && (forall|j: int|
            0 <= j < results.len() ==> (#[trigger] results[j]) is None) ==> progress(count, results)
            == ProgressView::Next(results.len() as int),
{
    lemma_first_error(results);
    let at = first_error(results);
    if at < results.len() {
        assert(results[at] is Some);
    }
}

/// The view of a step, a result or a progress holds all that it holds.
pub proof fn law_views_hide_nothing(
    command: Command,
    text: String,
    at: usize,
    steps: Seq<RuleStep>,
    results: Seq<Option<String>>,
    i: int,
)
    ensures
        (RuleStep::Run(command))@ == RuleStepView::Run(command@),
        (RuleStep::MoveFiles(text))@ == RuleStepView::MoveFiles(text@),
        (RuleStep::Delete)@ == RuleStepView::Delete,
        (Progress::Next(at))@ == ProgressView::Next(at as int),
        (Progress::Done)@ == ProgressView::Done,
        (Progress::Failed { at, error: text })@ == (ProgressView::Failed {
            at: at as int,
            error: text@,
        }),
        step_views(steps).len() == steps.len(),
        0 <= i < steps.len() ==> step_views(steps)[i] == steps[i]@,
        error_views(results).len() == results.len(),
        0 <= i < results.len() ==> (results[i] matches Some(e) ==> error_views(results)[i] == Some(
            e@,
        )),
        0 <= i < results.len() ==> (results[i] is None ==> error_views(results)[i] is None),
{
}

} // verus!
