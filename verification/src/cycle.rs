//! One polling cycle: what is done for each torrent of a server, and what is said of the
//! servers that failed.
use crate::config::{Config, ServerConfig};
use crate::rules::{self, decide, execute_rule, send_to_seeding, Decision, RuleStep, RuleStepView};
use crate::text;
use crate::torrent::{self, StateTracker, Torrent, TorrentState, Transition};
use vstd::prelude::*;

verus! {

/// What a decision comes to.
#[derive(Debug)]
pub enum Job {
    /// Take these steps in order. None means to leave the torrent alone.
    Steps(Vec<RuleStep>),
    /// Move the payload as the category's destination says.
    Move,
    /// Report that the torrent is errored. Nothing is done to it.
    Report,
}

/// A job, as mathematics sees it.
pub enum JobView {
    Steps(Seq<RuleStepView>),
    Move,
    Report,
}

impl View for Job {
    type V = JobView;

    open spec fn view(&self) -> JobView {
        match self {
            Job::Steps(steps) => JobView::Steps(rules::step_views(steps@)),
            Job::Move => JobView::Move,
            Job::Report => JobView::Report,
        }
    }
}

/// What a decision comes to: a rule's actions, a deletion, a move, or the way to the seeding
/// category. Errored torrents are only reported, and ignored ones left alone.
pub open spec fn job_of(t: Torrent, decision: Decision, server: ServerConfig) -> JobView {
    match decision {
        Decision::UserRule(rule) => JobView::Steps(rules::rule_steps(t, rule.actions())),
        Decision::RetryDelete => JobView::Steps(seq![RuleStepView::Delete]),
        Decision::ForcedLimitExceeded => JobView::Steps(seq![RuleStepView::Delete]),
        Decision::MoveMapped => JobView::Move,
        Decision::SendToSeeding => JobView::Steps(
            rules::run_all(rules::seeding_commands(t, server.behaviors.send_to_seeding)),
        ),
        Decision::Ignore => JobView::Steps(Seq::empty()),
        Decision::Errored => JobView::Report,
        Decision::Nothing => JobView::Steps(Seq::empty()),
    }
}

/// The job that a decision comes to.
pub fn plan_job(torrent: &Torrent, decision: &Decision, server: &ServerConfig) -> (r: Job)
    ensures
        r@ == job_of(*torrent, *decision, *server),
{
    let mut steps: Vec<RuleStep> = Vec::new();
    match decision {
        Decision::UserRule(rule) => {
            return Job::Steps(execute_rule(torrent, rule));
        },
        Decision::RetryDelete => {
            steps.push(RuleStep::Delete);
        },
        Decision::ForcedLimitExceeded => {
            steps.push(RuleStep::Delete);
        },
        Decision::MoveMapped => {
            return Job::Move;
        },
        Decision::SendToSeeding => {
            let commands = send_to_seeding(torrent, &server.behaviors.send_to_seeding);
            rules::append_commands(commands, &mut steps);
            assert(rules::step_views(steps@) =~= rules::run_all(
                rules::seeding_commands(*torrent, server.behaviors.send_to_seeding),
            ));
            return Job::Steps(steps);
        },
        Decision::Ignore => {},
        Decision::Errored => {
            return Job::Report;
        },
        Decision::Nothing => {},
    }
    assert(Job::Steps(steps)@->Steps_0 =~= job_of(*torrent, *decision, *server)->Steps_0);
    Job::Steps(steps)
}

/// The decision for each torrent of a listing, given what `tracker` has of the cycle before.
pub open spec fn decisions_of<'a>(
    listing: Seq<Torrent>,
    tracker: StateTracker,
    server: &'a ServerConfig,
) -> Seq<Decision<'a>> {
    Seq::new(
        listing.len(),
        |i: int|
            rules::decision(listing[i], tracker.state_before(listing[i].hash@), server),
    )
}

/// What a cycle found out about a server's torrents.
#[derive(Debug)]
pub struct Cycle<'a> {
    /// The torrents whose state changed since the previous cycle.
    pub transitions: Vec<Transition>,
    /// What to do with each torrent, in the order of the listing.
    pub decisions: Vec<Decision<'a>>,
}

/// The part of a server's cycle between the listing of its torrents and the work on them:
/// every torrent's state is recorded before it is decided what to act on.
pub fn process_single_server<'a>(
    server: &'a ServerConfig,
    torrents: &Vec<Torrent>,
    tracker: &mut StateTracker,
) -> (r: Cycle<'a>)
    ensures
        final(tracker).observed(*old(tracker), torrents@),
        torrent::transition_views(r.transitions@) == torrent::transitions_of(
            torrents@,
            old(tracker).current@,
        ),
        r.decisions@ == decisions_of(torrents@, *final(tracker), server),
{
    let transitions = tracker.observe(torrents);
    let mut decisions: Vec<Decision> = Vec::new();
    let mut i: usize = 0;
    while i < torrents.len()
        invariant
            i <= torrents.len(),
            decisions@ == decisions_of(torrents@, *tracker, server).take(i as int),
        decreases torrents.len() - i,
    {
        let torrent = &torrents[i];
        let previous = tracker.previous_state(torrent.hash.as_str());
        decisions.push(decide(torrent, previous, server));
        assert(decisions_of(torrents@, *tracker, server).take(i + 1) =~= decisions_of(
            torrents@,
            *tracker,
            server,
        ).take(i as int).push(decisions_of(torrents@, *tracker, server)[i as int]));
        i = i + 1;
    }
    assert(decisions_of(torrents@, *tracker, server).take(i as int) =~= decisions_of(
        torrents@,
        *tracker,
        server,
    ));
    Cycle { transitions, decisions }
}

/// What is under way in the cycle of one server.
#[derive(Debug, Clone, Copy, PartialEq, Eq, Structural)]
pub enum Phase {
    /// Logging in.
    Login,
    /// Listing the torrents.
    List,
    /// Working on the torrents.
    Work,
    /// Logging out.
    Logout,
    /// The cycle is over.
    Over,
    /// The cycle failed.
    Failed,
}

/// What follows a phase. A login or a listing that fails ends the cycle; work that fails
/// concerns single torrents only, and the logout is best-effort.
pub open spec fn phase_after(phase: Phase, succeeded: bool) -> Phase {
    match phase {
        Phase::Login => if succeeded {
            Phase::List
        } else {
            Phase::Failed
        },
        Phase::List => if succeeded {
            Phase::Work
        } else {
            Phase::Failed
        },
        Phase::Work => Phase::Logout,
        Phase::Logout => Phase::Over,
        Phase::Over => Phase::Over,
        Phase::Failed => Phase::Failed,
    }
}

/// The phase that follows.
pub fn next_phase(phase: Phase, succeeded: bool) -> (r: Phase)
    ensures
        r == phase_after(phase, succeeded),
{
    match phase {
        Phase::Login => if succeeded {
            Phase::List
        } else {
            Phase::Failed
        },
        Phase::List => if succeeded {
            Phase::Work
        } else {
            Phase::Failed
        },
        Phase::Work => Phase::Logout,
        Phase::Logout => Phase::Over,
        Phase::Over => Phase::Over,
        Phase::Failed => Phase::Failed,
    }
}

/// The phase after a sequence of outcomes.
pub open spec fn phase_after_all(phase: Phase, outcomes: Seq<bool>) -> Phase
    decreases outcomes.len(),
{
    if outcomes.len() == 0 {
        phase
    } else {
        phase_after(phase_after_all(phase, outcomes.drop_last()), outcomes.last())
    }
}

/// One state tracker per server, each with no history.
pub fn fresh_trackers(count: usize) -> (r: Vec<StateTracker>)
    ensures
        r@.len() == count,
        forall|i: int| 0 <= i < count ==> (#[trigger] r@[i]).is_fresh(),
{
    let mut trackers: Vec<StateTracker> = Vec::new();
    while trackers.len() < count
        invariant
            trackers.len() <= count,
            forall|i: int| 0 <= i < trackers.len() ==> (#[trigger] trackers@[i]).is_fresh(),
        decreases count - trackers.len(),
    {
        trackers.push(StateTracker::default());
    }
    trackers
}

/// How the cycle of one server ended.
#[derive(Debug)]
pub struct Outcome {
    pub qbit_url: String,
    /// What went wrong, if anything did.
    pub error: Option<String>,
}

/// The errors of the servers that failed, in order, each with the server's URL in front.
pub open spec fn errors_of(outcomes: Seq<Outcome>) -> Seq<Seq<char>>
    decreases outcomes.len(),
{
    if outcomes.len() == 0 {
        Seq::empty()
    } else {
        let rest = errors_of(outcomes.drop_last());
        match outcomes.last().error {
            Some(e) => rest.push(outcomes.last().qbit_url@ + ": "@ + e@),
            None => rest,
        }
    }
}

/// The error of a cycle over all servers.
pub open spec fn summary_of(errors: Seq<Seq<char>>) -> Seq<char> {
    "Encountered "@ + text::decimal(errors.len()) + " error(s): "@ + text::join(errors, "; "@)
}

/// Sums up a cycle over all servers: an error that names each server that failed, or success
/// where none did. A server that fails does not keep the others from being processed.
pub fn process_all_servers(outcomes: &Vec<Outcome>) -> (r: Result<(), String>)
    ensures
        r is Ok <==> errors_of(outcomes@).len() == 0,
        r matches Err(e) ==> e@ == summary_of(errors_of(outcomes@)),
{
    let mut errors: Vec<String> = Vec::new();
    let mut i: usize = 0;
    assert(text::views(errors@) =~= errors_of(outcomes@.take(0)));
    while i < outcomes.len()
        invariant
            i <= outcomes.len(),
            text::views(errors@) == errors_of(outcomes@.take(i as int)),
        decreases outcomes.len() - i,
    {
        let ghost before = text::views(errors@);
        assert(outcomes@.take(i + 1).drop_last() =~= outcomes@.take(i as int));
        assert(outcomes@.take(i + 1).last() == outcomes@[i as int]);
        if let Some(e) = &outcomes[i].error {
            let line = outcomes[i].qbit_url.clone().concat(": ").concat(e.as_str());
            let ghost shown = line@;
            errors.push(line);
            assert(text::views(errors@) =~= before.push(shown));
        }
        i = i + 1;
    }
    assert(outcomes@.take(i as int) =~= outcomes@);
    if errors.len() == 0 {
        return Ok(());
    }
    let count = text::decimal_text(errors.len() as u64);
    let list = text::join_with(&errors, "; ");
    Err(
        "Encountered ".to_owned().concat(count.as_str()).concat(" error(s): ").concat(
            list.as_str(),
        ),
    )
}

/// Seconds to wait between two cycles. A zero delay would busy-loop against the servers.
pub fn poll_delay(config: &Config) -> (r: u64)
    ensures
        r == (if config.rate_limit_delay == 0 {
            1
        } else {
            config.rate_limit_delay
        }),
{
    if config.rate_limit_delay == 0 {
        1
    } else {
        config.rate_limit_delay
    }
}

/// Every server that fails shows in the error of the cycle, with its URL.
pub proof fn law_every_failure_is_reported(outcomes: Seq<Outcome>, i: int)
    requires
        0 <= i < outcomes.len(),
    ensures
        outcomes[i].error matches Some(e) ==> errors_of(outcomes).contains(
            outcomes[i].qbit_url@ + ": "@ + e@,
        ),
    decreases outcomes.len(),
{
    let rest = outcomes.drop_last();
    let all = errors_of(outcomes);
    if let Some(e) = outcomes[i].error {
        let line = outcomes[i].qbit_url@ + ": "@ + e@;
        if i < rest.len() {
            law_every_failure_is_reported(rest, i);
            assert(rest[i] == outcomes[i]);
            let k = choose|k: int| 0 <= k < errors_of(rest).len() && errors_of(rest)[k] == line;
            assert(all[k] == line);
        } else {
            assert(all[all.len() - 1] == line);
        }
    }
}

/// A cycle succeeds exactly when no server failed.
pub proof fn law_success_means_no_failure(outcomes: Seq<Outcome>)
    ensures
        errors_of(outcomes).len() == 0 <==> forall|i: int|
            0 <= i < outcomes.len() ==> (#[trigger] outcomes[i]).error is None,
    decreases outcomes.len(),
{
    if outcomes.len() > 0 {
        let rest = outcomes.drop_last();
        law_success_means_no_failure(rest);
        assert forall|i: int| 0 <= i < rest.len() implies rest[i] == #[trigger] outcomes[i] by {}
        if forall|i: int| 0 <= i < outcomes.len() ==> (#[trigger] outcomes[i]).error is None {
            assert forall|i: int| 0 <= i < rest.len() implies (#[trigger] rest[i]).error is None by {
                assert(outcomes[i].error is None);
            }
            assert(outcomes[outcomes.len() - 1].error is None);
        } else if errors_of(outcomes).len() == 0 {
            assert forall|i: int| 0 <= i < outcomes.len() implies (
            #[trigger] outcomes[i]).error is None by {
                if i < rest.len() {
                    assert(rest[i].error is None);
                }
            }
        }
    }
}

/// In the first cycle after a start no torrent is sent to the seeding category.
pub proof fn law_first_cycle_sends_nothing_to_seeding(
    listing: Seq<Torrent>,
    fresh: StateTracker,
    tracker: StateTracker,
    server: &ServerConfig,
    i: int,
)
    requires
        fresh.is_fresh(),
        tracker.observed(fresh, listing),
        0 <= i < listing.len(),
    ensures
        !(decisions_of(listing, tracker, server)[i] is SendToSeeding),
{
    rules::law_restart_sends_nothing_to_seeding(listing[i], server, fresh, tracker, listing);
}

/// A torrent that was finished in one cycle is not sent to the seeding category in the next.
pub proof fn law_seeding_torrent_is_not_sent_again(
    first: Seq<Torrent>,
    second: Seq<Torrent>,
    start: StateTracker,
    middle: StateTracker,
    end: StateTracker,
    server: &ServerConfig,
    at: int,
    i: int,
)
    requires
        middle.observed(start, first),
        end.observed(middle, second),
        0 <= at < first.len(),
        0 <= i < second.len(),
        torrent::last_of_hash(first, at),
        first[at].hash@ == second[i].hash@,
        first[at].state.finished(),
    ensures
        !(decisions_of(second, end, server)[i] is SendToSeeding),
{
    let hash = second[i].hash@;
    torrent::law_previous_state_is_one_cycle_back(start, middle, end, first, second, hash);
    assert(end.state_before(hash) == Some(first[at].state));
    rules::law_sent_to_seeding_once(second[i], end.state_before(hash), server);
}

/// Nothing is done to torrents of ignored categories.
pub proof fn law_ignored_torrents_are_left_alone(
    t: Torrent,
    previous: Option<TorrentState>,
    server: &ServerConfig,
)
    requires
        rules::ignored(t, *server),
    ensures
        job_of(t, rules::decision(t, previous, server), *server) == JobView::Steps(Seq::empty()),
{
}

/// The cycle of a server fails exactly when its login or its listing does; what happens to
/// single torrents, or at the logout, does not fail it.
pub proof fn law_only_login_and_listing_fail_a_cycle(outcomes: Seq<bool>)
    requires
        outcomes.len() == 4,
    ensures
        phase_after_all(Phase::Login, outcomes) == (if outcomes[0] && outcomes[1] {
            Phase::Over
        } else {
            Phase::Failed
        }),
{
    reveal_with_fuel(phase_after_all, 5);
}

/// Torrents are worked on only after a login and a listing that succeeded.
pub proof fn law_work_follows_login_and_listing(outcomes: Seq<bool>)
    requires
        phase_after_all(Phase::Login, outcomes) == Phase::Work,
    ensures
        outcomes == seq![true, true],
{
    reveal_with_fuel(phase_after_all, 3);
    assert(outcomes.len() > 0);
    let one = outcomes.drop_last();
    assert(phase_after_all(Phase::Login, one) == Phase::List);
    assert(one.len() > 0);
    assert(phase_after_all(Phase::Login, one.drop_last()) == Phase::Login);
    lemma_login_is_first(one.drop_last());
    assert(outcomes =~= seq![true, true]);
}

proof fn lemma_login_is_first(outcomes: Seq<bool>)
    requires
        phase_after_all(Phase::Login, outcomes) == Phase::Login,
    ensures
        outcomes.len() == 0,
{
}

/// What is done for each decision: a rule's steps for a rule, a deletion for a torrent that is
/// parked for it or over its limit, a move for one in a mapped category, the seeding category
/// for one that has finished, a report for one that is errored, and nothing for the rest.
pub proof fn law_each_decision_has_its_job(t: Torrent, rule: &crate::config::Rule, server: ServerConfig)
    ensures
        job_of(t, Decision::UserRule(rule), server) == JobView::Steps(
            rules::rule_steps(t, rule.actions()),
        ),
        job_of(t, Decision::RetryDelete, server) == JobView::Steps(seq![RuleStepView::Delete]),
        job_of(t, Decision::ForcedLimitExceeded, server) == JobView::Steps(
            seq![RuleStepView::Delete],
        ),
        job_of(t, Decision::MoveMapped, server) is Move,
        job_of(t, Decision::Errored, server) is Report,
        job_of(t, Decision::Ignore, server) == JobView::Steps(Seq::empty()),
        job_of(t, Decision::Nothing, server) == JobView::Steps(Seq::empty()),
        ({
            let commands = rules::seeding_commands(t, server.behaviors.send_to_seeding);
            job_of(t, Decision::SendToSeeding, server) == JobView::Steps(
                commands.map_values(|command: crate::client::CommandView| RuleStepView::Run(command)),
            )
        }),
{
    let commands = rules::seeding_commands(t, server.behaviors.send_to_seeding);
    assert(rules::run_all(commands) =~= commands.map_values(
        |command: crate::client::CommandView| RuleStepView::Run(command),
    ));
}

/// Every listed torrent is decided on, in its place, by the state that it had one cycle ago.
pub proof fn law_every_torrent_is_decided_on<'a>(
    listing: Seq<Torrent>,
    before: StateTracker,
    after: StateTracker,
    server: &'a ServerConfig,
    i: int,
)
    requires
        after.observed(before, listing),
        0 <= i < listing.len(),
    ensures
        decisions_of(listing, after, server).len() == listing.len(),
        decisions_of(listing, after, server)[i] == rules::decision(
            listing[i],
            if before.current@.contains_key(listing[i].hash@) {
                Some(before.current@[listing[i].hash@])
            } else {
                None
            },
            server,
        ),
{
}

/// The errors of the servers are reported in order, one for each server that failed and none for
/// the others, each with the server's URL in front.
pub proof fn law_errors_are_reported_in_order(outcomes: Seq<Outcome>, i: int)
    requires
        0 <= i < outcomes.len(),
    ensures
        errors_of(Seq::empty()) == Seq::<Seq<char>>::empty(),
        outcomes[i].error matches Some(e) ==> errors_of(outcomes.take(i + 1)) == errors_of(
            outcomes.take(i),
        ).push(outcomes[i].qbit_url@ + seq![':', ' '] + e@),
        outcomes[i].error is None ==> errors_of(outcomes.take(i + 1)) == errors_of(
            outcomes.take(i),
        ),
        errors_of(outcomes.take(i + 1)).is_prefix_of(errors_of(outcomes)),
    decreases outcomes.len(),
{
    reveal_strlit(": ");
    assert(": "@ =~= seq![':', ' ']);
    assert(outcomes.take(i + 1).drop_last() =~= outcomes.take(i));
    assert(outcomes.take(i + 1).last() == outcomes[i]);
    let front = outcomes.drop_last();
    if i < front.len() {
        law_errors_are_reported_in_order(front, i);
        assert(front.take(i + 1) =~= outcomes.take(i + 1));
    } else {
        assert(outcomes.take(i + 1) =~= outcomes);
    }
}

/// The summary of a failed cycle counts the errors and lists them.
pub proof fn law_summary_counts_and_lists(errors: Seq<Seq<char>>)
    ensures
        summary_of(errors) == "Encountered "@ + text::decimal(errors.len()) + " error(s): "@
            + text::join(errors, seq![';', ' ']),
{
    reveal_strlit("; ");
    assert("; "@ =~= seq![';', ' ']);
}

/// The phases of a cycle follow each other; a failure counts only in the login and the listing.
pub proof fn law_phases_follow_each_other(succeeded: bool)
    ensures
        phase_after(Phase::Login, true) == Phase::List,
        phase_after(Phase::Login, false) == Phase::Failed,
        phase_after(Phase::List, true) == Phase::Work,
        phase_after(Phase::List, false) == Phase::Failed,
        phase_after(Phase::Work, succeeded) == Phase::Logout,
        phase_after(Phase::Logout, succeeded) == Phase::Over,
        phase_after(Phase::Over, succeeded) == Phase::Over,
        phase_after(Phase::Failed, succeeded) == Phase::Failed,
{
}

/// The view of a job holds the view of each of its steps in its place.
pub proof fn law_views_keep_places(steps: Vec<RuleStep>, i: int)
    ensures
        (Job::Steps(steps))@ matches JobView::Steps(shown) && shown.len() == steps@.len() && (0 <= i
            < steps@.len() ==> shown[i] == steps@[i]@),
        (Job::Move)@ is Move,
        (Job::Report)@ is Report,
{
}

} // verus!
