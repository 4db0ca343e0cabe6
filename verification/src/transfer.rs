//! Moving payloads: where they lie, where they go, and in which order things happen.
use crate::client::{ClientError, Command, CommandView, ErrorView, TorrentClient};
use crate::config::{AfterMove, ServerConfig, AUTO_DESTINATION};
use crate::name_map::NameMap;
use crate::paths::{self, PathStyle};
use crate::text;
use crate::torrent::Torrent;
use vstd::prelude::*;

verus! {

/// Milliseconds that qBittorrent gets to release the file handles of a stopped torrent.
pub const SETTLE_MILLIS: u64 = 500;

/// The payload's path on the qBittorrent host.
pub open spec fn remote_path(style: PathStyle, t: Torrent) -> Seq<char> {
    match t.content_path {
        Some(p) if p@.len() > 0 => p@,
        _ => paths::pushed(style, t.save_path@, t.name@),
    }
}

/// The part of the payload's path below `path_prefix`; the whole path without a prefix.
pub open spec fn relative_path(client: TorrentClient, t: Torrent) -> Option<Seq<char>> {
    let remote = remote_path(client.style, t);
    match client.server.path_prefix {
        Some(prefix) if prefix@.len() > 0 => {
            let outer = paths::components(client.style, prefix@);
            let whole = paths::components(client.style, remote);
            if paths::starts_with(client.style, whole, outer) {
                Some(paths::render(client.style, whole.skip(outer.len() as int)))
            } else {
                None
            }
        },
        _ => Some(remote),
    }
}

/// The directory that stands for `path_prefix` on this host.
pub open spec fn local_root(server: ServerConfig) -> Seq<char> {
    match server.root_path {
        Some(p) => p@,
        None => Seq::empty(),
    }
}

/// The payload's path on this host.
pub open spec fn source_path(client: TorrentClient, t: Torrent) -> Option<Seq<char>> {
    match relative_path(client, t) {
        Some(below) => Some(paths::pushed(client.style, local_root(client.server), below)),
        None => None,
    }
}

/// The error for a torrent that lies outside of `path_prefix`.
pub open spec fn outside_prefix(client: TorrentClient, t: Torrent) -> ErrorView {
    ErrorView::PathOutsidePrefix {
        path: remote_path(client.style, t),
        prefix: client.server.path_prefix->0@,
    }
}

/// Where the payload of a torrent is to go.
pub enum Destination {
    /// The category is not mapped.
    Unmapped,
    /// To this directory.
    Directory(Seq<char>),
    /// To the category's save path, which is not known.
    Unknown,
}

/// The destination for a torrent. `save_paths` holds the save paths that qBittorrent has for
/// its categories.
pub open spec fn destination(
    server: ServerConfig,
    t: Torrent,
    save_paths: Map<Seq<char>, String>,
) -> Destination {
    if !server.categories@.contains_key(t.category@) {
        Destination::Unmapped
    } else {
        let configured = server.categories@[t.category@]@;
        if configured != AUTO_DESTINATION@ {
            Destination::Directory(configured)
        } else if save_paths.contains_key(t.category@) && save_paths[t.category@]@.len() > 0 {
            Destination::Directory(save_paths[t.category@]@)
        } else {
            Destination::Unknown
        }
    }
}

/// How a torrent's payload is to be moved.
#[derive(Debug)]
pub enum MovePlan {
    /// The category is not mapped: leave the torrent alone.
    Skip,
    /// Let qBittorrent relocate the payload.
    Relocate(Command),
    /// Move the payload on this host and remove the torrent then.
    HostMove { src: String, dest_dir: String },
    /// The payload cannot be moved.
    Refuse(ClientError),
}

/// How a torrent's payload goes to the trash.
#[derive(Debug)]
pub struct TrashPlan {
    /// The payload on this host; nothing where it is in the trash already.
    pub path: Option<String>,
    /// What removes the torrent once the payload is in the trash.
    pub removal: Command,
}

/// The plan is what the configuration says for the torrent.
pub open spec fn plan_fits(
    plan: MovePlan,
    client: TorrentClient,
    t: Torrent,
    save_paths: Map<Seq<char>, String>,
) -> bool {
    match destination(client.server, t, save_paths) {
        Destination::Unmapped => plan is Skip,
        Destination::Unknown => plan matches MovePlan::Refuse(e) && e@ == (ErrorView::NoSavePath {
            category: t.category@,
        }),
        Destination::Directory(dir) => match client.server.after_move {
            AfterMove::KeepSeeding => {
                &&& plan matches MovePlan::Relocate(command)
                &&& command@ == (CommandView::SetLocation {
                    hash: t.hash@,
                    location: dir,
                })
            },
            AfterMove::Remove => match source_path(client, t) {
                Some(source) => {
                    &&& plan matches MovePlan::HostMove { src, dest_dir }
                    &&& src@ == source
                    &&& dest_dir@ == dir
                },
                None => plan matches MovePlan::Refuse(e) && e@ == outside_prefix(client, t),
            },
        },
    }
}

impl TorrentClient {
    /// Maps the torrent's path on the qBittorrent host to a local path,
    /// applying the configured `path_prefix` -> `root_path` remapping.
    pub fn resolve_source_path(&self, torrent: &Torrent) -> (r: Result<String, ClientError>)
        ensures
            r matches Ok(p) ==> source_path(*self, *torrent) == Some(p@),
            r matches Err(e) ==> source_path(*self, *torrent) is None && e@ == outside_prefix(
                *self,
                *torrent,
            ),
    {
        let remote = match &torrent.content_path {
            Some(p) if !p.as_str().is_empty() => p.clone(),
            _ => paths::push_path(self.style, torrent.save_path.as_str(), torrent.name.as_str()),
        };
        assert(remote@ == remote_path(self.style, *torrent));
        let relative = match &self.server.path_prefix {
            Some(prefix) if !prefix.as_str().is_empty() => {
                let whole = paths::components_of(self.style, remote.as_str());
                let outer = paths::components_of(self.style, prefix.as_str());
                if !paths::has_prefix(self.style, &whole, &outer) {
                    return Err(
                        ClientError::PathOutsidePrefix { path: remote, prefix: prefix.clone() },
                    );
                }
                let below = paths::tail_from(&whole, outer.len());
                paths::render_path(self.style, &below)
            },
            _ => remote,
        };
        let root = match &self.server.root_path {
            Some(p) => p.clone(),
            None => String::new(),
        };
        assert(root@ =~= local_root(self.server));
        Ok(paths::push_path(self.style, root.as_str(), relative.as_str()))
    }

    /// Plans the deletion of a torrent's payload to the trash of this host: which path goes
    /// there, and how the torrent is removed from qBittorrent after that. Where an earlier
    /// attempt put the payload into the trash and only the removal failed, `in_trash`, the
    /// removal is what is left.
    pub fn delete_torrent_to_trash(&self, torrent: &Torrent, in_trash: bool) -> (r: Result<
        TrashPlan,
        ClientError,
    >)
        ensures
            r is Ok <==> in_trash || source_path(*self, *torrent) is Some,
            r matches Ok(plan) ==> {
                &&& in_trash ==> plan.path is None
                &&& !in_trash ==> (plan.path matches Some(path) && source_path(*self, *torrent)
                    == Some(path@))
                &&& plan.removal@ == (CommandView::Remove {
                    hash: torrent.hash@,
                    delete_files: false,
                })
            },
            r matches Err(e) ==> e@ == outside_prefix(*self, *torrent),
    {
        let path = if in_trash {
            None
        } else {
            match self.resolve_source_path(torrent) {
                Ok(path) => Some(path),
                Err(e) => {
                    return Err(e);
                },
            }
        };
        Ok(
            TrashPlan {
                path,
                removal: Command::Remove { hash: torrent.hash.clone(), delete_files: false },
            },
        )
    }

    /// Whether the torrent's destination depends on the save paths that qBittorrent has for
    /// its categories.
    pub fn needs_save_paths(&self, torrent: &Torrent) -> (r: bool)
        ensures
            r == (self.server.categories@.contains_key(torrent.category@)
                && self.server.categories@[torrent.category@]@ == AUTO_DESTINATION@),
    {
        match self.server.categories.get(torrent.category.as_str()) {
            Some(dir) => text::same(dir.as_str(), AUTO_DESTINATION),
            None => false,
        }
    }

    /// Plans the move of a completed torrent's payload to the directory configured for its
    /// category. Torrents in unmapped categories are left untouched. A destination of `auto`
    /// stands for the save path that qBittorrent has for the category.
    pub fn move_and_clean_torrent_files(
        &self,
        torrent: &Torrent,
        save_paths: &NameMap<String>,
    ) -> (r: MovePlan)
        ensures
            plan_fits(r, *self, *torrent, save_paths@),
            r matches MovePlan::HostMove { src, .. } ==> source_path(*self, *torrent) == Some(src@),
    {
        let configured = match self.server.categories.get(torrent.category.as_str()) {
            Some(dir) => dir,
            None => {
                return MovePlan::Skip;
            },
        };
        let dest_dir = if text::same(configured.as_str(), AUTO_DESTINATION) {
            match save_paths.get(torrent.category.as_str()) {
                Some(dir) if !dir.as_str().is_empty() => dir.clone(),
                _ => {
                    return MovePlan::Refuse(
                        ClientError::NoSavePath { category: torrent.category.clone() },
                    );
                },
            }
        } else {
            configured.clone()
        };
        match self.server.after_move {
            AfterMove::KeepSeeding => MovePlan::Relocate(
                Command::SetLocation { hash: torrent.hash.clone(), location: dest_dir },
            ),
            AfterMove::Remove => match self.resolve_source_path(torrent) {
                Ok(src) => MovePlan::HostMove { src, dest_dir },
                Err(e) => MovePlan::Refuse(e),
            },
        }
    }
}

/// How a move on this host ended well.
#[derive(Debug, Clone, Copy, PartialEq, Eq, Structural)]
pub enum MoveOutcome {
    /// The payload was moved to the destination.
    Moved,
    /// The payload was already at the destination and the source is gone —
    /// a previous cycle moved the files but failed before finishing.
    AlreadyMoved,
}

/// How a move on this host failed.
#[derive(Debug, Clone, Copy, PartialEq, Eq, Structural)]
pub enum MoveFailure {
    /// The source path does not exist.
    SourceMissing,
    /// The destination directory could not be created.
    DestinationNotCreated,
    /// Something is at the destination already; it is not overwritten.
    DestinationExists,
    /// The payload could not be copied.
    CopyFailed,
    /// The payload was copied, but the source could not be removed.
    SourceNotRemoved,
    /// The source is neither a file nor a directory.
    NotFileOrDirectory,
}

/// What to ask or do next in a move. Each is answered by yes or no: the answer to the
/// question, or whether the action succeeded.
#[derive(Debug, Clone, Copy, PartialEq, Eq, Structural)]
pub enum MovePhase {
    /// Does the source exist?
    CheckSource,
    /// The source is gone: does the destination exist?
    CheckEarlierMove,
    /// Create the destination directory.
    CreateDirectory,
    /// Does the destination exist?
    CheckDestination,
    /// Rename the source to the destination.
    Rename,
    /// Is the source a file?
    CheckFile,
    /// Copy the file.
    CopyFile,
    /// Remove the source file.
    RemoveFile,
    /// Is the source a directory?
    CheckDirectory,
    /// Copy the contents of the directory.
    CopyDirectory,
    /// Remove the source directory.
    RemoveDirectory,
}

/// What an answer leads to.
#[derive(Debug, Clone, Copy, PartialEq, Eq, Structural)]
pub enum MoveStep {
    Continue(MovePhase),
    Finished(MoveOutcome),
    Failed(MoveFailure),
}

/// What follows from the answer to a phase.
pub open spec fn after_answer(phase: MovePhase, yes: bool) -> MoveStep {
    match (phase, yes) {
        (MovePhase::CheckSource, true) => MoveStep::Continue(MovePhase::CreateDirectory),
        (MovePhase::CheckSource, false) => MoveStep::Continue(MovePhase::CheckEarlierMove),
        (MovePhase::CheckEarlierMove, true) => MoveStep::Finished(MoveOutcome::AlreadyMoved),
        (MovePhase::CheckEarlierMove, false) => MoveStep::Failed(MoveFailure::SourceMissing),
        (MovePhase::CreateDirectory, true) => MoveStep::Continue(MovePhase::CheckDestination),
        (MovePhase::CreateDirectory, false) => MoveStep::Failed(MoveFailure::DestinationNotCreated),
        (MovePhase::CheckDestination, true) => MoveStep::Failed(MoveFailure::DestinationExists),
        (MovePhase::CheckDestination, false) => MoveStep::Continue(MovePhase::Rename),
        (MovePhase::Rename, true) => MoveStep::Finished(MoveOutcome::Moved),
        (MovePhase::Rename, false) => MoveStep::Continue(MovePhase::CheckFile),
        (MovePhase::CheckFile, true) => MoveStep::Continue(MovePhase::CopyFile),
        (MovePhase::CheckFile, false) => MoveStep::Continue(MovePhase::CheckDirectory),
        (MovePhase::CopyFile, true) => MoveStep::Continue(MovePhase::RemoveFile),
        (MovePhase::CopyFile, false) => MoveStep::Failed(MoveFailure::CopyFailed),
        (MovePhase::RemoveFile, true) => MoveStep::Finished(MoveOutcome::Moved),
        (MovePhase::RemoveFile, false) => MoveStep::Failed(MoveFailure::SourceNotRemoved),
        (MovePhase::CheckDirectory, true) => MoveStep::Continue(MovePhase::CopyDirectory),
        (MovePhase::CheckDirectory, false) => MoveStep::Failed(MoveFailure::NotFileOrDirectory),
        (MovePhase::CopyDirectory, true) => MoveStep::Continue(MovePhase::RemoveDirectory),
        (MovePhase::CopyDirectory, false) => MoveStep::Failed(MoveFailure::CopyFailed),
        (MovePhase::RemoveDirectory, true) => MoveStep::Finished(MoveOutcome::Moved),
        (MovePhase::RemoveDirectory, false) => MoveStep::Failed(MoveFailure::SourceNotRemoved),
    }
}

/// Where a move stands after the given answers.
pub open spec fn after_answers(answers: Seq<bool>) -> MoveStep
    decreases answers.len(),
{
    if answers.len() == 0 {
        MoveStep::Continue(MovePhase::CheckSource)
    } else {
        match after_answers(answers.drop_last()) {
            MoveStep::Continue(phase) => after_answer(phase, answers.last()),
            ended => ended,
        }
    }
}

/// The paths of a move.
#[derive(Debug)]
pub struct MoveJob {
    pub src: String,
    pub dest_dir: String,
    /// Where the payload will lie.
    pub dest: String,
}

/// The path of `src` inside of `dest_dir`, unless `src` has no file name.
pub open spec fn dest_path(
    style: PathStyle,
    src: Seq<char>,
    dest_dir: Seq<char>,
) -> Option<Seq<char>> {
    match paths::file_name(style, src) {
        Some(name) => Some(paths::pushed(style, dest_dir, name)),
        None => None,
    }
}

/// Starts the move of `src` (file or directory) into `dest_dir`, preserving its name. `None`
/// where `src` has no file name. The first phase is `MovePhase::CheckSource`.
///
/// A cheap rename is tried first (same-filesystem move), then copy + delete for
/// cross-filesystem moves. Nothing is overwritten.
pub fn move_path(style: PathStyle, src: &str, dest_dir: &str) -> (r: Option<MoveJob>)
    ensures
        r matches Some(job) ==> {
            &&& job.src@ == src@
            &&& job.dest_dir@ == dest_dir@
            &&& dest_path(style, src@, dest_dir@) == Some(job.dest@)
        },
        r is None ==> dest_path(style, src@, dest_dir@) is None,
{
    match paths::file_name_of(style, src) {
        Some(name) => Some(
            MoveJob {
                src: src.to_owned(),
                dest_dir: dest_dir.to_owned(),
                dest: paths::push_path(style, dest_dir, name.as_str()),
            },
        ),
        None => None,
    }
}

/// What follows from the answer to a phase.
pub fn advance_move(phase: MovePhase, yes: bool) -> (r: MoveStep)
    ensures
        r == after_answer(phase, yes),
{
    match phase {
        MovePhase::CheckSource => if yes {
            MoveStep::Continue(MovePhase::CreateDirectory)
        } else {
            MoveStep::Continue(MovePhase::CheckEarlierMove)
        },
        MovePhase::CheckEarlierMove => if yes {
            // Retry-safety: an earlier cycle completed the move but did not
            // get to remove the torrent from qBittorrent.
            MoveStep::Finished(MoveOutcome::AlreadyMoved)
        } else {
            MoveStep::Failed(MoveFailure::SourceMissing)
        },
        MovePhase::CreateDirectory => if yes {
            MoveStep::Continue(MovePhase::CheckDestination)
        } else {
            MoveStep::Failed(MoveFailure::DestinationNotCreated)
        },
        MovePhase::CheckDestination => if yes {
            MoveStep::Failed(MoveFailure::DestinationExists)
        } else {
            MoveStep::Continue(MovePhase::Rename)
        },
        MovePhase::Rename => if yes {
            MoveStep::Finished(MoveOutcome::Moved)
        } else {
            MoveStep::Continue(MovePhase::CheckFile)
        },
        MovePhase::CheckFile => if yes {
            MoveStep::Continue(MovePhase::CopyFile)
        } else {
            MoveStep::Continue(MovePhase::CheckDirectory)
        },
        MovePhase::CopyFile => if yes {
            MoveStep::Continue(MovePhase::RemoveFile)
        } else {
            MoveStep::Failed(MoveFailure::CopyFailed)
        },
        MovePhase::CheckDirectory => if yes {
            MoveStep::Continue(MovePhase::CopyDirectory)
        } else {
            MoveStep::Failed(MoveFailure::NotFileOrDirectory)
        },
        MovePhase::CopyDirectory => if yes {
            MoveStep::Continue(MovePhase::RemoveDirectory)
        } else {
            MoveStep::Failed(MoveFailure::CopyFailed)
        },
        MovePhase::RemoveFile | MovePhase::RemoveDirectory => if yes {
            MoveStep::Finished(MoveOutcome::Moved)
        } else {
            MoveStep::Failed(MoveFailure::SourceNotRemoved)
        },
    }
}

/// Where the flow stands that moves a torrent's payload on this host.
#[derive(Debug, Clone, Copy, PartialEq, Eq, Structural)]
pub enum FlowPhase {
    /// Stop the torrent, so that its file handles are released.
    Stopping,
    /// Wait for `SETTLE_MILLIS`.
    Settling,
    /// Move the payload.
    Moving,
    /// Remove the torrent from qBittorrent; its files stay.
    Removing(MoveOutcome),
}

/// How a phase of the flow ended.
#[derive(Debug, Clone, Copy, PartialEq, Eq, Structural)]
pub enum FlowEvent {
    /// The phase succeeded.
    Succeeded,
    /// The move succeeded.
    Moved(MoveOutcome),
    /// The phase failed.
    Failed,
}

/// What the end of a phase leads to.
#[derive(Debug, Clone, Copy, PartialEq, Eq, Structural)]
pub enum FlowStep {
    Continue(FlowPhase),
    /// The payload is at the destination and the torrent is removed.
    Finished(MoveOutcome),
    /// The payload was not moved; the torrent is kept.
    MoveFailed,
    /// The payload is at the destination, but the torrent could not be removed.
    RemovalFailed(MoveOutcome),
}

/// What follows from the end of a phase. A torrent that cannot be stopped is moved anyway.
pub open spec fn after_event(phase: FlowPhase, event: FlowEvent) -> FlowStep {
    match (phase, event) {
        (FlowPhase::Stopping, FlowEvent::Succeeded) => FlowStep::Continue(FlowPhase::Settling),
        (FlowPhase::Stopping, _) => FlowStep::Continue(FlowPhase::Moving),
        (FlowPhase::Settling, _) => FlowStep::Continue(FlowPhase::Moving),
        (FlowPhase::Moving, FlowEvent::Moved(outcome)) => FlowStep::Continue(
            FlowPhase::Removing(outcome),
        ),
        (FlowPhase::Moving, _) => FlowStep::MoveFailed,
        (FlowPhase::Removing(outcome), FlowEvent::Succeeded) => FlowStep::Finished(outcome),
        (FlowPhase::Removing(outcome), _) => FlowStep::RemovalFailed(outcome),
    }
}

/// Where the flow stands after the given events.
pub open spec fn after_events(events: Seq<FlowEvent>) -> FlowStep
    decreases events.len(),
{
    if events.len() == 0 {
        FlowStep::Continue(FlowPhase::Stopping)
    } else {
        match after_events(events.drop_last()) {
            FlowStep::Continue(phase) => after_event(phase, events.last()),
            ended => ended,
        }
    }
}

/// What follows from the end of a phase of the flow, which starts with
/// `FlowPhase::Stopping`.
///
/// The torrent is stopped first so its file handles are released, and
/// the operation is retry-safe: if a previous cycle moved the files but
/// failed to remove the torrent, the removal is completed this cycle.
pub fn move_torrent_files_to(phase: FlowPhase, event: FlowEvent) -> (r: FlowStep)
    ensures
        r == after_event(phase, event),
{
    match phase {
        FlowPhase::Stopping => match event {
            FlowEvent::Succeeded => FlowStep::Continue(FlowPhase::Settling),
            _ => FlowStep::Continue(FlowPhase::Moving),
        },
        FlowPhase::Settling => FlowStep::Continue(FlowPhase::Moving),
        FlowPhase::Moving => match event {
            FlowEvent::Moved(outcome) => FlowStep::Continue(FlowPhase::Removing(outcome)),
            _ => FlowStep::MoveFailed,
        },
        FlowPhase::Removing(outcome) => match event {
            FlowEvent::Succeeded => FlowStep::Finished(outcome),
            _ => FlowStep::RemovalFailed(outcome),
        },
    }
}

/// What the API is asked for in a phase of the flow.
pub open spec fn phase_command(phase: FlowPhase, hash: Seq<char>) -> Option<CommandView> {
    match phase {
        FlowPhase::Stopping => Some(CommandView::Stop { hash }),
        FlowPhase::Removing(_) => Some(CommandView::Remove { hash, delete_files: false }),
        FlowPhase::Settling => None,
        FlowPhase::Moving => None,
    }
}

/// What the API is asked for in a phase of the flow. The torrent is removed without its files,
/// which have been moved by then.
pub fn flow_command(phase: FlowPhase, torrent: &Torrent) -> (r: Option<Command>)
    ensures
        r matches Some(command) ==> phase_command(phase, torrent.hash@) == Some(command@),
        r is None ==> phase_command(phase, torrent.hash@) is None,
{
    match phase {
        FlowPhase::Stopping => Some(Command::Stop { hash: torrent.hash.clone() }),
        FlowPhase::Removing(_) => Some(
            Command::Remove { hash: torrent.hash.clone(), delete_files: false },
        ),
        FlowPhase::Settling => None,
        FlowPhase::Moving => None,
    }
}

/// Moving a payload never has qBittorrent delete files.
pub proof fn law_moving_deletes_no_files(phase: FlowPhase, hash: Seq<char>)
    ensures
        phase_command(phase, hash) matches Some(command) ==> !(command
            matches CommandView::Remove { delete_files, .. } && delete_files),
{
}

/// The answers that lead to each place of a move.
proof fn lemma_answers(answers: Seq<bool>)
    ensures
        match after_answers(answers) {
            MoveStep::Continue(MovePhase::CheckSource) => answers == Seq::<bool>::empty(),
            MoveStep::Continue(MovePhase::CheckEarlierMove) => answers == seq![false],
            MoveStep::Continue(MovePhase::CreateDirectory) => answers == seq![true],
            MoveStep::Continue(MovePhase::CheckDestination) => answers == seq![true, true],
            MoveStep::Continue(MovePhase::Rename) => answers == seq![true, true, false],
            MoveStep::Continue(MovePhase::CheckFile) => answers == seq![true, true, false, false],
            MoveStep::Continue(MovePhase::CopyFile) => answers == seq![
                true,
                true,
                false,
                false,
                true,
            ],
            MoveStep::Continue(MovePhase::RemoveFile) => answers == seq![
                true,
                true,
                false,
                false,
                true,
                true,
            ],
            MoveStep::Continue(MovePhase::CheckDirectory) => answers == seq![
                true,
                true,
                false,
                false,
                false,
            ],
            MoveStep::Continue(MovePhase::CopyDirectory) => answers == seq![
                true,
                true,
                false,
                false,
                false,
                true,
            ],
            MoveStep::Continue(MovePhase::RemoveDirectory) => answers == seq![
                true,
                true,
                false,
                false,
                false,
                true,
                true,
            ],
            _ => true,
        },
    decreases answers.len(),
{
    if answers.len() > 0 {
        lemma_answers(answers.drop_last());
        assert(answers =~= answers.drop_last().push(answers.last()));
    }
}

/// A move that has ended stays as it ended, whatever is answered after that; the place that
/// it reaches with some answers depends on those alone.
proof fn lemma_answers_prefix(answers: Seq<bool>, n: int)
    requires
        0 <= n <= answers.len(),
    ensures
        !(after_answers(answers.take(n)) is Continue) ==> after_answers(answers) == after_answers(
            answers.take(n),
        ),
        n < answers.len() ==> (after_answers(answers.take(n)) matches MoveStep::Continue(phase)
            ==> after_answers(answers.take(n + 1)) == after_answer(phase, answers[n])),
    decreases answers.len() - n,
{
    if n == answers.len() {
        assert(answers.take(n) =~= answers);
    } else {
        lemma_answers_prefix(answers, n + 1);
        assert(answers.take(n + 1).drop_last() =~= answers.take(n));
        assert(answers.take(n + 1).last() == answers[n]);
    }
}

/// Nothing is overwritten: the payload is renamed or copied only where the source exists and
/// the question whether the destination exists was answered by no.
pub proof fn law_nothing_is_overwritten(answers: Seq<bool>)
    requires
        after_answers(answers) == MoveStep::Continue(MovePhase::Rename) || after_answers(answers)
            == MoveStep::Continue(MovePhase::CopyFile) || after_answers(answers)
            == MoveStep::Continue(MovePhase::CopyDirectory),
    ensures
        answers.len() >= 3,
        after_answers(answers.take(0)) == MoveStep::Continue(MovePhase::CheckSource),
        answers[0],
        after_answers(answers.take(2)) == MoveStep::Continue(MovePhase::CheckDestination),
        !answers[2],
{
    lemma_answers(answers);
    lemma_answers_prefix(answers, 0);
    lemma_answers_prefix(answers, 1);
    lemma_answers_prefix(answers, 2);
}

/// The source is removed only after it was copied.
pub proof fn law_source_is_kept_until_copied(answers: Seq<bool>)
    requires
        after_answers(answers) == MoveStep::Continue(MovePhase::RemoveFile) || after_answers(
            answers,
        ) == MoveStep::Continue(MovePhase::RemoveDirectory),
    ensures
        answers.len() > 0,
        answers.last(),
        after_answers(answers.drop_last()) == (if after_answers(answers) == MoveStep::Continue(
            MovePhase::RemoveFile,
        ) {
            MoveStep::Continue(MovePhase::CopyFile)
        } else {
            MoveStep::Continue(MovePhase::CopyDirectory)
        }),
{
    lemma_answers(answers);
}

/// A failed move leaves the source as it was, unless it failed at removing the source: the
/// source is neither renamed nor removed.
pub proof fn law_failed_move_leaves_the_source(answers: Seq<bool>, n: int)
    requires
        after_answers(answers) is Failed,
        after_answers(answers) != MoveStep::Failed(MoveFailure::SourceNotRemoved),
        0 <= n < answers.len(),
    ensures
        after_answers(answers.take(n)) != MoveStep::Continue(MovePhase::RemoveFile),
        after_answers(answers.take(n)) != MoveStep::Continue(MovePhase::RemoveDirectory),
        after_answers(answers.take(n)) == MoveStep::Continue(MovePhase::Rename) ==> !answers[n],
{
    lemma_answers_prefix(answers, n);
    lemma_answers_prefix(answers, n + 1);
}

/// The answers of a move that refuses to overwrite.
proof fn lemma_destination_existed(answers: Seq<bool>)
    requires
        after_answers(answers) == MoveStep::Failed(MoveFailure::DestinationExists),
    ensures
        answers.len() >= 3,
        answers[0] && answers[1] && answers[2],
    decreases answers.len(),
{
    let before = answers.drop_last();
    lemma_answers(before);
    if !(after_answers(before) is Continue) {
        lemma_destination_existed(before);
        assert(before[0] == answers[0] && before[1] == answers[1] && before[2] == answers[2]);
    } else {
        assert(answers =~= before.push(answers.last()));
    }
}

/// A move that refuses to overwrite has neither renamed nor copied nor removed anything.
pub proof fn law_refusal_comes_before_any_change(answers: Seq<bool>, n: int)
    requires
        after_answers(answers) == MoveStep::Failed(MoveFailure::DestinationExists),
        0 <= n < answers.len(),
        after_answers(answers.take(n)) is Continue,
    ensures
        after_answers(answers.take(n)) == MoveStep::Continue(MovePhase::CheckSource)
            || after_answers(answers.take(n)) == MoveStep::Continue(MovePhase::CreateDirectory)
            || after_answers(answers.take(n)) == MoveStep::Continue(MovePhase::CheckDestination),
{
    let start = answers.take(n);
    lemma_answers(start);
    lemma_destination_existed(answers);
    assert(n > 0 ==> start[0] == answers[0]);
    assert(n > 2 ==> start[2] == answers[2]);
}

/// A source that is gone counts as moved earlier if and only if the destination exists.
pub proof fn law_earlier_move_is_recognized(answers: Seq<bool>)
    requires
        answers.len() >= 2,
    ensures
        (after_answers(answers) == MoveStep::Finished(MoveOutcome::AlreadyMoved)) == (!answers[0]
            && answers[1]),
        (after_answers(answers) == MoveStep::Failed(MoveFailure::SourceMissing)) == (!answers[0]
            && !answers[1]),
{
    lemma_answers_prefix(answers, 0);
    lemma_answers_prefix(answers, 1);
    lemma_answers_prefix(answers, 2);
    assert(answers.take(0) =~= Seq::<bool>::empty());
    if answers[0] {
        lemma_source_was_there(answers, 1);
    }
}

/// A move whose source exists never asks about an earlier move.
proof fn lemma_source_was_there(answers: Seq<bool>, n: int)
    requires
        1 <= n <= answers.len(),
        answers[0],
    ensures
        after_answers(answers) != MoveStep::Finished(MoveOutcome::AlreadyMoved),
        after_answers(answers) != MoveStep::Failed(MoveFailure::SourceMissing),
        after_answers(answers) != MoveStep::Continue(MovePhase::CheckEarlierMove),
    decreases answers.len(),
{
    if answers.len() == 1 {
        assert(answers.drop_last() =~= Seq::<bool>::empty());
        reveal_with_fuel(after_answers, 2);
    } else {
        assert(answers.drop_last()[0] == answers[0]);
        lemma_source_was_there(answers.drop_last(), 1);
        lemma_answers(answers);
    }
}

/// A move ends after at most eight answers.
pub proof fn law_move_ends(answers: Seq<bool>)
    requires
        answers.len() >= 8,
    ensures
        !(after_answers(answers) is Continue),
{
    lemma_answers(answers);
}

/// The torrent is removed only once its payload is at the destination.
pub proof fn law_torrent_is_kept_until_moved(events: Seq<FlowEvent>)
    ensures
        match after_events(events) {
            FlowStep::Continue(FlowPhase::Removing(outcome)) => events.len() > 0 && events.last()
                == FlowEvent::Moved(outcome) && after_events(events.drop_last())
                == FlowStep::Continue(FlowPhase::Moving),
            FlowStep::Finished(outcome) => events.contains(FlowEvent::Moved(outcome)),
            FlowStep::RemovalFailed(outcome) => events.contains(FlowEvent::Moved(outcome)),
            _ => true,
        },
    decreases events.len(),
{
    if events.len() > 0 {
        let before = events.drop_last();
        law_torrent_is_kept_until_moved(before);
        match after_events(before) {
            FlowStep::Continue(FlowPhase::Removing(outcome)) => {
                assert(events[events.len() - 2] == before.last());
                assert(events.contains(FlowEvent::Moved(outcome)));
            },
            FlowStep::Finished(outcome) => {
                let i = choose|i: int|
                    0 <= i < before.len() && before[i] == FlowEvent::Moved(outcome);
                assert(events[i] == before[i]);
            },
            FlowStep::RemovalFailed(outcome) => {
                let i = choose|i: int|
                    0 <= i < before.len() && before[i] == FlowEvent::Moved(outcome);
                assert(events[i] == before[i]);
            },
            _ => {},
        }
    }
}

/// A torrent that cannot be stopped is moved all the same, without a wait.
pub proof fn law_stop_is_best_effort()
    ensures
        after_events(seq![FlowEvent::Failed]) == FlowStep::Continue(FlowPhase::Moving),
        after_events(seq![FlowEvent::Succeeded]) == FlowStep::Continue(FlowPhase::Settling),
        after_events(seq![FlowEvent::Succeeded, FlowEvent::Succeeded]) == FlowStep::Continue(
            FlowPhase::Moving,
        ),
{
    reveal_with_fuel(after_events, 3);
    assert(seq![FlowEvent::Failed].drop_last() =~= Seq::empty());
    assert(seq![FlowEvent::Succeeded].drop_last() =~= Seq::empty());
    assert(seq![FlowEvent::Succeeded, FlowEvent::Succeeded].drop_last()
        =~= seq![FlowEvent::Succeeded]);
}

/// A payload that an earlier cycle moved is followed by the removal that this cycle missed:
/// where the source is gone and the destination exists, the flow goes on to remove the
/// torrent, and finishes when that succeeds.
pub proof fn law_retry_completes_the_removal(answers: Seq<bool>, events: Seq<FlowEvent>)
    requires
        answers == seq![false, true],
        after_events(events) == FlowStep::Continue(FlowPhase::Moving),
    ensures
        after_answers(answers) == MoveStep::Finished(MoveOutcome::AlreadyMoved),
        after_events(
            events.push(FlowEvent::Moved(MoveOutcome::AlreadyMoved)).push(FlowEvent::Succeeded),
        ) == FlowStep::Finished(MoveOutcome::AlreadyMoved),
{
    law_earlier_move_is_recognized(answers);
    let moved = events.push(FlowEvent::Moved(MoveOutcome::AlreadyMoved));
    assert(moved.drop_last() =~= events);
    assert(after_events(moved) == FlowStep::Continue(
        FlowPhase::Removing(MoveOutcome::AlreadyMoved),
    ));
    assert(moved.push(FlowEvent::Succeeded).drop_last() =~= moved);
}

/// The prefix of the path goes and the local root takes its place: what lies below
/// `path_prefix` on the qBittorrent host lies at the same place below `root_path` here.
pub proof fn law_prefix_is_replaced(client: TorrentClient, t: Torrent, below: Seq<Seq<char>>)
    requires
        client.server.path_prefix is Some,
        client.server.path_prefix->0@.len() > 0,
        paths::components(client.style, remote_path(client.style, t)) == paths::components(
            client.style,
            client.server.path_prefix->0@,
        ) + below,
    ensures
        source_path(client, t) == Some(
            paths::pushed(
                client.style,
                local_root(client.server),
                paths::render(client.style, below),
            ),
        ),
{
    let outer = paths::components(client.style, client.server.path_prefix->0@);
    let whole = paths::components(client.style, remote_path(client.style, t));
    assert(whole.skip(outer.len() as int) =~= below);
    assert(paths::starts_with(client.style, whole, outer));
}

/// An idle separator at the end of `path_prefix` does not matter, such as any slash on Unix.
pub proof fn law_prefix_slash_does_not_matter(
    client: TorrentClient,
    slashed: TorrentClient,
    t: Torrent,
    sep: char,
)
    requires
        client.server.path_prefix is Some,
        paths::is_idle(client.style, client.server.path_prefix->0@, sep),
        slashed.style == client.style,
        slashed.server.path_prefix is Some,
        slashed.server.path_prefix->0@ == client.server.path_prefix->0@.push(sep),
        slashed.server.root_path == client.server.root_path,
    ensures
        source_path(slashed, t) == source_path(client, t),
{
    paths::law_trailing_separator(client.style, client.server.path_prefix->0@, sep);
}

/// With a `path_prefix`, the mapping is the same whether the path comes from `content_path` or
/// from `save_path` and `name`, where the two have the same components.
pub proof fn law_content_path_is_optional(client: TorrentClient, with: Torrent, without: Torrent)
    requires
        client.server.path_prefix is Some,
        client.server.path_prefix->0@.len() > 0,
        with.content_path is Some,
        with.content_path->0@.len() > 0,
        without.content_path is None,
        paths::components(client.style, with.content_path->0@) == paths::components(
            client.style,
            paths::pushed(client.style, without.save_path@, without.name@),
        ),
    ensures
        source_path(client, with) == source_path(client, without),
{
}

/// The path that a torrent is mapped to on a Unix host reads back as what lies below the
/// prefix, seen from the local root.
pub proof fn law_resolved_path_reads_back(client: TorrentClient, t: Torrent)
    requires
        client.style == PathStyle::Unix,
        relative_path(client, t) is Some,
    ensures
        paths::components(client.style, source_path(client, t)->0) == paths::joined(
            paths::components(client.style, local_root(client.server)),
            paths::components(client.style, relative_path(client, t)->0),
        ),
{
    let base = local_root(client.server);
    let below = relative_path(client, t)->0;
    if below.len() > 0 && below[0] == '/' {
        assert(base.take(0) + below =~= below);
        assert(below.skip(0) =~= below);
        assert(paths::slashed(client.style, below) =~= below);
    } else {
        paths::law_pushed_path_reads_back(client.style, base, below);
    }
}

/// Torrents in unmapped categories are left untouched.
pub proof fn law_unmapped_category_is_skipped(
    plan: MovePlan,
    client: TorrentClient,
    t: Torrent,
    save_paths: Map<Seq<char>, String>,
)
    requires
        plan_fits(plan, client, t, save_paths),
    ensures
        plan is Skip <==> !client.server.categories@.contains_key(t.category@),
{
}

/// A server that keeps seeding never moves a payload on this host, and so never removes a
/// torrent for it.
pub proof fn law_kept_torrents_are_not_removed(
    plan: MovePlan,
    client: TorrentClient,
    t: Torrent,
    save_paths: Map<Seq<char>, String>,
)
    requires
        plan_fits(plan, client, t, save_paths),
        client.server.after_move == AfterMove::KeepSeeding,
    ensures
        !(plan is HostMove),
        plan matches MovePlan::Relocate(command) ==> command@ is SetLocation,
{
}

/// The answers of a move by a rename.
pub open spec fn rename_answers() -> Seq<bool> {
    seq![true, true, false, true]
}

/// The answers of a move of a file by copy and removal.
pub open spec fn copy_file_answers() -> Seq<bool> {
    seq![true, true, false, false, true, true, true]
}

/// The answers of a move of a directory by copy and removal.
pub open spec fn copy_directory_answers() -> Seq<bool> {
    seq![true, true, false, false, false, true, true, true]
}

/// A move that ends as moved has renamed the source, or copied the file and removed it, or
/// copied the directory and removed it; there is no other way.
pub proof fn law_moved_means_renamed_or_copied(answers: Seq<bool>)
    requires
        after_answers(answers) == MoveStep::Finished(MoveOutcome::Moved),
    ensures
        rename_answers().is_prefix_of(answers) || copy_file_answers().is_prefix_of(answers)
            || copy_directory_answers().is_prefix_of(answers),
    decreases answers.len(),
{
    let before = answers.drop_last();
    assert(answers =~= before.push(answers.last()));
    lemma_answers(before);
    if after_answers(before) is Continue {
        assert(rename_answers().is_prefix_of(answers) || copy_file_answers().is_prefix_of(answers)
            || copy_directory_answers().is_prefix_of(answers));
    } else {
        law_moved_means_renamed_or_copied(before);
    }
}

/// What lies at the two ends of a move: nothing, or some content.
pub struct Ends<C> {
    pub source: Option<C>,
    pub dest: Option<C>,
}

/// What a phase does to the two ends where it is answered by `yes`. Questions are answered
/// truthfully and change nothing. A rename or a copy that succeeds carries the whole content
/// over; a rename that fails changes nothing, and a copy that fails leaves the source as it is.
pub open spec fn carried_out<C>(
    phase: MovePhase,
    before: Ends<C>,
    yes: bool,
    after: Ends<C>,
) -> bool {
    match phase {
        MovePhase::CheckSource => yes == before.source is Some && after == before,
        MovePhase::CheckEarlierMove => yes == before.dest is Some && after == before,
        MovePhase::CheckDestination => yes == before.dest is Some && after == before,
        MovePhase::CreateDirectory => after == before,
        MovePhase::CheckFile => after == before,
        MovePhase::CheckDirectory => after == before,
        MovePhase::Rename => after == (if yes {
            Ends { source: None, dest: before.source }
        } else {
            before
        }),
        MovePhase::CopyFile | MovePhase::CopyDirectory => after.source == before.source && (yes
            ==> after.dest == before.source),
        MovePhase::RemoveFile | MovePhase::RemoveDirectory => after.dest == before.dest && (yes
            ==> after.source is None),
    }
}

/// `ends` lists what lies at the two ends before each answer of a move and after the last.
pub open spec fn move_carried_out<C>(answers: Seq<bool>, ends: Seq<Ends<C>>) -> bool {
    &&& ends.len() == answers.len() + 1
    &&& forall|n: int|
        #![trigger ends[n]]
        0 <= n < answers.len() ==> (after_answers(answers.take(n)) matches MoveStep::Continue(phase)
            && carried_out(phase, ends[n], answers[n], ends[n + 1]))
}

/// What is known of the two ends at a place of a move, given what they held at first.
spec fn ends_fit<C>(step: MoveStep, first: Ends<C>, now: Ends<C>) -> bool {
    match step {
        MoveStep::Continue(phase) => match phase {
            MovePhase::CheckSource => now == first,
            MovePhase::CheckEarlierMove => now == first && first.source is None,
            MovePhase::CreateDirectory => now == first && first.source is Some,
            MovePhase::CheckDestination => now == first && first.source is Some,
            MovePhase::RemoveFile => first.source is Some && first.dest is None && now.source
                == first.source && now.dest == first.source,
            MovePhase::RemoveDirectory => first.source is Some && first.dest is None && now.source
                == first.source && now.dest == first.source,
            _ => now == first && first.source is Some && first.dest is None,
        },
        MoveStep::Finished(MoveOutcome::Moved) => first.source is Some && first.dest is None
            && now.source is None && now.dest == first.source,
        MoveStep::Finished(MoveOutcome::AlreadyMoved) => first.source is None && first.dest is Some
            && now == first,
        MoveStep::Failed(failure) => failure != MoveFailure::SourceNotRemoved ==> now.source
            == first.source,
    }
}

/// One phase takes what is known of the ends from one place to the next.
proof fn lemma_phase_fits<C>(
    phase: MovePhase,
    yes: bool,
    first: Ends<C>,
    before: Ends<C>,
    after: Ends<C>,
)
    requires
        ends_fit(MoveStep::Continue(phase), first, before),
        carried_out(phase, before, yes, after),
    ensures
        ends_fit(after_answer(phase, yes), first, after),
{
}

proof fn lemma_move_progress<C>(answers: Seq<bool>, ends: Seq<Ends<C>>)
    requires
        move_carried_out(answers, ends),
    ensures
        ends_fit(after_answers(answers), ends[0], ends.last()),
    decreases answers.len(),
{
    if answers.len() > 0 {
        let n = answers.len() - 1;
        let fewer = answers.drop_last();
        let shorter = ends.drop_last();
        assert(answers.take(n) =~= fewer);
        assert forall|k: int|
            #![trigger shorter[k]]
            0 <= k < fewer.len() implies (after_answers(fewer.take(k)) matches MoveStep::Continue(
            phase,
        ) && carried_out(phase, shorter[k], fewer[k], shorter[k + 1])) by {
            assert(fewer.take(k) =~= answers.take(k));
            assert(ends[k] == shorter[k] && ends[k + 1] == shorter[k + 1]);
        }
        lemma_move_progress(fewer, shorter);
        assert(shorter.last() == ends[n]);
        assert(shorter[0] == ends[0]);
        if let MoveStep::Continue(phase) = after_answers(fewer) {
            lemma_phase_fits(phase, answers[n], ends[0], ends[n], ends[n + 1]);
        }
    }
}

/// A move that ends as moved took what was there to a place where nothing was: the source is
/// gone and the destination holds just what the source held, by rename and by copy alike.
pub proof fn law_moved_payload_is_at_the_destination<C>(answers: Seq<bool>, ends: Seq<Ends<C>>)
    requires
        move_carried_out(answers, ends),
        after_answers(answers) == MoveStep::Finished(MoveOutcome::Moved),
    ensures
        ends[0].source is Some,
        ends[0].dest is None,
        ends.last().source is None,
        ends.last().dest == ends[0].source,
{
    lemma_move_progress(answers, ends);
}

/// A move that fails before it removes the source leaves it as it was.
pub proof fn law_failed_move_keeps_the_payload<C>(answers: Seq<bool>, ends: Seq<Ends<C>>)
    requires
        move_carried_out(answers, ends),
        after_answers(answers) matches MoveStep::Failed(f) && f != MoveFailure::SourceNotRemoved,
    ensures
        ends.last().source == ends[0].source,
{
    lemma_move_progress(answers, ends);
}

/// The same move once more recognizes that it is done and changes nothing.
pub proof fn law_second_move_changes_nothing<C>(
    answers: Seq<bool>,
    ends: Seq<Ends<C>>,
    again: Seq<bool>,
    later: Seq<Ends<C>>,
)
    requires
        move_carried_out(answers, ends),
        after_answers(answers) == MoveStep::Finished(MoveOutcome::Moved),
        move_carried_out(again, later),
        later[0] == ends.last(),
        !(after_answers(again) is Continue),
    ensures
        after_answers(again) == MoveStep::Finished(MoveOutcome::AlreadyMoved),
        later.last() == ends.last(),
{
    lemma_move_progress(answers, ends);
    lemma_move_progress(again, later);
    assert(again.len() > 0);
    assert(again.take(0) =~= Seq::<bool>::empty());
    assert(carried_out(MovePhase::CheckSource, later[0], again[0], later[1]));
    lemma_answers_prefix(again, 0);
    lemma_answers_prefix(again, 1);
    if again.len() == 1 {
        assert(again.take(1) =~= again);
    } else {
        assert(carried_out(MovePhase::CheckEarlierMove, later[1], again[1], later[2]));
        law_earlier_move_is_recognized(again);
    }
}

/// Where the payload lies on the qBittorrent host, on Unix: at the content path, or at the name
/// below the save path where there is none. A name that is an absolute path stands for itself.
pub proof fn law_reported_path_has_these_components(t: Torrent)
    ensures
        ({
            let unix = PathStyle::Unix;
            let reported = paths::components(unix, remote_path(unix, t));
            let name = paths::components(unix, t.name@);
            let saved = paths::components(unix, t.save_path@);
            if t.content_path is Some && t.content_path->0@.len() > 0 {
                remote_path(unix, t) == t.content_path->0@
            } else if saved.len() == 0 || (name.len() > 0 && name[0].len() == 0) {
                reported == name
            } else if name.len() > 0 && name[0] == seq!['.'] {
                reported == saved + name.skip(1)
            } else {
                reported == saved + name
            }
        }),
{
    let unix = PathStyle::Unix;
    let name = paths::components(unix, t.name@);
    if t.name@.len() > 0 && t.name@[0] == '/' {
        assert(paths::slashed(unix, t.name@.skip(0))[0] == '/');
        assert(name[0] == paths::root());
        paths::law_unix_path_is_put_below(t.save_path@, t.name@);
    } else {
        paths::law_pushed_path_reads_back(unix, t.save_path@, t.name@);
        assert(paths::slashed(unix, t.name@.skip(0)) =~= t.name@);
        if name.len() > 0 && name[0].len() == 0 {
            assert(name[0] =~= paths::root());
        }
    }
}

/// With `path_prefix` set, a payload has a place on this host exactly when the components of the
/// prefix lead those of its reported path. That place is the same one below `root_path`: the
/// components of `root_path`, followed by the reported ones behind the prefix, written with
/// single slashes.
pub proof fn law_local_path_lies_below_the_root(client: TorrentClient, t: Torrent)
    requires
        client.style == PathStyle::Unix,
        client.server.path_prefix is Some,
        client.server.path_prefix->0@.len() > 0,
    ensures
        ({
            let unix = PathStyle::Unix;
            let reported = paths::components(unix, remote_path(unix, t));
            let prefix = paths::components(unix, client.server.path_prefix->0@);
            let root = if client.server.root_path is Some {
                client.server.root_path->0@
            } else {
                Seq::empty()
            };
            let below = reported.skip(prefix.len() as int);
            &&& source_path(client, t) is Some <==> prefix.is_prefix_of(reported)
            &&& source_path(client, t) matches Some(src) ==> {
                &&& paths::components(unix, src) == paths::components(unix, root) + below
                &&& src == root + (if root.len() > 0 && root.last() != '/' {
                    seq!['/']
                } else {
                    Seq::empty()
                }) + text::join(below, seq!['/'])
            }
        }),
{
    let unix = PathStyle::Unix;
    let remote = remote_path(unix, t);
    let reported = paths::components(unix, remote);
    let prefix = paths::components(unix, client.server.path_prefix->0@);
    let root = local_root(client.server);
    let below = reported.skip(prefix.len() as int);
    paths::law_unix_prefix_is_exact(reported, prefix);
    paths::lemma_not_empty(unix, client.server.path_prefix->0@);
    if prefix.is_prefix_of(reported) {
        paths::law_stripped_path_goes_below_the_base(unix, remote, prefix.len() as int, root);
        let tail = paths::render(unix, below);
        paths::law_stripped_path_is_relative(remote, prefix.len() as int);
        paths::law_unix_path_is_put_below(root, tail);
        assert(root + Seq::<char>::empty() + tail =~= root + tail);
    }
}

/// Where a payload is to be moved on this host and `path_prefix` is set, the source that is
/// planned is the payload's place below `root_path`: its components are those of `root_path`
/// followed by those of the reported path that stand behind the components of `path_prefix`.
/// What is reported is the content path, or the name below the save path where there is none.
pub proof fn law_planned_source_lies_below_the_root(
    plan: MovePlan,
    client: TorrentClient,
    t: Torrent,
    save_paths: Map<Seq<char>, String>,
)
    requires
        plan_fits(plan, client, t, save_paths),
        client.style == PathStyle::Unix,
        client.server.path_prefix is Some,
        client.server.path_prefix->0@.len() > 0,
    ensures
        plan matches MovePlan::HostMove { src, .. } ==> {
            let unix = PathStyle::Unix;
            let name = paths::components(unix, t.name@);
            let saved = paths::components(unix, t.save_path@);
            let reported = if t.content_path is Some && t.content_path->0@.len() > 0 {
                paths::components(unix, t.content_path->0@)
            } else if saved.len() == 0 || (name.len() > 0 && name[0].len() == 0) {
                name
            } else if name.len() > 0 && name[0] == seq!['.'] {
                saved + name.skip(1)
            } else {
                saved + name
            };
            let prefix = paths::components(unix, client.server.path_prefix->0@);
            let root = if client.server.root_path is Some {
                client.server.root_path->0@
            } else {
                Seq::empty()
            };
            let below = reported.skip(prefix.len() as int);
            &&& prefix.is_prefix_of(reported)
            &&& paths::components(unix, src@) == paths::components(unix, root) + below
            &&& src@ == root + (if root.len() > 0 && root.last() != '/' {
                seq!['/']
            } else {
                Seq::empty()
            }) + text::join(below, seq!['/'])
        },
{
    law_local_path_lies_below_the_root(client, t);
    law_reported_path_has_these_components(t);
}

/// The same on Windows. Left out is what Windows reads in another
/// way: verbatim paths, a rest that starts with the root or "." behind a prefix alone or like a
/// drive, and a `root_path` that is a drive alone or only becomes a share with the rest behind
/// it.
pub proof fn law_planned_source_lies_below_a_windows_root(
    plan: MovePlan,
    client: TorrentClient,
    t: Torrent,
    save_paths: Map<Seq<char>, String>,
)
    requires
        plan_fits(plan, client, t, save_paths),
        client.style == PathStyle::Windows,
        client.server.path_prefix is Some,
        client.server.path_prefix->0@.len() > 0,
        client.server.root_path is Some,
        ({
            let windows = PathStyle::Windows;
            let prefix = paths::components(windows, client.server.path_prefix->0@);
            let reported = remote_path(windows, t);
            let below = paths::components(windows, reported).skip(prefix.len() as int);
            let tail = paths::render(windows, below);
            let root = client.server.root_path->0@;
            &&& !paths::is_verbatim(windows, reported)
            &&& !paths::is_verbatim(windows, root)
            &&& below.len() > 0 ==> below[0] != paths::root() && below[0] != paths::here()
            &&& paths::prefix_length(windows, tail) == 0
            &&& !(root.len() == 2 && paths::has_drive(windows, root))
            &&& root.len() > 0 ==> paths::prefix_length(
                windows,
                paths::pushed(windows, root, tail),
            ) == paths::prefix_length(windows, root)
        }),
    ensures
        plan matches MovePlan::HostMove { src, .. } ==> {
            let windows = PathStyle::Windows;
            let reported = paths::components(windows, remote_path(windows, t));
            let prefix = paths::components(windows, client.server.path_prefix->0@);
            let root = paths::components(windows, client.server.root_path->0@);
            &&& prefix.len() <= reported.len()
            &&& prefix.skip(1).is_prefix_of(reported.skip(1))
            &&& paths::components(windows, src@) == root + reported.skip(prefix.len() as int)
        },
{
    if let MovePlan::HostMove { src, .. } = plan {
        let windows = PathStyle::Windows;
        let reported = paths::components(windows, remote_path(windows, t));
        let prefix = paths::components(windows, client.server.path_prefix->0@);
        paths::lemma_not_empty(windows, client.server.path_prefix->0@);
        paths::law_windows_prefix_ignores_the_case_of_a_drive(reported, prefix);
        paths::law_stripped_path_goes_below_the_base(
            windows,
            remote_path(windows, t),
            prefix.len() as int,
            client.server.root_path->0@,
        );
    }
}

/// On any host, what is planned is the text of the components that the reported path has behind
/// those of `path_prefix`, seen from `root_path`.
pub proof fn law_planned_source_is_put_below_the_root(
    plan: MovePlan,
    client: TorrentClient,
    t: Torrent,
    save_paths: Map<Seq<char>, String>,
)
    requires
        plan_fits(plan, client, t, save_paths),
    ensures
        plan matches MovePlan::HostMove { src, .. } ==> {
            let style = client.style;
            let prefixed = client.server.path_prefix is Some && client.server.path_prefix->0@.len()
                > 0;
            let prefix = paths::components(style, client.server.path_prefix->0@);
            let text = if t.content_path is Some && t.content_path->0@.len() > 0 {
                t.content_path->0@
            } else {
                paths::pushed(style, t.save_path@, t.name@)
            };
            let reported = paths::components(style, text);
            let root = if client.server.root_path is Some {
                client.server.root_path->0@
            } else {
                Seq::empty()
            };
            &&& prefixed ==> paths::starts_with(style, reported, prefix)
            &&& prefixed ==> src@ == paths::pushed(
                style,
                root,
                paths::render(style, reported.skip(prefix.len() as int)),
            )
            &&& !prefixed ==> src@ == paths::pushed(style, root, text)
        },
{
}

/// Without a `path_prefix` the reported path is taken as it is: an absolute one is the planned
/// source, a relative one lies below `root_path`.
pub proof fn law_planned_source_without_a_prefix(
    plan: MovePlan,
    client: TorrentClient,
    t: Torrent,
    save_paths: Map<Seq<char>, String>,
)
    requires
        plan_fits(plan, client, t, save_paths),
        client.style == PathStyle::Unix,
        client.server.path_prefix is None || client.server.path_prefix->0@.len() == 0,
        t.content_path is Some,
        t.content_path->0@.len() > 0,
    ensures
        plan matches MovePlan::HostMove { src, .. } ==> {
            let reported = t.content_path->0@;
            let root = if client.server.root_path is Some {
                client.server.root_path->0@
            } else {
                Seq::empty()
            };
            src@ == (if reported[0] == '/' || root.len() == 0 {
                reported
            } else if root.last() == '/' {
                root + reported
            } else {
                root + seq!['/'] + reported
            })
        },
        !(plan matches MovePlan::Refuse(e) && e@ is PathOutsidePrefix),
{
    let root = local_root(client.server);
    paths::law_unix_path_is_put_below(root, t.content_path->0@);
    if root.len() == 0 {
        assert(root + t.content_path->0@ =~= t.content_path->0@);
    }
}

/// What is planned for a torrent in a mapped category. The payload goes to the directory that
/// is configured for the category, or with `auto` to the save path that qBittorrent has for it,
/// by qBittorrent itself where the torrent is to be kept seeding and on this host otherwise. It
/// is refused where that save path is missing or empty, or where the payload lies outside of
/// `path_prefix`, and for nothing else.
pub proof fn law_plan_follows_the_configuration(
    plan: MovePlan,
    client: TorrentClient,
    t: Torrent,
    save_paths: Map<Seq<char>, String>,
)
    requires
        plan_fits(plan, client, t, save_paths),
        client.server.categories@.contains_key(t.category@),
    ensures
        ({
            let configured = client.server.categories@[t.category@]@;
            let auto = configured == "auto"@;
            let unknown = auto && !(save_paths.contains_key(t.category@)
                && save_paths[t.category@]@.len() > 0);
            let dir = if auto {
                save_paths[t.category@]@
            } else {
                configured
            };
            let prefix = paths::components(client.style, client.server.path_prefix->0@);
            let reported = paths::components(client.style, remote_path(client.style, t));
            let outside = client.server.path_prefix is Some
                && client.server.path_prefix->0@.len() > 0 && !paths::starts_with(
                client.style,
                reported,
                prefix,
            );
            let keeps = client.server.after_move == AfterMove::KeepSeeding;
            if unknown {
                plan matches MovePlan::Refuse(e) && e@ == (ErrorView::NoSavePath {
                    category: t.category@,
                })
            } else if keeps {
                plan matches MovePlan::Relocate(command) && command@ == (CommandView::SetLocation {
                    hash: t.hash@,
                    location: dir,
                })
            } else if outside {
                plan matches MovePlan::Refuse(e) && e@ == (ErrorView::PathOutsidePrefix {
                    path: remote_path(client.style, t),
                    prefix: client.server.path_prefix->0@,
                })
            } else {
                plan matches MovePlan::HostMove { dest_dir, .. } && dest_dir@ == dir
            }
        }),
{
}

/// A payload that is moved keeps its name: it goes to the last component of its path, below the
/// destination directory. On Unix its new place has the components of that directory and the
/// name behind them.
pub proof fn law_moved_payload_keeps_its_name(src: Seq<char>, dest_dir: Seq<char>)
    ensures
        ({
            let unix = PathStyle::Unix;
            let from = paths::components(unix, src);
            let named = from.len() > 0 && from.last().len() > 0 && from.last() != seq!['.']
                && from.last() != seq!['.', '.'];
            &&& dest_path(unix, src, dest_dir) is Some <==> named
            &&& dest_path(unix, src, dest_dir) matches Some(dest) ==> paths::components(unix, dest)
                == paths::components(unix, dest_dir).push(from.last())
        }),
{
    let unix = PathStyle::Unix;
    let from = paths::components(unix, src);
    paths::law_file_name_is_the_last_component(unix, src);
    if dest_path(unix, src, dest_dir) is Some {
        let name = from.last();
        let none = Seq::<char>::empty();
        paths::law_components_are_well_formed(unix, src);
        assert(paths::is_name(name)) by {
            assert(name == from[from.len() - 1]);
        }
        assert(!name.contains('/'));
        assert(name.contains(name[0]));
        paths::law_slashes_divide_components(name, none, none);
        paths::law_pushed_path_reads_back(unix, dest_dir, name);
        let base = paths::components(unix, dest_dir);
        assert(paths::joined(base, seq![name]) =~= base.push(name));
    }
}

/// The torrent is stopped first and removed last, without its files; in between nothing is asked
/// of the API.
pub proof fn law_flow_stops_first_and_removes_last(
    hash: Seq<char>,
    event: FlowEvent,
    outcome: MoveOutcome,
)
    ensures
        after_events(Seq::empty()) == FlowStep::Continue(FlowPhase::Stopping),
        phase_command(FlowPhase::Stopping, hash) == Some(CommandView::Stop { hash }),
        phase_command(FlowPhase::Settling, hash) is None,
        phase_command(FlowPhase::Moving, hash) is None,
        phase_command(FlowPhase::Removing(outcome), hash) == Some(
            CommandView::Remove { hash, delete_files: false },
        ),
        after_event(FlowPhase::Stopping, event) == FlowStep::Continue(
            if event == FlowEvent::Succeeded {
                FlowPhase::Settling
            } else {
                FlowPhase::Moving
            },
        ),
        after_event(FlowPhase::Settling, event) == FlowStep::Continue(FlowPhase::Moving),
        after_event(FlowPhase::Moving, FlowEvent::Moved(outcome)) == FlowStep::Continue(
            FlowPhase::Removing(outcome),
        ),
        after_event(FlowPhase::Moving, FlowEvent::Failed) == FlowStep::MoveFailed,
        after_event(FlowPhase::Removing(outcome), FlowEvent::Succeeded) == FlowStep::Finished(
            outcome,
        ),
        event != FlowEvent::Succeeded ==> after_event(FlowPhase::Removing(outcome), event)
            == FlowStep::RemovalFailed(outcome),
{
}

/// What a move asks and does: the questions and actions follow each other in this order, and
/// each way to fail belongs to one of them.
pub proof fn law_move_goes_step_by_step(yes: bool)
    ensures
        after_answers(Seq::empty()) == MoveStep::Continue(MovePhase::CheckSource),
        after_answer(MovePhase::CheckSource, yes) == MoveStep::Continue(
            if yes {
                MovePhase::CreateDirectory
            } else {
                MovePhase::CheckEarlierMove
            },
        ),
        after_answer(MovePhase::CheckEarlierMove, yes) == (if yes {
            MoveStep::Finished(MoveOutcome::AlreadyMoved)
        } else {
            MoveStep::Failed(MoveFailure::SourceMissing)
        }),
        after_answer(MovePhase::CreateDirectory, yes) == (if yes {
            MoveStep::Continue(MovePhase::CheckDestination)
        } else {
            MoveStep::Failed(MoveFailure::DestinationNotCreated)
        }),
        after_answer(MovePhase::CheckDestination, yes) == (if yes {
            MoveStep::Failed(MoveFailure::DestinationExists)
        } else {
            MoveStep::Continue(MovePhase::Rename)
        }),
        after_answer(MovePhase::Rename, yes) == (if yes {
            MoveStep::Finished(MoveOutcome::Moved)
        } else {
            MoveStep::Continue(MovePhase::CheckFile)
        }),
        after_answer(MovePhase::CheckFile, yes) == MoveStep::Continue(
            if yes {
                MovePhase::CopyFile
            } else {
                MovePhase::CheckDirectory
            },
        ),
        after_answer(MovePhase::CheckDirectory, yes) == (if yes {
            MoveStep::Continue(MovePhase::CopyDirectory)
        } else {
            MoveStep::Failed(MoveFailure::NotFileOrDirectory)
        }),
        !yes ==> after_answer(MovePhase::CopyFile, yes) == MoveStep::Failed(MoveFailure::CopyFailed)
            && after_answer(MovePhase::CopyDirectory, yes) == MoveStep::Failed(
            MoveFailure::CopyFailed,
        ) && after_answer(MovePhase::RemoveFile, yes) == MoveStep::Failed(
            MoveFailure::SourceNotRemoved,
        ) && after_answer(MovePhase::RemoveDirectory, yes) == MoveStep::Failed(
            MoveFailure::SourceNotRemoved,
        ),
        yes ==> after_answer(MovePhase::CopyFile, yes) == MoveStep::Continue(MovePhase::RemoveFile)
            && after_answer(MovePhase::CopyDirectory, yes) == MoveStep::Continue(
            MovePhase::RemoveDirectory,
        ) && after_answer(MovePhase::RemoveFile, yes) == MoveStep::Finished(MoveOutcome::Moved)
            && after_answer(MovePhase::RemoveDirectory, yes) == MoveStep::Finished(
            MoveOutcome::Moved,
        ),
{
}

/// The content path is where the payload lies, wherever qBittorrent gives one; else the payload
/// lies at the name below the save path.
pub proof fn law_content_path_comes_first(style: PathStyle, t: Torrent)
    ensures
        t.content_path is Some && t.content_path->0@.len() > 0 ==> remote_path(style, t)
            == t.content_path->0@,
        t.content_path is None || t.content_path->0@.len() == 0 ==> remote_path(style, t)
            == paths::pushed(style, t.save_path@, t.name@),
{
}

/// A payload that is moved goes to its file name below the destination directory, on any host.
pub proof fn law_payload_goes_below_the_directory(
    style: PathStyle,
    src: Seq<char>,
    dest_dir: Seq<char>,
)
    ensures
        ({
            let from = paths::components(style, src);
            let last = from.last();
            let named = from.len() > 0 && last.len() > 0 && last != seq!['.'] && last
                != seq!['.', '.'] && !(from.len() == 1 && paths::prefix_length(style, src) > 0);
            &&& named ==> dest_path(style, src, dest_dir) == Some(
                paths::pushed(style, dest_dir, last),
            )
            &&& !named ==> dest_path(style, src, dest_dir) is None
        }),
{
    paths::law_file_name_is_the_last_component(style, src);
}

} // verus!
