//! Job dispatch: which pipelines run where, and in which order their stages
//! are spawned.
//!
//! A submitted line parses into pipelines. Those marked for the background
//! go, as one request, to the worker that serves such requests one after the
//! other; the others run in the foreground, where the session waits for
//! them. Spawning and waiting are the caller's part. What is decided here is
//! the next thing to do, given how the last one went: a `Batch` does so for
//! the worker and one request, a `Foreground` for the session and one line.

use vstd::prelude::*;

verus! {

/// One command of a pipeline.
#[derive(Debug, PartialEq, Eq)]
pub struct Stage {
    pub program: String,
    pub arguments: Vec<String>,
}

/// Commands connected by pipes, to be run together.
#[derive(Debug, PartialEq, Eq)]
pub struct Pipeline {
    pub stages: Vec<Stage>,
    pub background: bool,
}

impl Pipeline {
    /// Whether the pipeline runs in the background.
    pub fn backend(&self) -> (background: bool)
        ensures
            background == self.background,
    {
        self.background
    }
}

/// What the worker is sent: where to run, and what.
#[derive(Debug, PartialEq, Eq)]
pub struct JobRequest {
    pub working_directory: String,
    pub pipelines: Vec<Pipeline>,
}

/// The pipelines of `pipelines` that run in the background, in order.
pub open spec fn background_of(pipelines: Seq<Pipeline>) -> Seq<Pipeline> {
    pipelines.filter(|pipeline: Pipeline| pipeline.background)
}

/// The pipelines of `pipelines` that run in the foreground, in order.
pub open spec fn foreground_of(pipelines: Seq<Pipeline>) -> Seq<Pipeline> {
    pipelines.filter(|pipeline: Pipeline| !pipeline.background)
}

/// Parts the pipelines of a line into those for the foreground and those for
/// the background. Each part keeps the order that its pipelines had.
pub fn partition(pipelines: Vec<Pipeline>) -> (parts: (Vec<Pipeline>, Vec<Pipeline>))
    ensures
        parts.0@ == foreground_of(pipelines@),
        parts.1@ == background_of(pipelines@),
{
    let mut foreground: Vec<Pipeline> = Vec::new();
    let mut background: Vec<Pipeline> = Vec::new();
    let ghost all = pipelines@;
    let ghost behind = |pipeline: Pipeline| pipeline.background;
    let ghost before = |pipeline: Pipeline| !pipeline.background;
    proof {
        reveal(Seq::filter);
        assert(all.take(0) =~= Seq::<Pipeline>::empty());
    }
    for pipeline in it: pipelines
        invariant
            it.seq() == all,
            behind == |pipeline: Pipeline| pipeline.background,
            before == |pipeline: Pipeline| !pipeline.background,
            foreground@ == all.take(it.index() as int).filter(before),
            background@ == all.take(it.index() as int).filter(behind),
    {
        proof {
            let seen = all.take(it.index() as int);
            assert(all.take(it.index() + 1) =~= seen.push(pipeline));
            seen.lemma_filter_push(pipeline, before);
            seen.lemma_filter_push(pipeline, behind);
        }
        if pipeline.backend() {
            background.push(pipeline);
        } else {
            foreground.push(pipeline);
        }
    }
    assert(all.take(all.len() as int) =~= all);
    (foreground, background)
}

/// The number of stages of each pipeline.
pub open spec fn stage_counts(pipelines: Seq<Pipeline>) -> Seq<nat> {
    Seq::new(pipelines.len(), |i: int| pipelines[i].stages@.len())
}

/// A stage of a batch: the pipeline's index and the stage's index in it.
pub struct Position {
    pub pipeline: nat,
    pub stage: nat,
}

/// Whether `position` names a stage that exists.
pub open spec fn in_batch(counts: Seq<nat>, position: Position) -> bool {
    position.pipeline < counts.len() && position.stage < counts[position.pipeline as int]
}

/// `earlier` comes before `later` in spawn order: it belongs to an earlier
/// pipeline, or to the same pipeline and is an earlier stage of it.
pub open spec fn spawns_before(earlier: Position, later: Position) -> bool {
    earlier.pipeline < later.pipeline || (earlier.pipeline == later.pipeline && earlier.stage
        < later.stage)
}

/// The first stage of the first pipeline, from pipeline `from` on, that has
/// a stage at all.
pub open spec fn first_stage_from(counts: Seq<nat>, from: nat) -> Option<Position>
    decreases counts.len() - from,
{
    if from >= counts.len() {
        None
    } else if counts[from as int] > 0 {
        Some(Position { pipeline: from, stage: 0 })
    } else {
        first_stage_from(counts, from + 1)
    }
}

/// The stage to spawn after `at`. Where `at` was spawned and its pipeline
/// has a further stage, that stage is next. Where `at` could not be spawned,
/// the rest of its pipeline is skipped. Either way the pipelines behind it
/// still run.
pub open spec fn next_stage(counts: Seq<nat>, at: Position, spawned: bool) -> Option<Position> {
    if spawned && at.stage + 1 < counts[at.pipeline as int] {
        Some(Position { pipeline: at.pipeline, stage: at.stage + 1 })
    } else {
        first_stage_from(counts, at.pipeline + 1)
    }
}

/// The first stage from a pipeline on exists and belongs to that pipeline or
/// a later one.
pub proof fn lemma_first_stage_from(counts: Seq<nat>, from: nat)
    ensures
        first_stage_from(counts, from) matches Some(found) ==> in_batch(counts, found)
            && found.pipeline >= from && found.stage == 0,
    decreases counts.len() - from,
{
    if from < counts.len() && counts[from as int] == 0 {
        lemma_first_stage_from(counts, from + 1);
    }
}

/// The next stage exists and comes after the one before it in spawn order.
pub proof fn lemma_next_stage(counts: Seq<nat>, at: Position, spawned: bool)
    requires
        in_batch(counts, at),
    ensures
        next_stage(counts, at, spawned) matches Some(next) ==> in_batch(counts, next)
            && spawns_before(at, next),
{
    lemma_first_stage_from(counts, at.pipeline + 1);
}

/// No pipeline has more stages than can be counted.
pub proof fn lemma_counts_fit(pipelines: Seq<Pipeline>)
    ensures
        forall|i: int|
            0 <= i < stage_counts(pipelines).len() ==> #[trigger] stage_counts(pipelines)[i]
                <= usize::MAX,
{
    assert forall|i: int| 0 <= i < stage_counts(pipelines).len() implies #[trigger] stage_counts(
        pipelines,
    )[i] <= usize::MAX by {
        assert(pipelines[i].stages.len() == pipelines[i].stages@.len());
    }
}

/// What the worker does next for a request.
#[derive(Clone, Copy, Debug, PartialEq, Eq)]
pub enum BatchAction {
    /// Make the request's directory the working directory.
    ChangeDirectory,
    /// Spawn this stage of this pipeline.
    Spawn { pipeline: usize, stage: usize },
    /// The request is done with: wait for the next one.
    Finished,
}

/// The action for the stage at `found`, or the one for no stage left.
pub open spec fn spawn_or(found: Option<Position>, otherwise: BatchAction) -> BatchAction {
    match found {
        Some(position) => BatchAction::Spawn {
            pipeline: position.pipeline as usize,
            stage: position.stage as usize,
        },
        None => otherwise,
    }
}

/// The worker's step: from what it was doing, and whether that succeeded, to
/// what it does next. A directory that cannot be entered ends the request.
/// A stage that cannot be spawned ends its pipeline and nothing more.
pub open spec fn batch_step(counts: Seq<nat>, action: BatchAction, succeeded: bool) -> BatchAction {
    match action {
        BatchAction::ChangeDirectory => if succeeded {
            spawn_or(first_stage_from(counts, 0), BatchAction::Finished)
        } else {
            BatchAction::Finished
        },
        BatchAction::Spawn { pipeline, stage } => spawn_or(
            next_stage(counts, Position { pipeline: pipeline as nat, stage: stage as nat }, succeeded),
            BatchAction::Finished,
        ),
        BatchAction::Finished => BatchAction::Finished,
    }
}

/// Whether an action makes sense for a batch: a stage to spawn exists.
pub open spec fn batch_action_fits(counts: Seq<nat>, action: BatchAction) -> bool {
    action matches BatchAction::Spawn { pipeline, stage } ==> in_batch(
        counts,
        Position { pipeline: pipeline as nat, stage: stage as nat },
    )
}

/// What the worker does for a request, from `action` on, when its actions
/// turn out as `outcomes` say, one after the other.
pub open spec fn batch_trace(counts: Seq<nat>, action: BatchAction, outcomes: Seq<bool>) -> Seq<
    BatchAction,
>
    decreases outcomes.len(),
{
    if outcomes.len() == 0 {
        seq![action]
    } else {
        seq![action] + batch_trace(
            counts,
            batch_step(counts, action, outcomes[0]),
            outcomes.drop_first(),
        )
    }
}

/// The stage that an action spawns.
pub open spec fn spawned_by(action: BatchAction) -> Position {
    Position { pipeline: action->pipeline as nat, stage: action->stage as nat }
}

proof fn lemma_batch_step_fits(counts: Seq<nat>, action: BatchAction, succeeded: bool)
    requires
        counts.len() <= usize::MAX,
        forall|i: int| 0 <= i < counts.len() ==> counts[i] <= usize::MAX,
        batch_action_fits(counts, action),
    ensures
        batch_action_fits(counts, batch_step(counts, action, succeeded)),
        action is Spawn && batch_step(counts, action, succeeded) is Spawn ==> spawns_before(
            spawned_by(action),
            spawned_by(batch_step(counts, action, succeeded)),
        ),
{
    lemma_first_stage_from(counts, 0);
    if let BatchAction::Spawn { pipeline, stage } = action {
        lemma_next_stage(counts, Position { pipeline: pipeline as nat, stage: stage as nat }, succeeded);
    }
}

proof fn lemma_later_spawns_follow(
    counts: Seq<nat>,
    action: BatchAction,
    outcomes: Seq<bool>,
    j: int,
)
    requires
        counts.len() <= usize::MAX,
        forall|i: int| 0 <= i < counts.len() ==> counts[i] <= usize::MAX,
        batch_action_fits(counts, action),
        action is Spawn,
        0 < j < batch_trace(counts, action, outcomes).len(),
        batch_trace(counts, action, outcomes)[j] is Spawn,
    ensures
        spawns_before(spawned_by(action), spawned_by(batch_trace(counts, action, outcomes)[j])),
    decreases outcomes.len(),
{
    let next = batch_step(counts, action, outcomes[0]);
    let rest = batch_trace(counts, next, outcomes.drop_first());
    lemma_batch_step_fits(counts, action, outcomes[0]);
    assert(batch_trace(counts, action, outcomes)[j] == rest[j - 1]);
    if next is Spawn {
        if j > 1 {
            lemma_later_spawns_follow(counts, next, outcomes.drop_first(), j - 1);
        }
    } else {
        lemma_finished_stays(counts, outcomes.drop_first(), j - 1);
    }
}

proof fn lemma_finished_stays(counts: Seq<nat>, outcomes: Seq<bool>, j: int)
    requires
        0 <= j < batch_trace(counts, BatchAction::Finished, outcomes).len(),
    ensures
        batch_trace(counts, BatchAction::Finished, outcomes)[j] is Finished,
    decreases outcomes.len(),
{
    if j > 0 {
        lemma_finished_stays(counts, outcomes.drop_first(), j - 1);
    }
}

/// Within one request the stages are spawned in order, whatever fails on the
/// way: of two spawns the earlier one is of an earlier pipeline, or of an
/// earlier stage of the same pipeline. So every stage of one pipeline that
/// is spawned at all is spawned before any stage of a later pipeline, and
/// the stages of two pipelines never alternate.
pub proof fn lemma_stages_spawn_in_order(
    pipelines: Seq<Pipeline>,
    start: BatchAction,
    outcomes: Seq<bool>,
    i: int,
    j: int,
)
    requires
        pipelines.len() <= usize::MAX,
        batch_action_fits(stage_counts(pipelines), start),
        0 <= i < j < batch_trace(stage_counts(pipelines), start, outcomes).len(),
        batch_trace(stage_counts(pipelines), start, outcomes)[i] is Spawn,
        batch_trace(stage_counts(pipelines), start, outcomes)[j] is Spawn,
    ensures
        spawns_before(
            spawned_by(batch_trace(stage_counts(pipelines), start, outcomes)[i]),
            spawned_by(batch_trace(stage_counts(pipelines), start, outcomes)[j]),
        ),
    decreases outcomes.len(),
{
    let counts = stage_counts(pipelines);
    lemma_counts_fit(pipelines);
    if i == 0 {
        lemma_later_spawns_follow(counts, start, outcomes, j);
    } else {
        let next = batch_step(counts, start, outcomes[0]);
        let rest = batch_trace(counts, next, outcomes.drop_first());
        lemma_batch_step_fits(counts, start, outcomes[0]);
        assert(batch_trace(counts, start, outcomes)[i] == rest[i - 1]);
        assert(batch_trace(counts, start, outcomes)[j] == rest[j - 1]);
        lemma_stages_spawn_in_order(pipelines, next, outcomes.drop_first(), i - 1, j - 1);
    }
}


/// Nothing of a request is spawned unless its directory was entered: where
/// the worker's way through a request holds a spawn at all, the first
/// outcome, that of the change of directory, was a success.
pub proof fn lemma_spawns_follow_directory(counts: Seq<nat>, outcomes: Seq<bool>, j: int)
    requires
        0 <= j < batch_trace(counts, BatchAction::ChangeDirectory, outcomes).len(),
        batch_trace(counts, BatchAction::ChangeDirectory, outcomes)[j] is Spawn,
    ensures
        outcomes.len() > 0,
        outcomes[0],
{
    if outcomes.len() > 0 && !outcomes[0] {
        lemma_finished_stays(counts, outcomes.drop_first(), j - 1);
    }
}

/// Finds the first stage from pipeline `from` on.
fn find_first_stage(pipelines: &Vec<Pipeline>, from: usize) -> (found: Option<(usize, usize)>)
    ensures
        match first_stage_from(stage_counts(pipelines@), from as nat) {
            Some(position) => found == Some((position.pipeline as usize, position.stage as usize))
                && in_batch(stage_counts(pipelines@), position) && position.stage == 0,
            None => found is None,
        },
{
    let mut i: usize = from;
    while i < pipelines.len()
        invariant
            from <= i,
            first_stage_from(stage_counts(pipelines@), from as nat) == first_stage_from(
                stage_counts(pipelines@),
                i as nat,
            ),
        decreases pipelines@.len() - i,
    {
        if pipelines[i].stages.len() > 0 {
            return Some((i, 0));
        }
        i += 1;
    }
    None
}

/// The worker's way through one request.
pub struct Batch {
    request: JobRequest,
    action: BatchAction,
}

impl Batch {
    #[verifier::type_invariant]
    spec fn action_fits(self) -> bool {
        batch_action_fits(stage_counts(self.request.pipelines@), self.action)
    }

    /// The pipelines of the request.
    pub closed spec fn pipelines(&self) -> Seq<Pipeline> {
        self.request.pipelines@
    }

    /// The directory of the request.
    pub closed spec fn directory(&self) -> Seq<char> {
        self.request.working_directory@
    }

    /// What is to be done now.
    pub closed spec fn current(&self) -> BatchAction {
        self.action
    }

    /// Takes up a request. The first thing to do is to enter its directory.
    pub fn new(request: JobRequest) -> (batch: Batch)
        ensures
            batch.pipelines() == request.pipelines@,
            batch.directory() == request.working_directory@,
            batch.current() == BatchAction::ChangeDirectory,
    {
        Batch { request, action: BatchAction::ChangeDirectory }
    }

    /// What is to be done now. A stage to spawn is one of the request.
    pub fn action(&self) -> (action: BatchAction)
        ensures
            action == self.current(),
            batch_action_fits(stage_counts(self.pipelines()), action),
    {
        proof {
            use_type_invariant(self);
        }
        self.action
    }

    /// The directory to enter.
    pub fn working_directory(&self) -> (directory: &str)
        ensures
            directory@ == self.directory(),
    {
        self.request.working_directory.as_str()
    }

    /// The stage at a position, `None` where the request has none there.
    pub fn stage(&self, pipeline: usize, stage: usize) -> (found: Option<&Stage>)
        ensures
            found is Some <==> in_batch(
                stage_counts(self.pipelines()),
                Position { pipeline: pipeline as nat, stage: stage as nat },
            ),
            found is Some ==> *found->0 == self.pipelines()[pipeline as int].stages@[stage as int],
    {
        if pipeline < self.request.pipelines.len() && stage
            < self.request.pipelines[pipeline].stages.len() {
            Some(&self.request.pipelines[pipeline].stages[stage])
        } else {
            None
        }
    }

    /// Takes note of how the current action went and returns the next one.
    pub fn advance(&mut self, succeeded: bool) -> (next: BatchAction)
        ensures
            next == batch_step(stage_counts(old(self).pipelines()), old(self).current(), succeeded),
            final(self).current() == next,
            final(self).pipelines() == old(self).pipelines(),
            final(self).directory() == old(self).directory(),
            batch_action_fits(stage_counts(final(self).pipelines()), next),
    {
        proof {
            use_type_invariant(&*self);
            lemma_counts_fit(self.request.pipelines@);
        }
        let count: usize = self.request.pipelines.len();
        let found = match self.action {
            BatchAction::ChangeDirectory => {
                if succeeded {
                    find_first_stage(&self.request.pipelines, 0)
                } else {
                    None
                }
            },
            BatchAction::Spawn { pipeline, stage } => {
                if succeeded && stage + 1 < self.request.pipelines[pipeline].stages.len() {
                    Some((pipeline, stage + 1))
                } else {
                    find_first_stage(&self.request.pipelines, pipeline + 1)
                }
            },
            BatchAction::Finished => None,
        };
        let next = match found {
            Some((pipeline, stage)) => BatchAction::Spawn { pipeline, stage },
            None => BatchAction::Finished,
        };
        self.action = next;
        next
    }
}

/// What the session does next for the foreground pipelines of a line.
#[derive(Clone, Copy, Debug, PartialEq, Eq)]
pub enum ForegroundAction {
    /// Send the request to the worker, without waiting for it to be served.
    /// This comes first, and it is done even where the request is empty.
    SendRequest,
    /// Give the terminal back its ordinary line discipline, for the children.
    DisableRawMode,
    /// Spawn this stage of this pipeline.
    Spawn { pipeline: usize, stage: usize },
    /// Wait for one child of this pipeline to end.
    Wait { pipeline: usize },
    /// Take the terminal into raw mode again.
    EnableRawMode,
    /// Everything has ended: read the next line.
    Resume,
    /// The terminal's mode could not be changed: the session cannot go on.
    Abort,
}

/// The session between two actions: what it does next, and how many children
/// of the current pipeline have been spawned and not yet waited for.
pub struct Session {
    pub action: ForegroundAction,
    pub outstanding: nat,
}

/// The action for the stage at `found`, or raw mode again where no stage is
/// left.
pub open spec fn spawn_or_finish(found: Option<Position>) -> Session {
    match found {
        Some(position) => Session {
            action: ForegroundAction::Spawn {
                pipeline: position.pipeline as usize,
                stage: position.stage as usize,
            },
            outstanding: 0,
        },
        None => Session { action: ForegroundAction::EnableRawMode, outstanding: 0 },
    }
}

/// The session's step. The request goes to the worker first, whether or not
/// that succeeds. The stages of a pipeline are spawned in order, up to the
/// first that fails; then every child that was spawned is waited for; only
/// then the next pipeline begins. Raw mode is off before the first spawn and
/// on again after the last wait.
pub open spec fn foreground_step(counts: Seq<nat>, session: Session, succeeded: bool) -> Session {
    match session.action {
        ForegroundAction::SendRequest => Session {
            action: ForegroundAction::DisableRawMode,
            outstanding: 0,
        },
        ForegroundAction::DisableRawMode => if succeeded {
            spawn_or_finish(first_stage_from(counts, 0))
        } else {
            Session { action: ForegroundAction::Abort, outstanding: 0 }
        },
        ForegroundAction::Spawn { pipeline, stage } => {
            let outstanding = if succeeded {
                session.outstanding + 1
            } else {
                session.outstanding
            };
            if succeeded && stage + 1 < counts[pipeline as int] {
                Session {
                    action: ForegroundAction::Spawn { pipeline, stage: (stage + 1) as usize },
                    outstanding,
                }
            } else if outstanding > 0 {
                Session { action: ForegroundAction::Wait { pipeline }, outstanding }
            } else {
                spawn_or_finish(first_stage_from(counts, pipeline as nat + 1))
            }
        },
        ForegroundAction::Wait { pipeline } => if session.outstanding > 1 {
            Session {
                action: ForegroundAction::Wait { pipeline },
                outstanding: (session.outstanding - 1) as nat,
            }
        } else {
            spawn_or_finish(first_stage_from(counts, pipeline as nat + 1))
        },
        ForegroundAction::EnableRawMode => Session {
            action: if succeeded {
                ForegroundAction::Resume
            } else {
                ForegroundAction::Abort
            },
            outstanding: 0,
        },
        ForegroundAction::Resume => session,
        ForegroundAction::Abort => session,
    }
}

/// The states that a session goes through. While a pipeline's stages are
/// being spawned, its earlier stages are the children that are outstanding;
/// a wait has a child to wait for; and outside a pipeline no child is
/// outstanding.
pub open spec fn session_fits(counts: Seq<nat>, session: Session) -> bool {
    match session.action {
        ForegroundAction::Spawn { pipeline, stage } => in_batch(
            counts,
            Position { pipeline: pipeline as nat, stage: stage as nat },
        ) && session.outstanding == stage,
        ForegroundAction::Wait { pipeline } => pipeline < counts.len() && 0 < session.outstanding
            <= counts[pipeline as int],
        _ => session.outstanding == 0,
    }
}

/// The session after its actions have turned out as `outcomes` say.
pub open spec fn foreground_run(counts: Seq<nat>, session: Session, outcomes: Seq<bool>) -> Session
    decreases outcomes.len(),
{
    if outcomes.len() == 0 {
        session
    } else {
        foreground_run(
            counts,
            foreground_step(counts, session, outcomes[0]),
            outcomes.drop_first(),
        )
    }
}

/// How many children are spawned on that way.
pub open spec fn children_spawned(counts: Seq<nat>, session: Session, outcomes: Seq<bool>) -> nat
    decreases outcomes.len(),
{
    if outcomes.len() == 0 {
        0
    } else {
        let here: nat = if session.action is Spawn && outcomes[0] {
            1
        } else {
            0
        };
        here + children_spawned(
            counts,
            foreground_step(counts, session, outcomes[0]),
            outcomes.drop_first(),
        )
    }
}

/// How many children are waited for on that way.
pub open spec fn children_waited(counts: Seq<nat>, session: Session, outcomes: Seq<bool>) -> nat
    decreases outcomes.len(),
{
    if outcomes.len() == 0 {
        0
    } else {
        let here: nat = if session.action is Wait {
            1
        } else {
            0
        };
        here + children_waited(
            counts,
            foreground_step(counts, session, outcomes[0]),
            outcomes.drop_first(),
        )
    }
}

/// Every step leads from a fitting state to a fitting state.
pub proof fn lemma_session_step_fits(counts: Seq<nat>, session: Session, succeeded: bool)
    requires
        forall|i: int| 0 <= i < counts.len() ==> #[trigger] counts[i] <= usize::MAX,
        counts.len() <= usize::MAX,
        session_fits(counts, session),
    ensures
        session_fits(counts, foreground_step(counts, session, succeeded)),
{
    lemma_first_stage_from(counts, 0);
    match session.action {
        ForegroundAction::Spawn { pipeline, stage } => {
            lemma_first_stage_from(counts, pipeline as nat + 1);
        },
        ForegroundAction::Wait { pipeline } => {
            lemma_first_stage_from(counts, pipeline as nat + 1);
        },
        _ => {},
    }
}

/// On every way of a session, the children waited for and those still
/// outstanding are the children spawned and those outstanding at its start.
pub proof fn lemma_children_accounted(counts: Seq<nat>, session: Session, outcomes: Seq<bool>)
    requires
        forall|i: int| 0 <= i < counts.len() ==> #[trigger] counts[i] <= usize::MAX,
        counts.len() <= usize::MAX,
        session_fits(counts, session),
    ensures
        session_fits(counts, foreground_run(counts, session, outcomes)),
        children_waited(counts, session, outcomes) + foreground_run(
            counts,
            session,
            outcomes,
        ).outstanding == children_spawned(counts, session, outcomes) + session.outstanding,
    decreases outcomes.len(),
{
    if outcomes.len() > 0 {
        lemma_session_step_fits(counts, session, outcomes[0]);
        lemma_children_accounted(
            counts,
            foreground_step(counts, session, outcomes[0]),
            outcomes.drop_first(),
        );
    }
}

/// The session goes back to reading only when every child that it spawned
/// has been waited for: however the actions turn out, where the next thing
/// to do is to take the terminal into raw mode again, or to read the next
/// line, as many children have been waited for as were spawned.
pub proof fn lemma_resumes_after_children_ended(pipelines: Seq<Pipeline>, outcomes: Seq<bool>)
    requires
        pipelines.len() <= usize::MAX,
    ensures
        ({
            let counts = stage_counts(pipelines);
            let start = Session { action: ForegroundAction::SendRequest, outstanding: 0 };
            let end = foreground_run(counts, start, outcomes);
            end.action is Resume || end.action is EnableRawMode ==> children_waited(
                counts,
                start,
                outcomes,
            ) == children_spawned(counts, start, outcomes)
        }),
{
    lemma_counts_fit(pipelines);
    lemma_children_accounted(
        stage_counts(pipelines),
        Session { action: ForegroundAction::SendRequest, outstanding: 0 },
        outcomes,
    );
}


/// Where a session stands.
#[derive(Clone, Copy)]
struct Progress {
    action: ForegroundAction,
    outstanding: usize,
}

/// Whether the terminal is in raw mode when an action is about to be done,
/// `None` where the session has given up. Raw mode is on while the session
/// reads and off while children of the foreground run.
pub open spec fn raw_mode_at(action: ForegroundAction) -> Option<bool> {
    match action {
        ForegroundAction::SendRequest => Some(true),
        ForegroundAction::DisableRawMode => Some(true),
        ForegroundAction::Spawn { .. } => Some(false),
        ForegroundAction::Wait { .. } => Some(false),
        ForegroundAction::EnableRawMode => Some(false),
        ForegroundAction::Resume => Some(true),
        ForegroundAction::Abort => None,
    }
}

/// The terminal's mode changes where the session changes it and nowhere
/// else: the mode that the next action counts on is the mode that the
/// current action counted on, but after raw mode was left it is off, and
/// after it was entered again it is on. So no child of the foreground is
/// spawned or waited for in raw mode, and no line is read outside it.
pub proof fn lemma_raw_mode_is_kept(counts: Seq<nat>, session: Session, succeeded: bool)
    requires
        session_fits(counts, session),
    ensures
        ({
            let next = foreground_step(counts, session, succeeded).action;
            raw_mode_at(next) is Some ==> raw_mode_at(next) == if session.action
                is DisableRawMode {
                Some(false)
            } else if session.action is EnableRawMode {
                Some(true)
            } else {
                raw_mode_at(session.action)
            }
        }),
        foreground_step(counts, session, succeeded).action is Abort ==> session.action is Abort
            || (!succeeded && (session.action is DisableRawMode || session.action
            is EnableRawMode)),
{
}

/// The session's way through the foreground pipelines of one line.
pub struct Foreground {
    pipelines: Vec<Pipeline>,
    progress: Progress,
}

impl Foreground {
    #[verifier::type_invariant]
    spec fn state_fits(self) -> bool {
        session_fits(stage_counts(self.pipelines@), self.session())
    }

    /// The pipelines to run.
    pub closed spec fn pipelines(&self) -> Seq<Pipeline> {
        self.pipelines@
    }

    /// What is to be done now, and how many children are outstanding.
    pub closed spec fn session(&self) -> Session {
        Session { action: self.progress.action, outstanding: self.progress.outstanding as nat }
    }

    /// Takes up the foreground pipelines of a line. The first thing to do is
    /// to send the request of that line to the worker.
    pub fn new(pipelines: Vec<Pipeline>) -> (foreground: Foreground)
        ensures
            foreground.pipelines() == pipelines@,
            foreground.session() == (Session {
                action: ForegroundAction::SendRequest,
                outstanding: 0,
            }),
    {
        Foreground {
            pipelines,
            progress: Progress { action: ForegroundAction::SendRequest, outstanding: 0 },
        }
    }

    /// What is to be done now.
    pub fn action(&self) -> (action: ForegroundAction)
        ensures
            action == self.session().action,
            session_fits(stage_counts(self.pipelines()), self.session()),
    {
        proof {
            use_type_invariant(self);
        }
        self.progress.action
    }

    /// How many children of the current pipeline have been spawned and not
    /// yet waited for.
    pub fn outstanding(&self) -> (outstanding: usize)
        ensures
            outstanding == self.session().outstanding,
    {
        self.progress.outstanding
    }

    /// The stage at a position, `None` where there is none.
    pub fn stage(&self, pipeline: usize, stage: usize) -> (found: Option<&Stage>)
        ensures
            found is Some <==> in_batch(
                stage_counts(self.pipelines()),
                Position { pipeline: pipeline as nat, stage: stage as nat },
            ),
            found is Some ==> *found->0 == self.pipelines()[pipeline as int].stages@[stage as int],
    {
        if pipeline < self.pipelines.len() && stage < self.pipelines[pipeline].stages.len() {
            Some(&self.pipelines[pipeline].stages[stage])
        } else {
            None
        }
    }

    /// Takes note of how the current action went and returns the next one.
    /// A wait counts as done however it went.
    pub fn advance(&mut self, succeeded: bool) -> (next: ForegroundAction)
        ensures
            final(self).session() == foreground_step(
                stage_counts(old(self).pipelines()),
                old(self).session(),
                succeeded,
            ),
            next == final(self).session().action,
            final(self).pipelines() == old(self).pipelines(),
            session_fits(stage_counts(final(self).pipelines()), final(self).session()),
    {
        proof {
            use_type_invariant(&*self);
            lemma_counts_fit(self.pipelines@);
            lemma_session_step_fits(stage_counts(self.pipelines@), self.session(), succeeded);
        }
        let count: usize = self.pipelines.len();
        let mut outstanding: usize = 0;
        let mut search: Option<usize> = None;
        let was = self.progress;
        let mut next = was.action;
        match was.action {
            ForegroundAction::SendRequest => {
                next = ForegroundAction::DisableRawMode;
            },
            ForegroundAction::DisableRawMode => {
                if succeeded {
                    search = Some(0);
                } else {
                    next = ForegroundAction::Abort;
                }
            },
            ForegroundAction::Spawn { pipeline, stage } => {
                outstanding = if succeeded {
                    was.outstanding + 1
                } else {
                    was.outstanding
                };
                if succeeded && stage + 1 < self.pipelines[pipeline].stages.len() {
                    next = ForegroundAction::Spawn { pipeline, stage: stage + 1 };
                } else if outstanding > 0 {
                    next = ForegroundAction::Wait { pipeline };
                } else {
                    search = Some(pipeline + 1);
                }
            },
            ForegroundAction::Wait { pipeline } => {
                if was.outstanding > 1 {
                    outstanding = was.outstanding - 1;
                } else {
                    search = Some(pipeline + 1);
                }
            },
            ForegroundAction::EnableRawMode => {
                next = if succeeded {
                    ForegroundAction::Resume
                } else {
                    ForegroundAction::Abort
                };
            },
            ForegroundAction::Resume => {},
            ForegroundAction::Abort => {},
        }
        if let Some(from) = search {
            outstanding = 0;
            next = match find_first_stage(&self.pipelines, from) {
                Some((pipeline, stage)) => ForegroundAction::Spawn { pipeline, stage },
                None => ForegroundAction::EnableRawMode,
            };
        }
        self.progress = Progress { action: next, outstanding };
        next
    }
}

/// What a submitted line comes to: the request for the worker, and the
/// session's way through the foreground pipelines, which begins with the
/// sending of that request.
pub struct Dispatch {
    pub request: JobRequest,
    pub foreground: Foreground,
}

/// Parts the pipelines of a line. Those for the background make up the
/// request, with the session's working directory; it is sent even where it
/// holds no pipeline. The others are left for the session, in their order.
pub fn dispatch(pipelines: Vec<Pipeline>, working_directory: String) -> (plan: Dispatch)
    ensures
        plan.request.working_directory@ == working_directory@,
        plan.request.pipelines@ == background_of(pipelines@),
        plan.foreground.pipelines() == foreground_of(pipelines@),
        plan.foreground.session() == (Session {
            action: ForegroundAction::SendRequest,
            outstanding: 0,
        }),
{
    let (foreground, background) = partition(pipelines);
    Dispatch {
        request: JobRequest { working_directory, pipelines: background },
        foreground: Foreground::new(foreground),
    }
}


} // verus!
