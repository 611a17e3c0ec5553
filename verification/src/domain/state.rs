//! Run and attempt states, attempt events and the projection of an event onto its run.
use vstd::prelude::*;

verus! {

/// The state of a run.
#[derive(Clone, Copy, Debug, PartialEq, Eq, Structural)]
pub enum RunState {
    Pending,
    Running,
    Succeeded,
    Failed,
    Cancelled,
    TimedOut,
}

impl RunState {
    /// True of the states that a run never leaves.
    pub open spec fn terminal(self) -> bool {
        !(self is Pending) && !(self is Running)
    }

    /// True of the states that a run never leaves.
    pub fn is_terminal(self) -> (r: bool)
        ensures
            r == self.terminal(),
    {
        matches!(self, RunState::Succeeded | RunState::Failed | RunState::Cancelled | RunState::TimedOut)
    }
}

/// The state of an attempt.
#[derive(Clone, Copy, Debug, PartialEq, Eq, Structural)]
pub enum AttemptState {
    Queued,
    Accepted,
    Running,
    Succeeded,
    Failed,
    TimedOut,
    Cancelled,
    Interrupted,
    Rejected,
}

impl AttemptState {
    /// True of the states that an attempt never leaves.
    pub open spec fn terminal(self) -> bool {
        !(self is Queued) && !(self is Accepted) && !(self is Running)
    }

    /// True when an attempt in this state may be in `next` afterwards: a state follows itself, a
    /// queued attempt is accepted, cancelled or rejected, an accepted one also runs or ends, and a
    /// running one ends. Only a queued attempt is rejected.
    pub open spec fn may_become(self, next: AttemptState) -> bool {
        ||| self == next
        ||| self is Queued && (next is Accepted || next is Cancelled || next is Rejected)
        ||| self is Accepted && (next is Running || (next.terminal() && !(next is Rejected)))
        ||| self is Running && next.terminal() && !(next is Rejected)
    }

    /// True of the states that an attempt never leaves.
    pub fn is_terminal(self) -> (r: bool)
        ensures
            r == self.terminal(),
    {
        matches!(
            self,
            AttemptState::Succeeded
                | AttemptState::Failed
                | AttemptState::TimedOut
                | AttemptState::Cancelled
                | AttemptState::Interrupted
                | AttemptState::Rejected
        )
    }

    /// True when an attempt in this state may be in `next` afterwards.
    pub fn allows(self, next: AttemptState) -> (r: bool)
        ensures
            r == self.may_become(next),
    {
        if self == next {
            return true;
        }
        match self {
            AttemptState::Queued => matches!(
                next,
                AttemptState::Accepted | AttemptState::Cancelled | AttemptState::Rejected
            ),
            AttemptState::Accepted => matches!(
                next,
                AttemptState::Running
                    | AttemptState::Succeeded
                    | AttemptState::Failed
                    | AttemptState::TimedOut
                    | AttemptState::Cancelled
                    | AttemptState::Interrupted
            ),
            AttemptState::Running => matches!(
                next,
                AttemptState::Succeeded
                    | AttemptState::Failed
                    | AttemptState::TimedOut
                    | AttemptState::Cancelled
                    | AttemptState::Interrupted
            ),
            AttemptState::Succeeded
            | AttemptState::Failed
            | AttemptState::TimedOut
            | AttemptState::Cancelled
            | AttemptState::Interrupted
            | AttemptState::Rejected => false,
        }
    }
}

/// Why an attempt did not succeed.
#[derive(Clone, Copy, Debug, PartialEq, Eq, Structural)]
pub enum FailureKind {
    Process,
    Timeout,
    Interrupted,
    Rejected,
    InvalidResult,
}

/// What an agent is told to execute.
#[derive(Debug, PartialEq, Eq)]
pub struct ProcessRunSpec {
    pub runner: String,
    pub program: String,
    pub args: Vec<String>,
    pub cwd: Option<String>,
    pub timeout_seconds: u64,
    pub mirror_root: String,
    pub target_dir: String,
    pub publication: Option<Box<AtomicPublicationSpec>>,
}

/// The directories of a mirror that is published by one exchange of two names.
#[derive(Debug, PartialEq, Eq)]
pub struct AtomicPublicationSpec {
    pub mirror: String,
    pub publication_root: String,
    pub published_dir: String,
    pub candidate_dir: String,
    pub basis_dir: String,
    pub exchange_dir: String,
    pub gc_dir: String,
}

impl Clone for AtomicPublicationSpec {
    fn clone(&self) -> (r: Self)
        ensures
            r == *self,
    {
        AtomicPublicationSpec {
            mirror: self.mirror.clone(),
            publication_root: self.publication_root.clone(),
            published_dir: self.published_dir.clone(),
            candidate_dir: self.candidate_dir.clone(),
            basis_dir: self.basis_dir.clone(),
            exchange_dir: self.exchange_dir.clone(),
            gc_dir: self.gc_dir.clone(),
        }
    }
}

impl ProcessRunSpec {
    /// True when the two specifications hold the same values.
    pub open spec fn equals(self, other: ProcessRunSpec) -> bool {
        &&& self.runner == other.runner
        &&& self.program == other.program
        &&& self.args@ == other.args@
        &&& self.cwd == other.cwd
        &&& self.timeout_seconds == other.timeout_seconds
        &&& self.mirror_root == other.mirror_root
        &&& self.target_dir == other.target_dir
        &&& self.publication == other.publication
    }
}

impl Clone for ProcessRunSpec {
    fn clone(&self) -> (r: Self)
        ensures
            r.equals(*self),
    {
        let publication: Option<Box<AtomicPublicationSpec>> = match &self.publication {
            Some(value) => Some(Box::new((&**value).clone())),
            None => None,
        };
        ProcessRunSpec {
            runner: self.runner.clone(),
            program: self.program.clone(),
            args: crate::text::clone_list(&self.args),
            cwd: crate::text::clone_opt(&self.cwd),
            timeout_seconds: self.timeout_seconds,
            mirror_root: self.mirror_root.clone(),
            target_dir: self.target_dir.clone(),
            publication,
        }
    }
}

/// What an agent reports of an attempt.
#[derive(Debug, PartialEq, Eq)]
pub struct AttemptEvent {
    pub event_sequence: u64,
    pub state: AttemptState,
    pub agent_instance_id: String,
    pub accepted_at_ms: Option<i64>,
    pub started_at_ms: Option<i64>,
    pub finished_at_ms: Option<i64>,
    pub exit_code: Option<i32>,
    pub failure_kind: Option<FailureKind>,
    pub failure_message: Option<String>,
}

impl Clone for AttemptEvent {
    fn clone(&self) -> (r: Self)
        ensures
            r == *self,
    {
        AttemptEvent {
            event_sequence: self.event_sequence,
            state: self.state,
            agent_instance_id: self.agent_instance_id.clone(),
            accepted_at_ms: self.accepted_at_ms,
            started_at_ms: self.started_at_ms,
            finished_at_ms: self.finished_at_ms,
            exit_code: self.exit_code,
            failure_kind: self.failure_kind,
            failure_message: crate::text::clone_opt(&self.failure_message),
        }
    }
}

/// A transition that the lifecycle does not allow.
#[derive(Clone, Copy, Debug, PartialEq, Eq, Structural)]
pub struct TransitionError {
    pub from: AttemptState,
    pub to: AttemptState,
}

/// What an event says of the run that its attempt belongs to.
#[derive(Clone, Copy, Debug, PartialEq, Eq, Structural)]
pub struct AttemptProjection {
    pub run_state: Option<RunState>,
    pub run_started_at_ms: Option<i64>,
    pub run_finished_at_ms: Option<i64>,
}

/// True when an event of state `next` is taken from an attempt in state `current`: an allowed
/// transition, or the end of an attempt whose earlier reports were lost.
pub open spec fn event_admitted(current: AttemptState, next: AttemptState) -> bool {
    current.may_become(next) || (current is Queued && next.terminal())
}

/// The state that an attempt's state means for its run when the run ends or goes on with it.
pub open spec fn run_state_of(state: AttemptState) -> Option<RunState> {
    match state {
        AttemptState::Queued => None,
        AttemptState::Accepted | AttemptState::Running => Some(RunState::Running),
        AttemptState::Succeeded => Some(RunState::Succeeded),
        AttemptState::TimedOut => Some(RunState::TimedOut),
        AttemptState::Cancelled => Some(RunState::Cancelled),
        AttemptState::Failed | AttemptState::Interrupted | AttemptState::Rejected => Some(RunState::Failed),
    }
}

/// The first of two moments that is present.
pub open spec fn either(first: Option<i64>, second: Option<i64>) -> Option<i64> {
    if first is Some {
        first
    } else {
        second
    }
}

fn first_of(first: Option<i64>, second: Option<i64>) -> (r: Option<i64>)
    ensures
        r == either(first, second),
{
    match first {
        Some(value) => Some(value),
        None => second,
    }
}

/// What an admitted event says of its run.
pub open spec fn projection_of(event: AttemptEvent) -> AttemptProjection {
    let active = event.state is Accepted || event.state is Running;
    AttemptProjection {
        run_state: run_state_of(event.state),
        run_started_at_ms: if active {
            either(event.accepted_at_ms, event.started_at_ms)
        } else {
            either(event.started_at_ms, event.accepted_at_ms)
        },
        run_finished_at_ms: if active {
            None
        } else {
            event.finished_at_ms
        },
    }
}

/// Projects an event onto the run of its attempt, or refuses a transition.
pub fn project_attempt_event(current: AttemptState, event: &AttemptEvent) -> (r: Result<
    AttemptProjection,
    TransitionError,
>)
    ensures
        match r {
            Ok(projection) => event_admitted(current, event.state) && projection == projection_of(*event),
            Err(error) => !event_admitted(current, event.state) && error.from == current && error.to == event.state,
        },
{
    let terminal_snapshot_skip: bool = current == AttemptState::Queued && event.state.is_terminal();
    if !current.allows(event.state) && !terminal_snapshot_skip {
        return Err(TransitionError { from: current, to: event.state });
    }
    if matches!(event.state, AttemptState::Accepted | AttemptState::Running) {
        return Ok(
            AttemptProjection {
                run_state: Some(RunState::Running),
                run_started_at_ms: first_of(event.accepted_at_ms, event.started_at_ms),
                run_finished_at_ms: None,
            },
        );
    }
    let run_state: Option<RunState> = match event.state {
        AttemptState::Succeeded => Some(RunState::Succeeded),
        AttemptState::TimedOut => Some(RunState::TimedOut),
        AttemptState::Cancelled => Some(RunState::Cancelled),
        AttemptState::Failed | AttemptState::Interrupted | AttemptState::Rejected => Some(RunState::Failed),
        AttemptState::Queued | AttemptState::Accepted | AttemptState::Running => None,
    };
    Ok(
        AttemptProjection {
            run_state,
            run_started_at_ms: first_of(event.started_at_ms, event.accepted_at_ms),
            run_finished_at_ms: event.finished_at_ms,
        },
    )
}

/// Accepts an allowed transition and names a refused one.
pub fn validate_attempt_transition(from: AttemptState, to: AttemptState) -> (r: Result<(), TransitionError>)
    ensures
        match r {
            Ok(()) => from.may_become(to),
            Err(error) => !from.may_become(to) && error.from == from && error.to == to,
        },
{
    if from.allows(to) {
        Ok(())
    } else {
        Err(TransitionError { from, to })
    }
}

/// A terminal attempt never regresses: nothing but its own state follows, and no event with
/// another state is admitted.
pub proof fn law_terminal_attempts_never_regress(current: AttemptState, next: AttemptState)
    requires
        current.terminal(),
    ensures
        current.may_become(next) <==> next == current,
        event_admitted(current, next) <==> next == current,
{
}

/// An admitted event ends its run exactly when it ends its attempt.
pub proof fn law_projection_follows_the_attempt(event: AttemptEvent)
    ensures
        event.state.terminal() <==> (projection_of(event).run_state is Some && projection_of(
            event,
        ).run_state->0.terminal()),
        projection_of(event).run_state == Some(RunState::Succeeded) <==> event.state is Succeeded,
{
}

/// Attempts go forward only: an event is taken where it repeats the state, where a queued attempt is
/// accepted or ends in any way, where an accepted one runs or ends, and where a running one ends; only
/// an attempt that was never accepted is rejected.
pub proof fn law_attempts_go_forward(current: AttemptState, next: AttemptState)
    ensures
        event_admitted(current, next) <==> {
            ||| next == current
            ||| current == AttemptState::Queued && next != AttemptState::Running
            ||| current == AttemptState::Accepted && next != AttemptState::Queued && next != AttemptState::Rejected
            ||| current == AttemptState::Running && (next == AttemptState::Succeeded || next == AttemptState::Failed || next
                == AttemptState::TimedOut || next == AttemptState::Cancelled || next == AttemptState::Interrupted)
        },
        current.may_become(next) <==> {
            ||| next == current
            ||| current == AttemptState::Queued && (next == AttemptState::Accepted || next == AttemptState::Cancelled
                || next == AttemptState::Rejected)
            ||| current == AttemptState::Accepted && next != AttemptState::Queued && next != AttemptState::Rejected
            ||| current == AttemptState::Running && (next == AttemptState::Succeeded || next == AttemptState::Failed || next
                == AttemptState::TimedOut || next == AttemptState::Cancelled || next == AttemptState::Interrupted)
        },
{
}

/// What has happened cannot be undone: from a state that follows another one nothing leads back to it,
/// and what may follow what follows may follow at once, but for a rejection.
pub proof fn law_states_are_never_left_for_earlier_ones(a: AttemptState, b: AttemptState, c: AttemptState)
    ensures
        a.may_become(b) && b.may_become(a) ==> a == b,
        event_admitted(a, b) && event_admitted(b, a) ==> a == b,
        a.may_become(b) && b.may_become(c) && a != AttemptState::Queued ==> a.may_become(c),
{
}

/// An attempt has ended exactly where it succeeded, failed, ran out of time, was cancelled, interrupted or
/// rejected; a run where it succeeded, failed, ran out of time or was cancelled.
pub proof fn law_ends_are_known(attempt: AttemptState, run: RunState)
    ensures
        attempt.terminal() <==> attempt == AttemptState::Succeeded || attempt == AttemptState::Failed || attempt
            == AttemptState::TimedOut || attempt == AttemptState::Cancelled || attempt == AttemptState::Interrupted
            || attempt == AttemptState::Rejected,
        run.terminal() <==> run == RunState::Succeeded || run == RunState::Failed || run == RunState::TimedOut || run
            == RunState::Cancelled,
{
}

/// An event says of its run what it says of its attempt: an attempt that was accepted or runs has its
/// run running, one that ended has its run ended alike, and the moments are those that were reported,
/// an earlier one before a later one.
pub proof fn law_events_speak_of_their_run(event: AttemptEvent)
    ensures
        ({
            let says = projection_of(event);
            let goes_on = event.state == AttemptState::Accepted || event.state == AttemptState::Running;
            &&& event.state == AttemptState::Queued ==> says.run_state is None
            &&& goes_on ==> says.run_state == Some(RunState::Running) && says.run_finished_at_ms is None
            &&& event.state == AttemptState::Succeeded ==> says.run_state == Some(RunState::Succeeded)
            &&& event.state == AttemptState::TimedOut ==> says.run_state == Some(RunState::TimedOut)
            &&& event.state == AttemptState::Cancelled ==> says.run_state == Some(RunState::Cancelled)
            &&& event.state == AttemptState::Failed || event.state == AttemptState::Interrupted || event.state
                == AttemptState::Rejected ==> says.run_state == Some(RunState::Failed)
            &&& !goes_on ==> says.run_finished_at_ms == event.finished_at_ms
            &&& says.run_started_at_ms is None <==> event.accepted_at_ms is None && event.started_at_ms is None
            &&& goes_on && event.accepted_at_ms is Some ==> says.run_started_at_ms == event.accepted_at_ms
            &&& !goes_on && event.started_at_ms is Some ==> says.run_started_at_ms == event.started_at_ms
            &&& event.accepted_at_ms is None ==> says.run_started_at_ms == event.started_at_ms
            &&& event.started_at_ms is None ==> says.run_started_at_ms == event.accepted_at_ms
        }),
{
}

} // verus!
