//! The words under which states, triggers and failures are kept.
use crate::domain::schedule::RunTrigger;
use crate::domain::state::AttemptState;
use crate::domain::state::FailureKind;
use crate::domain::state::RunState;
use crate::text;
use vstd::prelude::*;

verus! {

/// The word of an attempt's state.
pub open spec fn attempt_state_word(state: AttemptState) -> Seq<char> {
    match state {
        AttemptState::Queued => "queued"@,
        AttemptState::Accepted => "accepted"@,
        AttemptState::Running => "running"@,
        AttemptState::Succeeded => "succeeded"@,
        AttemptState::Failed => "failed"@,
        AttemptState::TimedOut => "timed_out"@,
        AttemptState::Cancelled => "cancelled"@,
        AttemptState::Interrupted => "interrupted"@,
        AttemptState::Rejected => "rejected"@,
    }
}

/// The word of an attempt's state.
pub fn attempt_state_str(state: AttemptState) -> (r: &'static str)
    ensures
        r@ == attempt_state_word(state),
{
    match state {
        AttemptState::Queued => "queued",
        AttemptState::Accepted => "accepted",
        AttemptState::Running => "running",
        AttemptState::Succeeded => "succeeded",
        AttemptState::Failed => "failed",
        AttemptState::TimedOut => "timed_out",
        AttemptState::Cancelled => "cancelled",
        AttemptState::Interrupted => "interrupted",
        AttemptState::Rejected => "rejected",
    }
}

/// The attempt state of a word.
pub fn parse_attempt_state(value: &str) -> (r: Option<AttemptState>)
    ensures
        match r {
            Some(state) => value@ == attempt_state_word(state),
            None => forall|state: AttemptState| value@ != #[trigger] attempt_state_word(state),
        },
{
    if text::same(value, "queued") {
        Some(AttemptState::Queued)
    } else if text::same(value, "accepted") {
        Some(AttemptState::Accepted)
    } else if text::same(value, "running") {
        Some(AttemptState::Running)
    } else if text::same(value, "succeeded") {
        Some(AttemptState::Succeeded)
    } else if text::same(value, "failed") {
        Some(AttemptState::Failed)
    } else if text::same(value, "timed_out") {
        Some(AttemptState::TimedOut)
    } else if text::same(value, "cancelled") {
        Some(AttemptState::Cancelled)
    } else if text::same(value, "interrupted") {
        Some(AttemptState::Interrupted)
    } else if text::same(value, "rejected") {
        Some(AttemptState::Rejected)
    } else {
        None
    }
}

/// The word of a run's state.
pub open spec fn run_state_word(state: RunState) -> Seq<char> {
    match state {
        RunState::Pending => "pending"@,
        RunState::Running => "running"@,
        RunState::Succeeded => "succeeded"@,
        RunState::Failed => "failed"@,
        RunState::Cancelled => "cancelled"@,
        RunState::TimedOut => "timed_out"@,
    }
}

/// The word of a run's state.
pub fn run_state_str(state: RunState) -> (r: &'static str)
    ensures
        r@ == run_state_word(state),
{
    match state {
        RunState::Pending => "pending",
        RunState::Running => "running",
        RunState::Succeeded => "succeeded",
        RunState::Failed => "failed",
        RunState::Cancelled => "cancelled",
        RunState::TimedOut => "timed_out",
    }
}

/// The run state of a word.
pub fn parse_run_state(value: &str) -> (r: Option<RunState>)
    ensures
        match r {
            Some(state) => value@ == run_state_word(state),
            None => forall|state: RunState| value@ != #[trigger] run_state_word(state),
        },
{
    if text::same(value, "pending") {
        Some(RunState::Pending)
    } else if text::same(value, "running") {
        Some(RunState::Running)
    } else if text::same(value, "succeeded") {
        Some(RunState::Succeeded)
    } else if text::same(value, "failed") {
        Some(RunState::Failed)
    } else if text::same(value, "cancelled") {
        Some(RunState::Cancelled)
    } else if text::same(value, "timed_out") {
        Some(RunState::TimedOut)
    } else {
        None
    }
}

/// The word of a trigger.
pub open spec fn run_trigger_word(trigger: RunTrigger) -> Seq<char> {
    match trigger {
        RunTrigger::Manual => "manual"@,
        RunTrigger::Scheduled => "scheduled"@,
    }
}

/// The word of a trigger.
pub fn run_trigger_str(trigger: RunTrigger) -> (r: &'static str)
    ensures
        r@ == run_trigger_word(trigger),
{
    match trigger {
        RunTrigger::Manual => "manual",
        RunTrigger::Scheduled => "scheduled",
    }
}

/// The trigger of a word.
pub fn parse_run_trigger(value: &str) -> (r: Option<RunTrigger>)
    ensures
        match r {
            Some(trigger) => value@ == run_trigger_word(trigger),
            None => forall|trigger: RunTrigger| value@ != #[trigger] run_trigger_word(trigger),
        },
{
    if text::same(value, "manual") {
        Some(RunTrigger::Manual)
    } else if text::same(value, "scheduled") {
        Some(RunTrigger::Scheduled)
    } else {
        None
    }
}

/// The word of a failure.
pub open spec fn failure_kind_word(kind: FailureKind) -> Seq<char> {
    match kind {
        FailureKind::Process => "process"@,
        FailureKind::Timeout => "timeout"@,
        FailureKind::Interrupted => "interrupted"@,
        FailureKind::Rejected => "rejected"@,
        FailureKind::InvalidResult => "invalid_result"@,
    }
}

/// The word of a failure.
pub fn failure_kind_str(kind: FailureKind) -> (r: &'static str)
    ensures
        r@ == failure_kind_word(kind),
{
    match kind {
        FailureKind::Process => "process",
        FailureKind::Timeout => "timeout",
        FailureKind::Interrupted => "interrupted",
        FailureKind::Rejected => "rejected",
        FailureKind::InvalidResult => "invalid_result",
    }
}

/// The word of an optional failure.
pub open spec fn failure_word(kind: Option<FailureKind>) -> Option<Seq<char>> {
    match kind {
        Some(value) => Some(failure_kind_word(value)),
        None => None,
    }
}

/// The word of an optional failure.
pub fn failure_text(kind: Option<FailureKind>) -> (r: Option<String>)
    ensures
        text::opt_view(r) == failure_word(kind),
{
    match kind {
        Some(value) => Some(failure_kind_str(value).to_owned()),
        None => None,
    }
}

/// A state is read back from its word: no two attempt states have one word.
pub proof fn law_attempt_state_words_differ(a: AttemptState, b: AttemptState)
    ensures
        attempt_state_word(a) == attempt_state_word(b) ==> a == b,
{
    reveal_strlit("queued");
    reveal_strlit("accepted");
    reveal_strlit("running");
    reveal_strlit("succeeded");
    reveal_strlit("failed");
    reveal_strlit("timed_out");
    reveal_strlit("cancelled");
    reveal_strlit("interrupted");
    reveal_strlit("rejected");
    let x = attempt_state_word(a);
    let y = attempt_state_word(b);
    if x == y {
        assert(x.len() == y.len() && x[0] == y[0] && x[1] == y[1] && x[2] == y[2]);
    }
}

/// A state is read back from its word: no two run states have one word.
pub proof fn law_run_state_words_differ(a: RunState, b: RunState)
    ensures
        run_state_word(a) == run_state_word(b) ==> a == b,
{
    reveal_strlit("pending");
    reveal_strlit("running");
    reveal_strlit("succeeded");
    reveal_strlit("failed");
    reveal_strlit("cancelled");
    reveal_strlit("timed_out");
    let x = run_state_word(a);
    let y = run_state_word(b);
    if x == y {
        assert(x.len() == y.len() && x[0] == y[0]);
    }
}

/// A trigger is read back from its word: the two triggers have different words.
pub proof fn law_run_trigger_words_differ(a: RunTrigger, b: RunTrigger)
    ensures
        run_trigger_word(a) == run_trigger_word(b) ==> a == b,
{
    reveal_strlit("manual");
    reveal_strlit("scheduled");
    assert(run_trigger_word(RunTrigger::Manual).len() != run_trigger_word(RunTrigger::Scheduled).len());
}

/// A state is kept as the word for it: its own name in small letters, two words joined by a low line.
pub proof fn law_states_are_kept_by_name(attempt: AttemptState, run: RunState)
    ensures
        attempt_state_word(attempt) == "queued"@ <==> attempt == AttemptState::Queued,
        attempt_state_word(attempt) == "accepted"@ <==> attempt == AttemptState::Accepted,
        attempt_state_word(attempt) == "running"@ <==> attempt == AttemptState::Running,
        attempt_state_word(attempt) == "succeeded"@ <==> attempt == AttemptState::Succeeded,
        attempt_state_word(attempt) == "failed"@ <==> attempt == AttemptState::Failed,
        attempt_state_word(attempt) == "timed_out"@ <==> attempt == AttemptState::TimedOut,
        attempt_state_word(attempt) == "cancelled"@ <==> attempt == AttemptState::Cancelled,
        attempt_state_word(attempt) == "interrupted"@ <==> attempt == AttemptState::Interrupted,
        attempt_state_word(attempt) == "rejected"@ <==> attempt == AttemptState::Rejected,
        run_state_word(run) == "pending"@ <==> run == RunState::Pending,
        run_state_word(run) == "running"@ <==> run == RunState::Running,
        run_state_word(run) == "succeeded"@ <==> run == RunState::Succeeded,
        run_state_word(run) == "failed"@ <==> run == RunState::Failed,
        run_state_word(run) == "timed_out"@ <==> run == RunState::TimedOut,
        run_state_word(run) == "cancelled"@ <==> run == RunState::Cancelled,
{
    law_attempt_state_words_differ(attempt, AttemptState::Queued);
    law_attempt_state_words_differ(attempt, AttemptState::Accepted);
    law_attempt_state_words_differ(attempt, AttemptState::Running);
    law_attempt_state_words_differ(attempt, AttemptState::Succeeded);
    law_attempt_state_words_differ(attempt, AttemptState::Failed);
    law_attempt_state_words_differ(attempt, AttemptState::TimedOut);
    law_attempt_state_words_differ(attempt, AttemptState::Cancelled);
    law_attempt_state_words_differ(attempt, AttemptState::Interrupted);
    law_attempt_state_words_differ(attempt, AttemptState::Rejected);
    law_run_state_words_differ(run, RunState::Pending);
    law_run_state_words_differ(run, RunState::Running);
    law_run_state_words_differ(run, RunState::Succeeded);
    law_run_state_words_differ(run, RunState::Failed);
    law_run_state_words_differ(run, RunState::TimedOut);
    law_run_state_words_differ(run, RunState::Cancelled);
}

/// An attempt and the run that it ends are kept by the same word, where both have it.
pub proof fn law_attempts_and_runs_share_their_words(attempt: AttemptState, run: RunState)
    requires
        (attempt == AttemptState::Running && run == RunState::Running) || (attempt == AttemptState::Succeeded && run
            == RunState::Succeeded) || (attempt == AttemptState::Failed && run == RunState::Failed) || (attempt
            == AttemptState::TimedOut && run == RunState::TimedOut) || (attempt == AttemptState::Cancelled && run
            == RunState::Cancelled),
    ensures
        attempt_state_word(attempt) == run_state_word(run),
{
}

/// Why an attempt failed and what a run was begun by are kept by name, each by a word of its own.
pub proof fn law_reasons_are_kept_by_name(a: FailureKind, b: FailureKind, trigger: RunTrigger)
    ensures
        failure_kind_word(FailureKind::Process) == "process"@,
        failure_kind_word(FailureKind::Timeout) == "timeout"@,
        failure_kind_word(FailureKind::Interrupted) == "interrupted"@,
        failure_kind_word(FailureKind::Rejected) == "rejected"@,
        failure_kind_word(FailureKind::InvalidResult) == "invalid_result"@,
        failure_word(None) is None,
        failure_word(Some(a)) == Some(failure_kind_word(a)),
        failure_kind_word(a) == failure_kind_word(b) ==> a == b,
        run_trigger_word(RunTrigger::Manual) == "manual"@,
        run_trigger_word(RunTrigger::Scheduled) == "scheduled"@,
        failure_kind_word(FailureKind::Interrupted) == attempt_state_word(AttemptState::Interrupted),
        failure_kind_word(FailureKind::Rejected) == attempt_state_word(AttemptState::Rejected),
{
    reveal_strlit("process");
    reveal_strlit("timeout");
    reveal_strlit("interrupted");
    reveal_strlit("rejected");
    reveal_strlit("invalid_result");
    assert("process"@[0] != "timeout"@[0]);
    assert("interrupted"@.len() == 11 && "invalid_result"@.len() == 14 && "rejected"@.len() == 8);
}

} // verus!
