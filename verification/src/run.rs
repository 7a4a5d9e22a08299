//! The run: which unit starts next, what each attempt's outcome means, and
//! the results in the end.

use crate::manifest::text_of;
use crate::manifest::views_of;
use crate::sync::SyncJob;
use crate::sync::SyncJobView;
use crate::text::concat_text;
use vstd::prelude::*;

verus! {

/// `gix::Url`: a parsed Git location. Its parts are not looked at here; a
/// value is handed on to the driver of the run as it came.
#[verifier::external_type_specification]
#[verifier::external_body]
pub struct ExUrl(gix::Url);

/// `gix::Error`: the error of the Git library. Nothing of it is looked at
/// here.
#[verifier::external_type_specification]
#[verifier::external_body]
pub struct ExError(gix::Error);

/// Parses the text of a Git location with `gix::url::parse`. The library
/// accepts URLs, SCP-like locations, remote-helper locations and local
/// paths, and decides by rules of its own, some of which differ between
/// platforms; nothing is claimed here of which texts it accepts.
#[verifier::external_body]
fn parse_location(text: &str) -> (parsed: Result<gix::Url, gix::Error>) {
    gix::url::parse(text)
}

/// How a unit of work ended.
#[derive(Debug, Clone, Copy, PartialEq, Eq)]
pub enum Outcome {
    Succeeded,
    Failed,
    Skipped,
}

/// The record of one unit of work.
#[derive(Debug, PartialEq, Eq)]
pub struct SyncResult {
    /// The name of the project.
    pub name: String,
    /// The directory of the working tree.
    pub destination: String,
    pub outcome: Outcome,
    /// Why the unit failed; for a unit that succeeded, what went wrong
    /// with its file projections, if anything did.
    pub error: Option<String>,
    /// The time that all attempts took together, in milliseconds.
    pub duration_ms: u64,
}

/// The view of a `SyncResult`: its texts as characters and its lists as
/// sequences.
pub struct SyncResultView {
    pub name: Seq<char>,
    pub destination: Seq<char>,
    pub outcome: Outcome,
    pub error: Option<Seq<char>>,
    pub duration_ms: u64,
}

impl View for SyncResult {
    type V = SyncResultView;

    open spec fn view(&self) -> SyncResultView {
        SyncResultView {
            name: self.name@,
            destination: self.destination@,
            outcome: self.outcome,
            error: text_of(self.error),
            duration_ms: self.duration_ms,
        }
    }
}

impl Clone for SyncResult {
    fn clone(&self) -> (copy: Self)
        ensures
            copy@ == self@,
    {
        SyncResult {
            name: self.name.clone(),
            destination: self.destination.clone(),
            outcome: self.outcome,
            error: self.error.clone(),
            duration_ms: self.duration_ms,
        }
    }
}

/// Why an attempt failed.
#[derive(Debug, Clone, Copy, PartialEq, Eq)]
pub enum FailureKind {
    Timeout,
    ConnectionReset,
    InvalidUrl,
    AuthenticationRejected,
    DiskFull,
    CheckoutConflict,
    Other,
}

impl FailureKind {
    /// Whether another attempt may succeed: a timeout and a connection
    /// reset are transient, every other failure is not.
    pub open spec fn transient(self) -> bool {
        self is Timeout || self is ConnectionReset
    }

    /// Whether another attempt may succeed.
    pub fn is_transient(self) -> (passing: bool)
        ensures
            passing == self.transient(),
    {
        match self {
            FailureKind::Timeout => true,
            FailureKind::ConnectionReset => true,
            _ => false,
        }
    }
}

/// The remedy that an error of the Git library calls for: the class that
/// the library gives the error, as the caller has read it off.
#[derive(Debug, Clone, Copy, PartialEq, Eq)]
pub enum ErrorClass {
    Cancelled,
    Corruption,
    ResourceExhaustion,
    Validation,
    Unsupported,
    Unauthenticated,
    PermissionDenied,
    Conflict,
    NotFound,
    Retryable,
    /// The library gives no class, or one that is not known here.
    Unknown,
}

/// The kind of failure that an error of a class is: one that another
/// attempt may overcome where the library says so; a rejected
/// authentication where credentials or permissions are wanting; a full
/// disk where a resource is exhausted; a checkout conflict where the state
/// is in the way; and any other failure otherwise.
pub open spec fn kind_of(class: ErrorClass) -> FailureKind {
    match class {
        ErrorClass::Retryable => FailureKind::ConnectionReset,
        ErrorClass::Unauthenticated => FailureKind::AuthenticationRejected,
        ErrorClass::PermissionDenied => FailureKind::AuthenticationRejected,
        ErrorClass::ResourceExhaustion => FailureKind::DiskFull,
        ErrorClass::Conflict => FailureKind::CheckoutConflict,
        _ => FailureKind::Other,
    }
}

/// The kind of failure that an error of a class is.
pub fn classify(class: ErrorClass) -> (kind: FailureKind)
    ensures
        kind == kind_of(class),
{
    match class {
        ErrorClass::Retryable => FailureKind::ConnectionReset,
        ErrorClass::Unauthenticated => FailureKind::AuthenticationRejected,
        ErrorClass::PermissionDenied => FailureKind::AuthenticationRejected,
        ErrorClass::ResourceExhaustion => FailureKind::DiskFull,
        ErrorClass::Conflict => FailureKind::CheckoutConflict,
        _ => FailureKind::Other,
    }
}

/// What one attempt at a unit of work came to.
#[derive(Debug, PartialEq, Eq)]
pub enum AttemptReport {
    /// The project is checked out. `overlay_error` says what went wrong
    /// with its file projections, if anything did.
    Succeeded { overlay_error: Option<String>, duration_ms: u64 },
    /// The attempt failed.
    Failed { kind: FailureKind, detail: String, duration_ms: u64 },
    /// The attempt was given up because the run was cancelled.
    Aborted { duration_ms: u64 },
}

/// The view of an `AttemptReport`: its texts as characters and its lists as
/// sequences.
pub enum AttemptReportView {
    Succeeded { overlay_error: Option<Seq<char>>, duration_ms: u64 },
    Failed { kind: FailureKind, detail: Seq<char>, duration_ms: u64 },
    Aborted { duration_ms: u64 },
}

impl View for AttemptReport {
    type V = AttemptReportView;

    open spec fn view(&self) -> AttemptReportView {
        match self {
            AttemptReport::Succeeded { overlay_error, duration_ms } => AttemptReportView::Succeeded {
                overlay_error: text_of(*overlay_error),
                duration_ms: *duration_ms,
            },
            AttemptReport::Failed { kind, detail, duration_ms } => AttemptReportView::Failed {
                kind: *kind,
                detail: detail@,
                duration_ms: *duration_ms,
            },
            AttemptReport::Aborted { duration_ms } => AttemptReportView::Aborted {
                duration_ms: *duration_ms,
            },
        }
    }
}

/// What an attempt that ended with an error of a class came to: it was
/// given up where the error says that the run was cancelled, and has
/// failed otherwise.
pub open spec fn failure_report_of(
    class: ErrorClass,
    detail: Seq<char>,
    duration_ms: u64,
) -> AttemptReportView {
    if class is Cancelled {
        AttemptReportView::Aborted { duration_ms: duration_ms }
    } else {
        AttemptReportView::Failed { kind: kind_of(class), detail: detail, duration_ms: duration_ms }
    }
}

/// Makes the report of an attempt that ended with an error of a class.
pub fn failure_report(class: ErrorClass, detail: String, duration_ms: u64) -> (report:
    AttemptReport)
    ensures
        report@ == failure_report_of(class, detail@, duration_ms),
{
    match class {
        ErrorClass::Cancelled => AttemptReport::Aborted { duration_ms: duration_ms },
        _ => AttemptReport::Failed {
            kind: classify(class),
            detail: detail,
            duration_ms: duration_ms,
        },
    }
}

/// What went wrong with an operation on the file system, as far as it
/// matters for a unit of work.
#[derive(Debug, Clone, Copy, PartialEq, Eq)]
pub enum IoProblem {
    /// The storage is full.
    StorageFull,
    /// The operation took too long.
    TimedOut,
    /// Anything else.
    Other,
}

/// The kind of failure that a problem with the file system is: a full
/// disk where the storage is full, a timeout where the operation took too
/// long, and any other failure otherwise.
pub open spec fn kind_of_io(problem: IoProblem) -> FailureKind {
    match problem {
        IoProblem::StorageFull => FailureKind::DiskFull,
        IoProblem::TimedOut => FailureKind::Timeout,
        IoProblem::Other => FailureKind::Other,
    }
}

/// Makes the report of an attempt that ended with a problem on the file
/// system: the attempt has failed, with the kind of the problem.
pub fn io_failure_report(problem: IoProblem, detail: String, duration_ms: u64) -> (report:
    AttemptReport)
    ensures
        report@ == (AttemptReportView::Failed {
            kind: kind_of_io(problem),
            detail: detail@,
            duration_ms: duration_ms,
        }),
{
    let kind = match problem {
        IoProblem::StorageFull => FailureKind::DiskFull,
        IoProblem::TimedOut => FailureKind::Timeout,
        IoProblem::Other => FailureKind::Other,
    };
    AttemptReport::Failed { kind: kind, detail: detail, duration_ms: duration_ms }
}

impl AttemptReportView {
    /// The time that the attempt took.
    pub open spec fn duration(self) -> u64 {
        match self {
            AttemptReportView::Succeeded { duration_ms, .. } => duration_ms,
            AttemptReportView::Failed { duration_ms, .. } => duration_ms,
            AttemptReportView::Aborted { duration_ms } => duration_ms,
        }
    }
}

/// Where a unit of work stands.
#[derive(Debug, PartialEq, Eq)]
pub enum Unit {
    /// Not started.
    Queued,
    /// Started and not ended: `attempt` attempts have failed so far and
    /// took `spent_ms` together.
    InFlight { attempt: u32, spent_ms: u64 },
    /// Ended, with its record.
    Done(SyncResult),
}

/// The view of a `Unit`: its texts as characters and its lists as
/// sequences.
pub enum UnitView {
    Queued,
    InFlight { attempt: u32, spent_ms: u64 },
    Done(SyncResultView),
}

impl View for Unit {
    type V = UnitView;

    open spec fn view(&self) -> UnitView {
        match self {
            Unit::Queued => UnitView::Queued,
            Unit::InFlight { attempt, spent_ms } => UnitView::InFlight {
                attempt: *attempt,
                spent_ms: *spent_ms,
            },
            Unit::Done(result) => UnitView::Done(result@),
        }
    }
}

/// How many attempts may follow the first one of a unit.
pub const MAX_RETRIES: u32 = 3;

/// The wait before the first retry, in milliseconds.
pub const BACKOFF_BASE_MS: u64 = 500;

/// The wait before the retry of the given number, in milliseconds: the
/// base wait before the first, and twice the wait of the one before for
/// each further one.
pub open spec fn backoff_ms(retry: nat) -> nat
    decreases retry,
{
    if retry <= 1 {
        BACKOFF_BASE_MS as nat
    } else {
        2 * backoff_ms((retry - 1) as nat)
    }
}

/// Each wait is at least as long as the one before.
pub proof fn lemma_backoff_grows(earlier: nat, later: nat)
    requires
        earlier <= later,
    ensures
        backoff_ms(earlier) <= backoff_ms(later),
        backoff_ms(earlier) >= BACKOFF_BASE_MS,
    decreases later,
{
    if later > 1 {
        if earlier < later {
            lemma_backoff_grows(earlier, (later - 1) as nat);
        } else {
            lemma_backoff_grows((earlier - 1) as nat, (later - 1) as nat);
        }
    }
}

/// The wait before the retry of the given number, where it can be held.
pub fn backoff(retry: u32) -> (wait: u64)
    requires
        backoff_ms(retry as nat) <= u64::MAX,
    ensures
        wait == backoff_ms(retry as nat),
{
    let mut wait: u64 = BACKOFF_BASE_MS;
    let mut k: u32 = 1;
    while k < retry
        invariant
            1 <= k,
            k <= retry || (retry == 0 && k == 1),
            wait == backoff_ms(k as nat),
            backoff_ms(retry as nat) <= u64::MAX,
        decreases retry - k,
    {
        proof {
            lemma_backoff_grows((k + 1) as nat, retry as nat);
        }
        wait = wait * 2;
        k = k + 1;
    }
    wait
}

/// The sum of two times, or the greatest time that can be held where the
/// sum is greater.
pub open spec fn added_ms(a: u64, b: u64) -> u64 {
    if a + b > u64::MAX {
        u64::MAX
    } else {
        (a + b) as u64
    }
}

/// The sum of two times.
pub fn add_ms(a: u64, b: u64) -> (sum: u64)
    ensures
        sum == added_ms(a, b),
{
    if a > u64::MAX - b {
        u64::MAX
    } else {
        a + b
    }
}

/// The state of a run, as a value.
pub struct RunView {
    /// The units of work, in the order of the sync set.
    pub jobs: Seq<SyncJobView>,
    /// How many units may be in flight at once.
    pub limit: nat,
    /// How many units have been taken from the queue.
    pub next: nat,
    /// Where each unit stands.
    pub units: Seq<UnitView>,
    /// Whether the run was cancelled before it had finished.
    pub cancelled: bool,
}

/// How many of `units` are in flight.
pub open spec fn in_flight(units: Seq<UnitView>) -> nat
    decreases units.len(),
{
    if units.len() == 0 {
        0
    } else {
        in_flight(units.drop_last()) + if units.last() is InFlight {
            1nat
        } else {
            0nat
        }
    }
}

/// Changing one unit changes the number in flight by that unit alone.
pub proof fn lemma_in_flight_update(units: Seq<UnitView>, i: int, unit: UnitView)
    requires
        0 <= i < units.len(),
    ensures
        in_flight(units.update(i, unit)) + (if units[i] is InFlight {
            1nat
        } else {
            0nat
        }) == in_flight(units) + (if unit is InFlight {
            1nat
        } else {
            0nat
        }),
    decreases units.len(),
{
    let after = units.update(i, unit);
    if i == units.len() - 1 {
        assert(after.drop_last() =~= units.drop_last());
    } else {
        lemma_in_flight_update(units.drop_last(), i, unit);
        assert(after.drop_last() =~= units.drop_last().update(i, unit));
    }
}

/// Where no unit is in flight, none of the units is.
pub proof fn lemma_none_in_flight(units: Seq<UnitView>)
    requires
        in_flight(units) == 0,
    ensures
        forall|i: int| 0 <= i < units.len() ==> !(#[trigger] units[i] is InFlight),
    decreases units.len(),
{
    if units.len() > 0 {
        lemma_none_in_flight(units.drop_last());
        assert forall|i: int| 0 <= i < units.len() implies !(#[trigger] units[i] is InFlight) by {
            if i < units.len() - 1 {
                assert(units.drop_last()[i] == units[i]);
            }
        }
    }
}

/// A row of queued units has none in flight.
pub proof fn lemma_queued_not_in_flight(units: Seq<UnitView>)
    requires
        forall|i: int| 0 <= i < units.len() ==> #[trigger] units[i] is Queued,
    ensures
        in_flight(units) == 0,
    decreases units.len(),
{
    if units.len() > 0 {
        assert forall|i: int| 0 <= i < units.drop_last().len() implies #[trigger] units.drop_last()[i] is Queued by {
            assert(units[i] is Queued);
        }
        lemma_queued_not_in_flight(units.drop_last());
    }
}

/// The text that records an address that cannot be parsed.
pub open spec fn invalid_url_detail(url: Seq<char>) -> Seq<char> {
    "invalid clone URL: "@ + url
}

impl RunView {
    /// The state is consistent: there is a unit for each job; the units
    /// taken from the queue are the first ones, and they alone are not
    /// queued; no more units are in flight than the limit allows; and the
    /// record of an ended unit names the project and directory of its job,
    /// and says why the unit failed where it failed.
    pub open spec fn wf(self) -> bool {
        &&& self.units.len() == self.jobs.len()
        &&& self.next <= self.jobs.len()
        &&& self.limit >= 1
        &&& in_flight(self.units) <= self.limit
        &&& forall|i: int|
            0 <= i < self.units.len() ==> (#[trigger] self.units[i] is Queued <==> i >= self.next)
        &&& forall|i: int|
            0 <= i < self.units.len() ==> (#[trigger] self.units[i] matches UnitView::Done(result)
                ==> result.name == self.jobs[i].name && result.destination
                == self.jobs[i].destination && (result.outcome is Failed ==> result.error
                is Some))
    }

    /// Whether the next unit of the queue may start: the run is not
    /// cancelled, the queue is not empty and the limit is not reached.
    pub open spec fn can_start(self) -> bool {
        !self.cancelled && self.next < self.jobs.len() && in_flight(self.units) < self.limit
    }

    /// Whether the run has ended: nothing is in flight, and the queue is
    /// empty or the run cancelled.
    pub open spec fn finished(self) -> bool {
        in_flight(self.units) == 0 && (self.cancelled || self.next == self.jobs.len())
    }

    /// The state after the next unit of the queue has started.
    pub open spec fn started(self) -> RunView {
        RunView {
            next: self.next + 1,
            units: self.units.update(
                self.next as int,
                UnitView::InFlight { attempt: 0, spent_ms: 0 },
            ),
            ..self
        }
    }

    /// The state after the next unit of the queue was found to have an
    /// address that cannot be parsed: it has failed without an attempt.
    pub open spec fn refused(self) -> RunView {
        let job = self.jobs[self.next as int];
        RunView {
            next: self.next + 1,
            units: self.units.update(
                self.next as int,
                UnitView::Done(
                    SyncResultView {
                        name: job.name,
                        destination: job.destination,
                        outcome: Outcome::Failed,
                        error: Some(invalid_url_detail(job.url)),
                        duration_ms: 0,
                    },
                ),
            ),
            ..self
        }
    }

    /// The state after the next `count` units of the queue were refused.
    pub open spec fn refused_times(self, count: nat) -> RunView
        decreases count,
    {
        if count == 0 {
            self
        } else {
            self.refused_times((count - 1) as nat).refused()
        }
    }

    /// Whether the unit at `index` is tried again after `report`: the
    /// attempt failed for a transient reason, fewer retries than the bound
    /// have been made, and the run is not cancelled.
    pub open spec fn retries(self, index: int, report: AttemptReportView) -> bool {
        &&& self.units[index] matches UnitView::InFlight { attempt, .. }
        &&& report matches AttemptReportView::Failed { kind, .. }
        &&& kind.transient()
        &&& attempt < MAX_RETRIES
        &&& !self.cancelled
    }

    /// The record of the unit at `index`, which is in flight, when
    /// `report` ends it.
    pub open spec fn result_of(self, index: int, report: AttemptReportView) -> SyncResultView {
        let job = self.jobs[index];
        let spent = self.units[index]->spent_ms;
        SyncResultView {
            name: job.name,
            destination: job.destination,
            outcome: match report {
                AttemptReportView::Succeeded { .. } => Outcome::Succeeded,
                AttemptReportView::Failed { .. } => Outcome::Failed,
                AttemptReportView::Aborted { .. } => Outcome::Skipped,
            },
            error: match report {
                AttemptReportView::Succeeded { overlay_error, .. } => overlay_error,
                AttemptReportView::Failed { detail, .. } => Some(detail),
                AttemptReportView::Aborted { .. } => None,
            },
            duration_ms: added_ms(spent, report.duration()),
        }
    }

    /// The state after an attempt at the unit at `index` has come to
    /// `report`. Where the unit is not in flight, nothing changes. Where
    /// it is tried again, it stays in flight with one more failed attempt.
    /// Otherwise it has ended with its record.
    pub open spec fn recorded(self, index: int, report: AttemptReportView) -> RunView {
        if !(0 <= index < self.units.len() && self.units[index] is InFlight) {
            self
        } else if self.retries(index, report) {
            RunView {
                units: self.units.update(
                    index,
                    UnitView::InFlight {
                        attempt: (self.units[index]->attempt + 1) as u32,
                        spent_ms: added_ms(self.units[index]->spent_ms, report.duration()),
                    },
                ),
                ..self
            }
        } else {
            RunView {
                units: self.units.update(index, UnitView::Done(self.result_of(index, report))),
                ..self
            }
        }
    }

    /// The state after a cancellation: a run that has not finished is
    /// cancelled, a finished run stays as it is.
    pub open spec fn cancel(self) -> RunView {
        if self.finished() {
            self
        } else {
            RunView { cancelled: true, ..self }
        }
    }

    /// The records of the units taken from the queue, in the order of the
    /// sync set. All of them have ended where the run has finished.
    pub open spec fn results(self) -> Seq<SyncResultView> {
        Seq::new(self.next, |i: int| self.units[i]->Done_0)
    }

    /// Whether a unit that the run depends on has failed.
    pub open spec fn failed(self) -> bool {
        exists|i: int|
            0 <= i < self.next && self.jobs[i].required && (#[trigger] self.units[i]
                matches UnitView::Done(result) && result.outcome is Failed)
    }
}

/// Starting a unit keeps the state consistent and adds one to the units in
/// flight.
pub proof fn lemma_started(run: RunView)
    requires
        run.wf(),
        run.can_start(),
    ensures
        run.started().wf(),
        in_flight(run.started().units) == in_flight(run.units) + 1,
{
    let after = run.started();
    assert(run.units[run.next as int] is Queued);
    lemma_in_flight_update(
        run.units,
        run.next as int,
        UnitView::InFlight { attempt: 0, spent_ms: 0 },
    );
}

/// Refusing a unit keeps the state consistent and the units in flight.
pub proof fn lemma_refused(run: RunView)
    requires
        run.wf(),
        run.next < run.jobs.len(),
    ensures
        run.refused().wf(),
        in_flight(run.refused().units) == in_flight(run.units),
{
    let after = run.refused();
    assert(run.units[run.next as int] is Queued);
    lemma_in_flight_update(run.units, run.next as int, after.units[run.next as int]);
}

/// Taking a report keeps the state consistent; the units in flight are
/// one fewer where the unit has ended, and as many as before otherwise.
pub proof fn lemma_recorded(run: RunView, index: int, report: AttemptReportView)
    requires
        run.wf(),
    ensures
        run.recorded(index, report).wf(),
        in_flight(run.recorded(index, report).units) == if 0 <= index < run.units.len()
            && run.units[index] is InFlight && !run.retries(index, report) {
            in_flight(run.units) - 1
        } else {
            in_flight(run.units) as int
        },
{
    let after = run.recorded(index, report);
    if 0 <= index < run.units.len() && run.units[index] is InFlight {
        lemma_in_flight_update(run.units, index, after.units[index]);
        assert(index < run.next);
    }
}

/// The bound: in a consistent run no more units are in flight than the
/// limit allows, and whatever happens next leaves the run consistent: a
/// unit starting or being refused, an attempt being reported, the run
/// being cancelled.
pub proof fn law_bound_is_kept(run: RunView, index: int, report: AttemptReportView)
    requires
        run.wf(),
    ensures
        in_flight(run.units) <= run.limit,
        run.can_start() ==> run.started().wf() && run.refused().wf(),
        run.recorded(index, report).wf(),
        run.cancel().wf(),
{
    if run.can_start() {
        lemma_started(run);
        lemma_refused(run);
    }
    lemma_recorded(run, index, report);
}

/// Refusing units one after the other keeps the state consistent, and
/// changes neither the jobs, the limit, the cancellation nor the number of
/// units in flight.
pub proof fn law_refusals_keep_the_run(run: RunView, count: nat)
    requires
        run.wf(),
        forall|j: nat| j < count ==> (#[trigger] run.refused_times(j)).can_start(),
    ensures
        run.refused_times(count).wf(),
        run.refused_times(count).jobs == run.jobs,
        run.refused_times(count).limit == run.limit,
        run.refused_times(count).cancelled == run.cancelled,
        run.refused_times(count).next == run.next + count,
        in_flight(run.refused_times(count).units) == in_flight(run.units),
    decreases count,
{
    if count > 0 {
        let before = (count - 1) as nat;
        law_refusals_keep_the_run(run, before);
        assert(run.refused_times(before).can_start());
        lemma_refused(run.refused_times(before));
    }
}

/// In a finished run every unit taken from the queue has ended, and its
/// record names the project and the directory of its job and, where the
/// unit failed, says why. Unless the run was cancelled, every unit was
/// taken from the queue: there are as many records as jobs, whichever of
/// them failed.
pub proof fn law_finished_run_has_all_results(run: RunView)
    requires
        run.wf(),
        run.finished(),
    ensures
        run.results().len() == run.next,
        !run.cancelled ==> run.results().len() == run.jobs.len(),
        forall|i: int|
            0 <= i < run.next ==> run.units[i] == UnitView::Done(#[trigger] run.results()[i])
                && run.results()[i].name == run.jobs[i].name && run.results()[i].destination
                == run.jobs[i].destination && (run.results()[i].outcome is Failed
                ==> run.results()[i].error is Some),
{
    lemma_none_in_flight(run.units);
    assert forall|i: int| 0 <= i < run.next implies run.units[i] == UnitView::Done(
        #[trigger] run.results()[i],
    ) && run.results()[i].name == run.jobs[i].name && run.results()[i].destination
        == run.jobs[i].destination && (run.results()[i].outcome is Failed
        ==> run.results()[i].error is Some) by {
        assert(!(run.units[i] is Queued));
        assert(!(run.units[i] is InFlight));
    }
}

/// What the driver of the run does next.
#[derive(Debug)]
pub enum Action {
    /// Start the unit at `index`: make its directory, clone or fetch from
    /// `location`, check out, and report the outcome.
    Dispatch { index: usize, location: gix::Url },
    /// Wait for a unit in flight to end, and report its outcome.
    Wait,
    /// Nothing is left to do: take the results.
    Finished,
}

/// What the driver does with a unit after it has reported an attempt.
#[derive(Debug, Clone, Copy, PartialEq, Eq)]
pub enum Followup {
    /// Try the unit again, as the retry of the given number, after the
    /// wait.
    Retry { attempt: u32, wait_ms: u64 },
    /// The unit has ended.
    Settled,
    /// The unit was not in flight; the report changed nothing.
    Ignored,
}

/// What follows a report on the unit at `index`.
pub open spec fn followup_of(run: RunView, index: int, report: AttemptReportView) -> Followup {
    if !(0 <= index < run.units.len() && run.units[index] is InFlight) {
        Followup::Ignored
    } else if run.retries(index, report) {
        let attempt = (run.units[index]->attempt + 1) as u32;
        Followup::Retry { attempt: attempt, wait_ms: backoff_ms(attempt as nat) as u64 }
    } else {
        Followup::Settled
    }
}

/// The outcome of a run.
#[derive(Debug, PartialEq, Eq)]
pub struct SyncReport {
    /// One record for each unit that was taken from the queue, in the
    /// order of the sync set.
    pub results: Vec<SyncResult>,
    /// Whether the run was cancelled before it had finished.
    pub cancelled: bool,
    /// Whether a unit that the run depends on has failed.
    pub failed: bool,
}

/// The records of the units that failed, in their order.
pub open spec fn failures_of(results: Seq<SyncResultView>) -> Seq<SyncResultView>
    decreases results.len(),
{
    if results.len() == 0 {
        Seq::empty()
    } else if results.last().outcome is Failed {
        failures_of(results.drop_last()).push(results.last())
    } else {
        failures_of(results.drop_last())
    }
}

impl SyncReport {
    /// The records of the units that failed, in the order of the sync
    /// set: what is summed up for the user at the end of a run.
    pub fn failures(&self) -> (failed: Vec<SyncResult>)
        ensures
            views_of(failed@) == failures_of(views_of(self.results@)),
    {
        let mut failed: Vec<SyncResult> = Vec::new();
        let mut i: usize = 0;
        proof {
            assert(views_of(self.results@).take(0) =~= Seq::<SyncResultView>::empty());
            assert(views_of(failed@) =~= Seq::<SyncResultView>::empty());
        }
        while i < self.results.len()
            invariant
                i <= self.results.len(),
                views_of(failed@) == failures_of(views_of(self.results@).take(i as int)),
            decreases self.results.len() - i,
        {
            let ghost before = views_of(failed@);
            proof {
                assert(views_of(self.results@).take(i + 1).drop_last() =~= views_of(
                    self.results@,
                ).take(i as int));
                assert(views_of(self.results@).take(i + 1).last() == self.results[i as int]@);
            }
            match self.results[i].outcome {
                Outcome::Failed => {
                    failed.push(self.results[i].clone());
                    proof {
                        assert(views_of(failed@) =~= before.push(self.results[i as int]@));
                    }
                },
                _ => {},
            }
            i = i + 1;
        }
        proof {
            assert(views_of(self.results@).take(self.results.len() as int) =~= views_of(
                self.results@,
            ));
        }
        failed
    }

    /// The exit status of the process: 1 where a unit that the run depends
    /// on has failed or the run was cancelled, else 0.
    pub fn exit_code(&self) -> (code: u8)
        ensures
            code == if self.failed || self.cancelled {
                1u8
            } else {
                0u8
            },
    {
        if self.failed || self.cancelled {
            1
        } else {
            0
        }
    }
}

/// A run over the units of work of a sync set.
#[derive(Debug)]
pub struct Orchestrator {
    jobs: Vec<SyncJob>,
    limit: usize,
    next: usize,
    units: Vec<Unit>,
    in_flight: usize,
    cancelled: bool,
}

impl View for Orchestrator {
    type V = RunView;

    closed spec fn view(&self) -> RunView {
        RunView {
            jobs: views_of(self.jobs@),
            limit: self.limit as nat,
            next: self.next as nat,
            units: views_of(self.units@),
            cancelled: self.cancelled,
        }
    }
}

/// The state before anything has started.
pub open spec fn fresh_run(jobs: Seq<SyncJobView>, limit: usize) -> RunView {
    RunView {
        jobs: jobs,
        limit: if limit == 0 {
            1
        } else {
            limit as nat
        },
        next: 0,
        units: Seq::new(jobs.len(), |i: int| UnitView::Queued),
        cancelled: false,
    }
}

impl Orchestrator {
    /// The state is consistent, and the count of units in flight that is
    /// kept is the number of units that are in flight.
    pub closed spec fn wf(&self) -> bool {
        self@.wf() && self.in_flight == in_flight(self@.units)
    }

    /// What being consistent means for the view.
    pub proof fn lemma_wf(&self)
        requires
            self.wf(),
        ensures
            self@.wf(),
    {
    }

    /// A run over `jobs` with at most `limit` units in flight at once; a
    /// limit of zero counts as one.
    pub fn new(jobs: Vec<SyncJob>, limit: usize) -> (run: Orchestrator)
        ensures
            run.wf(),
            run@ == fresh_run(views_of(jobs@), limit),
    {
        let mut units: Vec<Unit> = Vec::new();
        let mut i: usize = 0;
        while i < jobs.len()
            invariant
                i <= jobs.len(),
                units.len() == i,
                forall|j: int| 0 <= j < i ==> (#[trigger] units[j])@ is Queued,
            decreases jobs.len() - i,
        {
            units.push(Unit::Queued);
            i = i + 1;
        }
        let limit = if limit == 0 {
            1
        } else {
            limit
        };
        let run = Orchestrator {
            jobs: jobs,
            limit: limit,
            next: 0,
            units: units,
            in_flight: 0,
            cancelled: false,
        };
        proof {
            assert(run@.units =~= Seq::new(run@.jobs.len(), |i: int| UnitView::Queued));
            lemma_queued_not_in_flight(run@.units);
        }
        run
    }

    /// The units of work, in the order of the sync set.
    pub fn jobs(&self) -> (jobs: &Vec<SyncJob>)
        ensures
            views_of(jobs@) == self@.jobs,
    {
        &self.jobs
    }

    /// How many units may be in flight at once.
    pub fn limit(&self) -> (limit: usize)
        ensures
            limit == self@.limit,
    {
        self.limit
    }

    /// How many units are in flight: never more than the limit.
    pub fn in_flight(&self) -> (count: usize)
        requires
            self.wf(),
        ensures
            count == in_flight(self@.units),
            count <= self@.limit,
    {
        self.in_flight
    }

    /// How many units have been taken from the queue.
    pub fn dispatched(&self) -> (count: usize)
        ensures
            count == self@.next,
    {
        self.next
    }

    /// Whether the run was cancelled before it had finished.
    pub fn is_cancelled(&self) -> (cancelled: bool)
        ensures
            cancelled == self@.cancelled,
    {
        self.cancelled
    }

    /// Whether the run has ended.
    pub fn is_finished(&self) -> (ended: bool)
        requires
            self.wf(),
        ensures
            ended == self@.finished(),
    {
        self.in_flight == 0 && (self.cancelled || self.next == self.jobs.len())
    }

    /// Takes the next unit from the queue, given what parsing its address
    /// came to: with a location the unit starts, without one it has
    /// failed. Nothing happens where no unit may start.
    pub fn begin(&mut self, location: Result<gix::Url, gix::Error>) -> (action: Option<Action>)
        requires
            old(self).wf(),
        ensures
            final(self).wf(),
            final(self)@ == if !old(self)@.can_start() {
                old(self)@
            } else if location is Ok {
                old(self)@.started()
            } else {
                old(self)@.refused()
            },
            match action {
                Some(Action::Dispatch { index, location: parsed }) => old(self)@.can_start()
                    && location == Ok::<gix::Url, gix::Error>(parsed) && index == old(self)@.next,
                Some(_) => false,
                None => !(old(self)@.can_start() && location is Ok),
            },
    {
        if self.cancelled || self.next >= self.jobs.len() || self.in_flight >= self.limit {
            return None;
        }
        let index = self.next;
        match location {
            Ok(parsed) => {
                proof {
                    lemma_started(self@);
                }
                self.units[index] = Unit::InFlight { attempt: 0, spent_ms: 0 };
                self.next = index + 1;
                self.in_flight = self.in_flight + 1;
                proof {
                    assert(self@.units =~= old(self)@.started().units);
                }
                Some(Action::Dispatch { index: index, location: parsed })
            },
            Err(_) => {
                proof {
                    lemma_refused(self@);
                }
                let job = &self.jobs[index];
                let result = SyncResult {
                    name: job.name.clone(),
                    destination: job.destination.clone(),
                    outcome: Outcome::Failed,
                    error: Some(concat_text("invalid clone URL: ", job.url.as_str())),
                    duration_ms: 0,
                };
                self.units[index] = Unit::Done(result);
                self.next = index + 1;
                proof {
                    assert(self@.units =~= old(self)@.refused().units);
                }
                None
            },
        }
    }

    /// Says what to do next. Units whose address cannot be parsed are
    /// recorded as failed on the way; then the next unit is dispatched
    /// where one may start, else the driver waits where units are in
    /// flight, else the run has finished.
    pub fn next_action(&mut self) -> (action: Action)
        requires
            old(self).wf(),
        ensures
            final(self).wf(),
            final(self)@.jobs == old(self)@.jobs,
            final(self)@.limit == old(self)@.limit,
            final(self)@.cancelled == old(self)@.cancelled,
            final(self)@.next >= old(self)@.next,
            in_flight(final(self)@.units) == in_flight(old(self)@.units) + if action is Dispatch {
                1nat
            } else {
                0nat
            },
            exists|count: nat|
                {
                    let scanned = #[trigger] old(self)@.refused_times(count);
                    &&& forall|j: nat|
                        j < count ==> (#[trigger] old(self)@.refused_times(j)).can_start()
                    &&& match action {
                        Action::Dispatch { index, .. } => scanned.can_start() && final(self)@
                            == scanned.started() && index == scanned.next,
                        Action::Wait => !scanned.can_start() && final(self)@ == scanned
                            && in_flight(scanned.units) > 0,
                        Action::Finished => final(self)@ == scanned && scanned.finished(),
                    }
                },
    {
        let ghost mut count: nat = 0;
        while !self.cancelled && self.next < self.jobs.len() && self.in_flight < self.limit
            invariant
                self.wf(),
                old(self)@.wf(),
                self@ == old(self)@.refused_times(count),
                forall|j: nat| j < count ==> (#[trigger] old(self)@.refused_times(j)).can_start(),
            decreases self.jobs.len() - self.next,
        {
            let ghost before = self@;
            let parsed = parse_location(self.jobs[self.next].url.as_str());
            match self.begin(parsed) {
                Some(action) => {
                    proof {
                        assert(before == old(self)@.refused_times(count));
                        law_refusals_keep_the_run(old(self)@, count);
                        lemma_started(before);
                    }
                    return action;
                },
                None => {
                    proof {
                        assert(old(self)@.refused_times(count + 1) == before.refused());
                        count = count + 1;
                    }
                },
            }
        }
        proof {
            assert(self@ == old(self)@.refused_times(count));
            law_refusals_keep_the_run(old(self)@, count);
        }
        if self.in_flight > 0 {
            Action::Wait
        } else {
            Action::Finished
        }
    }

    /// Takes the outcome of an attempt at the unit at `index`, and says
    /// what follows for the unit.
    pub fn record(&mut self, index: usize, report: AttemptReport) -> (then: Followup)
        requires
            old(self).wf(),
        ensures
            final(self).wf(),
            final(self)@ == old(self)@.recorded(index as int, report@),
            then == followup_of(old(self)@, index as int, report@),
    {
        proof {
            lemma_recorded(self@, index as int, report@);
        }
        if index >= self.units.len() {
            return Followup::Ignored;
        }
        let (attempt, spent) = match &self.units[index] {
            Unit::InFlight { attempt, spent_ms } => (*attempt, *spent_ms),
            _ => {
                return Followup::Ignored;
            },
        };
        let job = &self.jobs[index];
        let name = job.name.clone();
        let destination = job.destination.clone();
        match report {
            AttemptReport::Succeeded { overlay_error, duration_ms } => {
                self.units[index] = Unit::Done(
                    SyncResult {
                        name: name,
                        destination: destination,
                        outcome: Outcome::Succeeded,
                        error: overlay_error,
                        duration_ms: add_ms(spent, duration_ms),
                    },
                );
                self.in_flight = self.in_flight - 1;
                proof {
                    assert(self@.units =~= old(self)@.recorded(index as int, report@).units);
                }
                Followup::Settled
            },
            AttemptReport::Failed { kind, detail, duration_ms } => {
                if kind.is_transient() && attempt < MAX_RETRIES && !self.cancelled {
                    self.units[index] = Unit::InFlight {
                        attempt: attempt + 1,
                        spent_ms: add_ms(spent, duration_ms),
                    };
                    proof {
                        assert(self@.units =~= old(self)@.recorded(index as int, report@).units);
                    }
                    proof {
                        reveal_with_fuel(backoff_ms, 4);
                    }
                    Followup::Retry { attempt: attempt + 1, wait_ms: backoff(attempt + 1) }
                } else {
                    self.units[index] = Unit::Done(
                        SyncResult {
                            name: name,
                            destination: destination,
                            outcome: Outcome::Failed,
                            error: Some(detail),
                            duration_ms: add_ms(spent, duration_ms),
                        },
                    );
                    self.in_flight = self.in_flight - 1;
                    proof {
                        assert(self@.units =~= old(self)@.recorded(index as int, report@).units);
                    }
                    Followup::Settled
                }
            },
            AttemptReport::Aborted { duration_ms } => {
                self.units[index] = Unit::Done(
                    SyncResult {
                        name: name,
                        destination: destination,
                        outcome: Outcome::Skipped,
                        error: None,
                        duration_ms: add_ms(spent, duration_ms),
                    },
                );
                self.in_flight = self.in_flight - 1;
                proof {
                    assert(self@.units =~= old(self)@.recorded(index as int, report@).units);
                }
                Followup::Settled
            },
        }
    }

    /// Cancels the run: from now on no unit starts and no attempt is
    /// repeated. A finished run stays as it is.
    pub fn cancel(&mut self)
        requires
            old(self).wf(),
        ensures
            final(self).wf(),
            final(self)@ == old(self)@.cancel(),
    {
        if !self.is_finished() {
            self.cancelled = true;
        }
    }

    /// The outcome of the run, once it has finished.
    pub fn report(&self) -> (report: Option<SyncReport>)
        requires
            self.wf(),
        ensures
            report is Some <==> self@.finished(),
            report is Some ==> views_of(report->0.results@) == self@.results()
                && report->0.cancelled == self@.cancelled && report->0.failed == self@.failed(),
            report is Some ==> report->0.results.len() == self@.next && (!self@.cancelled
                ==> report->0.results.len() == self@.jobs.len()),
            report is Some ==> forall|i: int|
                0 <= i < report->0.results.len() ==> {
                    let record = (#[trigger] report->0.results[i])@;
                    &&& record.name == self@.jobs[i].name
                    &&& record.destination == self@.jobs[i].destination
                    &&& record.outcome is Failed ==> record.error is Some
                },
    {
        if !self.is_finished() {
            return None;
        }
        proof {
            law_finished_run_has_all_results(self@);
        }
        let mut results: Vec<SyncResult> = Vec::new();
        let mut failed = false;
        let mut i: usize = 0;
        while i < self.next
            invariant
                i <= self.next,
                self.wf(),
                self@.finished(),
                self.next == self@.next,
                self.units.len() == self.jobs.len(),
                self.next <= self.jobs.len(),
                results.len() == i,
                forall|j: int| 0 <= j < i ==> (#[trigger] results[j])@ == self@.results()[j],
                failed == (exists|j: int|
                    0 <= j < i && self@.jobs[j].required && (#[trigger] self@.units[j]
                        matches UnitView::Done(result) && result.outcome is Failed)),
            decreases self.next - i,
        {
            proof {
                law_finished_run_has_all_results(self@);
                assert(self@.units[i as int] == UnitView::Done(self@.results()[i as int]));
                assert(self@.units[i as int] == self.units[i as int]@);
                assert(self@.jobs[i as int] == self.jobs[i as int]@);
            }
            match &self.units[i] {
                Unit::Done(result) => {
                    match result.outcome {
                        Outcome::Failed => {
                            if self.jobs[i].required {
                                failed = true;
                            }
                        },
                        _ => {},
                    }
                    results.push(result.clone());
                },
                _ => {
                    assert(false);
                },
            }
            i = i + 1;
        }
        proof {
            assert(views_of(results@) =~= self@.results());
        }
        Some(SyncReport { results: results, cancelled: self.cancelled, failed: failed })
    }
}

} // verus!
