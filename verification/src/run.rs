//! The run of a workload: events by the schedule, each an iteration for a virtual user.
use crate::binary64;
use crate::dispatch;
use crate::dispatch::{start_iteration, DispatchOk, DispatchStep, Handover, RetryDispatcher};
use crate::dt::LuaDt;
use crate::metric;
use crate::metric::DataPoint;
use crate::schedule;
use crate::schedule::SteppedRateSchedule;
use vstd::prelude::*;
use vstd::string::*;

verus! {

/// What a run is about.
#[derive(Clone, Copy, PartialEq, Eq, Structural, Debug)]
pub enum RunState {
    /// The events that are due are about to be told.
    Polling,
    /// An iteration is about to be dispatched.
    Timing,
    /// An iteration is being handed to a virtual user.
    Trying,
    /// What became of an iteration is being reported.
    Reporting,
    Sleeping,
    Finished,
    Failed,
}

/// What has happened.
#[derive(Clone, Copy, Debug)]
pub enum RunEvent {
    /// The time now.
    Now(LuaDt),
    /// An iteration was handed to a virtual user.
    Tried(Handover),
    Reported,
    /// The collector of the metrics is gone.
    CollectorGone,
    Woke,
}

/// What has happened, in terms of plain values.
pub enum RunEventView {
    Now(nat),
    Tried(Handover),
    Reported,
    CollectorGone,
    Woke,
}

impl View for RunEvent {
    type V = RunEventView;

    open spec fn view(&self) -> RunEventView {
        match self {
            RunEvent::Now(t) => RunEventView::Now(t@),
            RunEvent::Tried(handover) => RunEventView::Tried(*handover),
            RunEvent::Reported => RunEventView::Reported,
            RunEvent::CollectorGone => RunEventView::CollectorGone,
            RunEvent::Woke => RunEventView::Woke,
        }
    }
}

/// Why a run cannot go on.
#[derive(Clone, Copy, PartialEq, Eq, Structural, Debug)]
pub enum RunError {
    VuFailed,
    CollectorGone,
}

impl RunError {
    /// The message of the error.
    pub fn message(&self) -> (r: &'static str)
        ensures
            r@ == match self {
                RunError::VuFailed => "vu failed"@,
                RunError::CollectorGone => "channel closed"@,
            },
    {
        match self {
            RunError::VuFailed => "vu failed",
            RunError::CollectorGone => "channel closed",
        }
    }
}

/// How a run ends, by how its virtual users, its schedule and its collector of metrics have ended.
/// The errors of the virtual users tell the most, as they hold those of the script; those of the
/// collector count where there are no others.
pub fn run_result<E>(
    pool: Result<(), E>,
    schedule: Result<(), E>,
    metrics: Result<(), E>,
) -> (r: Result<(), E>)
    ensures
        r == match (pool, schedule) {
            (Err(e), _) => Err(e),
            (Ok(_), Err(e)) => Err(e),
            (Ok(_), Ok(_)) => metrics,
        },
{
    match (pool, schedule) {
        (Err(e), _) => Err(e),
        (Ok(_), Err(e)) => Err(e),
        (Ok(_), Ok(_)) => metrics,
    }
}

/// What is reported of an iteration.
pub struct IterationReport {
    pub num: usize,
    pub skipped: bool,
    /// The points to send, in this order.
    pub points: (DataPoint, DataPoint),
}

/// What is to be done next.
pub enum RunAction {
    /// Tell the time.
    LookAtClock,
    /// Hand the iteration with this number to this virtual user.
    Try { user: usize, num: usize },
    Report(IterationReport),
    SleepUntil(LuaDt),
    Finish,
    Fail(RunError),
}

/// What is to be done next, in terms of plain values.
pub enum RunActionView {
    LookAtClock,
    Try { user: nat, num: nat },
    Report { num: nat, skipped: bool, points: (metric::DataPointView, metric::DataPointView) },
    SleepUntil(nat),
    Finish,
    Fail(RunError),
}

impl View for RunAction {
    type V = RunActionView;

    open spec fn view(&self) -> RunActionView {
        match self {
            RunAction::LookAtClock => RunActionView::LookAtClock,
            RunAction::Try { user, num } => RunActionView::Try {
                user: *user as nat,
                num: *num as nat,
            },
            RunAction::Report(report) => RunActionView::Report {
                num: report.num as nat,
                skipped: report.skipped,
                points: (report.points.0@, report.points.1@),
            },
            RunAction::SleepUntil(t) => RunActionView::SleepUntil(t@),
            RunAction::Finish => RunActionView::Finish,
            RunAction::Fail(e) => RunActionView::Fail(*e),
        }
    }
}

/// The time since the start; zero before it.
pub open spec fn since_start(start: nat, now: nat) -> nat {
    if now >= start {
        (now - start) as nat
    } else {
        0
    }
}

/// The metric that tells what became of an iteration.
pub open spec fn outcome_metric(result: DispatchOk) -> Seq<char> {
    match result {
        DispatchOk::Started => "wrk3.completed_iterations.d"@,
        DispatchOk::Skip => "wrk3.skipped_iterations.d"@,
    }
}

/// A run of a workload, in terms of plain values.
pub struct RunView {
    pub start: nat,
    pub schedule: schedule::ScheduleView,
    pub dispatcher: dispatch::RetryView,
    /// How many virtual users there are.
    pub users: nat,
    /// The number of the next iteration.
    pub iteration: nat,
    /// How many events are due and not yet dispatched.
    pub pending: nat,
    /// When to look for events again.
    pub wake_at: nat,
    /// The time since the start at which the iteration is dispatched.
    pub time: nat,
    pub state: RunState,
}

impl RunView {
    /// What holds of a run at all times.
    pub open spec fn wf(self) -> bool {
        &&& self.schedule.wf()
        &&& self.users > 0 ==> self.dispatcher.next < self.users
        &&& self.state == RunState::Trying ==> self.dispatcher.attempts < self.dispatcher.max_iters
            && self.iteration < usize::MAX
        &&& self.state == RunState::Timing || self.state == RunState::Trying ==> self.pending > 0
        &&& self.state == RunState::Polling || self.state == RunState::Sleeping || self.state
            == RunState::Finished ==> self.pending == 0
    }

    /// Whether the events at a point in time can be told, and the time of the next one.
    pub open spec fn pollable(self, now: nat) -> bool {
        self.schedule.stages.len() > 0 ==> {
            &&& self.schedule.stages[0].emitted < usize::MAX
            &&& self.schedule.next_event() < binary64::time_limit()
            &&& schedule::advances(self.schedule.stages, now)
            &&& schedule::released(self.schedule.stages, now) <= usize::MAX
        }
    }

    /// Whether an event can happen now, within the limits of the machine.
    pub open spec fn fits(self, event: RunEventView) -> bool {
        match (self.state, event) {
            (RunState::Polling, RunEventView::Now(now)) => self.pollable(now),
            (RunState::Timing, RunEventView::Now(_)) => self.iteration < usize::MAX,
            (RunState::Trying, RunEventView::Tried(_)) => self.users > 0,
            (RunState::Reporting, RunEventView::Reported) => true,
            (RunState::Reporting, RunEventView::CollectorGone) => true,
            (RunState::Sleeping, RunEventView::Woke) => true,
            _ => false,
        }
    }

    /// The next iteration, or sleep where no events are left to dispatch.
    pub open spec fn proceed(self) -> (RunView, RunActionView) {
        if self.pending > 0 {
            (RunView { state: RunState::Timing, ..self }, RunActionView::LookAtClock)
        } else {
            (
                RunView { state: RunState::Sleeping, ..self },
                RunActionView::SleepUntil(self.wake_at),
            )
        }
    }

    /// The report of an iteration. Iterations are numbered in the order in which they are
    /// dispatched.
    pub open spec fn dispatched(self, result: DispatchOk) -> (RunView, RunActionView) {
        (
            RunView {
                iteration: self.iteration + 1,
                pending: (self.pending - 1) as nat,
                state: RunState::Reporting,
                ..self
            },
            RunActionView::Report {
                num: self.iteration,
                skipped: result == DispatchOk::Skip,
                points: (
                    metric::counted(self.time, "wrk3.iterations.d"@),
                    metric::counted(self.time, outcome_metric(result)),
                ),
            },
        )
    }

    /// What follows a step of the dispatcher.
    pub open spec fn follow(self, step: DispatchStep) -> (RunView, RunActionView) {
        match step {
            DispatchStep::Try(user) => (
                RunView { state: RunState::Trying, ..self },
                RunActionView::Try { user: user as nat, num: self.iteration },
            ),
            DispatchStep::Finished(Ok(result)) => self.dispatched(result),
            DispatchStep::Finished(Err(_)) => (
                RunView { state: RunState::Failed, ..self },
                RunActionView::Fail(RunError::VuFailed),
            ),
        }
    }

    /// The events that are due at a point in time, until no stages are left. The time to look
    /// again is that of the event which came next before those now due.
    pub open spec fn poll(self, now: nat) -> (RunView, RunActionView) {
        if self.schedule.stages.len() == 0 {
            (RunView { state: RunState::Finished, ..self }, RunActionView::Finish)
        } else {
            RunView {
                schedule: self.schedule.after(now),
                pending: schedule::released(self.schedule.stages, now) as nat,
                wake_at: self.schedule.next_event(),
                ..self
            }.proceed()
        }
    }

    /// The run and what is to be done after an event.
    pub open spec fn next(self, event: RunEventView) -> (RunView, RunActionView) {
        match event {
            RunEventView::Now(now) => if self.state == RunState::Polling {
                self.poll(now)
            } else {
                RunView {
                    time: since_start(self.start, now),
                    dispatcher: self.dispatcher.begun(),
                    ..self
                }.follow(self.dispatcher.begun().step())
            },
            RunEventView::Tried(handover) => {
                let (dispatcher, step) = self.dispatcher.told(
                    self.users,
                    dispatch::started(handover),
                );
                RunView { dispatcher, ..self }.follow(step)
            },
            RunEventView::Reported => self.proceed(),
            RunEventView::CollectorGone => (
                RunView { state: RunState::Failed, ..self },
                RunActionView::Fail(RunError::CollectorGone),
            ),
            RunEventView::Woke => (
                RunView { state: RunState::Polling, ..self },
                RunActionView::LookAtClock,
            ),
        }
    }
}

/// A run of a workload.
pub struct WorkloadRun {
    start_time: LuaDt,
    schedule: SteppedRateSchedule,
    dispatcher: RetryDispatcher,
    users: usize,
    iteration: usize,
    pending: usize,
    wake_at: LuaDt,
    time: LuaDt,
    state: RunState,
}

impl View for WorkloadRun {
    type V = RunView;

    closed spec fn view(&self) -> RunView {
        RunView {
            start: self.start_time@,
            schedule: self.schedule@,
            dispatcher: self.dispatcher@,
            users: self.users as nat,
            iteration: self.iteration as nat,
            pending: self.pending as nat,
            wake_at: self.wake_at@,
            time: self.time@,
            state: self.state,
        }
    }
}

impl WorkloadRun {
    /// A run by a schedule that starts at `start_time`, with a number of virtual users. The
    /// first action is to look at the clock.
    pub fn new(
        start_time: LuaDt,
        schedule: SteppedRateSchedule,
        dispatcher: RetryDispatcher,
        users: usize,
    ) -> (r: (WorkloadRun, RunAction))
        requires
            schedule@.wf(),
            users > 0 ==> dispatcher@.next < users,
        ensures
            r.0@ == (RunView {
                start: start_time@,
                schedule: schedule@,
                dispatcher: dispatcher@,
                users: users as nat,
                iteration: 0,
                pending: 0,
                wake_at: start_time@,
                time: 0,
                state: RunState::Polling,
            }),
            r.0@.wf(),
            r.1@ == RunActionView::LookAtClock,
    {
        (
            WorkloadRun {
                start_time,
                schedule,
                dispatcher,
                users,
                iteration: 0,
                pending: 0,
                wake_at: start_time,
                time: LuaDt::zero(),
                state: RunState::Polling,
            },
            RunAction::LookAtClock,
        )
    }

    /// The progress of the schedule in whole percent.
    pub fn position(&self) -> (r: u64)
        ensures
            r == self@.schedule.percent(),
    {
        self.schedule.position()
    }

    /// How many events are due and not yet dispatched.
    pub fn pending(&self) -> (r: usize)
        ensures
            r == self@.pending,
    {
        self.pending
    }

    /// Tells whether an event can happen now.
    pub fn accepts(&self, event: RunEvent) -> (r: bool)
        requires
            self@.wf(),
        ensures
            r == self@.fits(event@),
    {
        match (self.state, event) {
            (RunState::Polling, RunEvent::Now(now)) => self.schedule.check_next_event()
                && self.schedule.check_advance(now),
            (RunState::Timing, RunEvent::Now(_)) => self.iteration < usize::MAX,
            (RunState::Trying, RunEvent::Tried(_)) => self.users > 0,
            (RunState::Reporting, RunEvent::Reported) => true,
            (RunState::Reporting, RunEvent::CollectorGone) => true,
            (RunState::Sleeping, RunEvent::Woke) => true,
            _ => false,
        }
    }

    /// Goes on with the next iteration, or to sleep.
    fn proceed(&mut self) -> (r: RunAction)
        ensures
            (final(self)@, r@) == old(self)@.proceed(),
    {
        if self.pending > 0 {
            self.state = RunState::Timing;
            RunAction::LookAtClock
        } else {
            self.state = RunState::Sleeping;
            RunAction::SleepUntil(self.wake_at)
        }
    }

    /// Reports an iteration.
    fn report(&mut self, result: DispatchOk) -> (r: RunAction)
        requires
            old(self)@.pending > 0,
            old(self)@.iteration < usize::MAX,
        ensures
            (final(self)@, r@) == old(self)@.dispatched(result),
    {
        let num = self.iteration;
        let counted = DataPoint::count(self.time, "wrk3.iterations.d");
        let (skipped, outcome) = match result {
            DispatchOk::Skip => (true, DataPoint::count(self.time, "wrk3.skipped_iterations.d")),
            DispatchOk::Started => (
                false,
                DataPoint::count(self.time, "wrk3.completed_iterations.d"),
            ),
        };
        self.iteration = self.iteration + 1;
        self.pending = self.pending - 1;
        self.state = RunState::Reporting;
        RunAction::Report(IterationReport { num, skipped, points: (counted, outcome) })
    }

    /// Follows a step of the dispatcher.
    fn follow(&mut self, step: DispatchStep) -> (r: RunAction)
        requires
            old(self)@.pending > 0,
            old(self)@.iteration < usize::MAX,
        ensures
            (final(self)@, r@) == old(self)@.follow(step),
    {
        match step {
            DispatchStep::Try(user) => {
                self.state = RunState::Trying;
                RunAction::Try { user, num: self.iteration }
            },
            DispatchStep::Finished(Ok(result)) => self.report(result),
            DispatchStep::Finished(Err(_)) => {
                self.state = RunState::Failed;
                RunAction::Fail(RunError::VuFailed)
            },
        }
    }

    /// Takes in what has happened, and tells what is to be done next.
    pub fn step(&mut self, event: RunEvent) -> (r: RunAction)
        requires
            old(self)@.wf(),
            old(self)@.fits(event@),
        ensures
            (final(self)@, r@) == old(self)@.next(event@),
            final(self)@.wf(),
    {
        match event {
            RunEvent::Now(now) => {
                if let RunState::Polling = self.state {
                    match self.schedule.next_event_time() {
                        None => {
                            self.state = RunState::Finished;
                            RunAction::Finish
                        },
                        Some(wake_at) => {
                            self.pending = self.schedule.advance(now);
                            self.wake_at = wake_at;
                            self.proceed()
                        },
                    }
                } else {
                    self.time = now.since(&self.start_time);
                    let step = self.dispatcher.begin();
                    self.follow(step)
                }
            },
            RunEvent::Tried(handover) => {
                let step = self.dispatcher.dispatch_iteration(
                    self.users,
                    start_iteration(handover),
                );
                self.follow(step)
            },
            RunEvent::Reported => self.proceed(),
            RunEvent::CollectorGone => {
                self.state = RunState::Failed;
                RunAction::Fail(RunError::CollectorGone)
            },
            RunEvent::Woke => {
                self.state = RunState::Polling;
                RunAction::LookAtClock
            },
        }
    }
}

/// The run after some events.
pub open spec fn after_all(v: RunView, events: Seq<RunEventView>) -> RunView
    decreases events.len(),
{
    if events.len() == 0 {
        v
    } else {
        after_all(v, events.drop_last()).next(events.last()).0
    }
}

/// Whether events can happen one after the other, by a clock that does not go back.
pub open spec fn possible(v: RunView, events: Seq<RunEventView>) -> bool
    decreases events.len(),
{
    events.len() > 0 ==> {
        let before = after_all(v, events.drop_last());
        &&& possible(v, events.drop_last())
        &&& before.fits(events.last())
        &&& before.state == RunState::Polling ==> (events.last() matches RunEventView::Now(now)
            ==> now >= before.schedule.current)
    }
}

/// Whether a run has not begun.
pub open spec fn fresh(v: RunView) -> bool {
    &&& v.wf()
    &&& v.state == RunState::Polling
    &&& v.iteration == 0
    &&& v.schedule.stages.len() > 0 ==> v.schedule.current <= v.schedule.stages[0].start
}

/// When the schedule was last advanced.
pub open spec fn last_poll(v: RunView, events: Seq<RunEventView>) -> Option<nat>
    decreases events.len(),
{
    if events.len() == 0 {
        None
    } else {
        let before = after_all(v, events.drop_last());
        match events.last() {
            RunEventView::Now(now) => if before.state == RunState::Polling
                && before.schedule.stages.len() > 0 {
                Some(now)
            } else {
                last_poll(v, events.drop_last())
            },
            _ => last_poll(v, events.drop_last()),
        }
    }
}

/// An event leaves a run in order.
proof fn lemma_next_wf(v: RunView, event: RunEventView)
    requires
        v.wf(),
        v.fits(event),
        v.state == RunState::Polling ==> (event matches RunEventView::Now(now) ==> now
            >= v.schedule.current),
    ensures
        v.next(event).0.wf(),
{
    match event {
        RunEventView::Now(now) => {
            if v.state == RunState::Polling && v.schedule.stages.len() > 0 {
                schedule::lemma_after_wf(v.schedule, now);
                schedule::law_releases_what_is_owed(v.schedule, now);
            }
        },
        RunEventView::Tried(_) => {
            vstd::arithmetic::div_mod::lemma_mod_bound(
                (v.dispatcher.next + 1) as int,
                v.users as int,
            );
        },
        _ => {},
    }
}

/// What has been dispatched and what is pending, together, is what the schedule has released.
proof fn lemma_released_so_far(v: RunView, events: Seq<RunEventView>)
    requires
        fresh(v),
        possible(v, events),
    ensures
        after_all(v, events).wf(),
        match last_poll(v, events) {
            None => after_all(v, events).schedule == v.schedule && after_all(v, events).iteration
                == 0 && after_all(v, events).pending == 0,
            Some(t) => {
                &&& v.schedule.current <= t
                &&& after_all(v, events).schedule == v.schedule.after(t)
                &&& after_all(v, events).iteration + after_all(v, events).pending
                    == schedule::released(v.schedule.stages, t)
            },
        },
        after_all(v, events).state == RunState::Finished ==> after_all(
            v,
            events,
        ).schedule.stages.len() == 0,
    decreases events.len(),
{
    if events.len() > 0 {
        let earlier = events.drop_last();
        lemma_released_so_far(v, earlier);
        let before = after_all(v, earlier);
        lemma_next_wf(before, events.last());
        if before.state == RunState::Polling && before.schedule.stages.len() > 0 {
            if let RunEventView::Now(now) = events.last() {
                schedule::law_releases_what_is_owed(before.schedule, now);
                match last_poll(v, earlier) {
                    Some(t) => {
                        schedule::law_steps_add_up(v.schedule, t, now);
                    },
                    None => {},
                }
            }
        }
    }
}

/// A run that comes to its end has dispatched as many iterations as the workload has events,
/// however often and however late the clock was looked at. Until then, what is dispatched and
/// what is pending make up what the schedule has released.
pub proof fn law_run_dispatches_the_workload(v: RunView, events: Seq<RunEventView>)
    requires
        fresh(v),
        possible(v, events),
    ensures
        last_poll(v, events) matches Some(t) ==> after_all(v, events).iteration + after_all(
            v,
            events,
        ).pending == schedule::released(v.schedule.stages, t),
        after_all(v, events).state == RunState::Finished ==> after_all(v, events).iteration
            == schedule::workload_events(v.schedule.stages),
{
    lemma_released_so_far(v, events);
    if after_all(v, events).state == RunState::Finished {
        match last_poll(v, events) {
            Some(t) => {
                schedule::law_finished_at_the_end(v.schedule, t);
                schedule::law_whole_workload(v.schedule, t);
            },
            None => {},
        }
    }
}

/// The points that are sent after some events.
pub open spec fn sent_points(v: RunView, events: Seq<RunEventView>) -> Seq<metric::DataPointView>
    decreases events.len(),
{
    if events.len() == 0 {
        Seq::empty()
    } else {
        let earlier = sent_points(v, events.drop_last());
        match after_all(v, events.drop_last()).next(events.last()).1 {
            RunActionView::Report { points, .. } => earlier.push(points.0).push(points.1),
            _ => earlier,
        }
    }
}

/// How many of the points are of a metric.
pub open spec fn points_of(points: Seq<metric::DataPointView>, name: Seq<char>) -> nat
    decreases points.len(),
{
    if points.len() == 0 {
        0
    } else {
        points_of(points.drop_last(), name) + if points.last().metric == name {
            1nat
        } else {
            0
        }
    }
}

/// Every iteration is counted once, and once more as either skipped or completed.
pub proof fn law_every_iteration_is_accounted_for(v: RunView, events: Seq<RunEventView>)
    requires
        v.iteration == 0,
    ensures
        points_of(sent_points(v, events), "wrk3.iterations.d"@) == after_all(v, events).iteration,
        points_of(sent_points(v, events), "wrk3.skipped_iterations.d"@) + points_of(
            sent_points(v, events),
            "wrk3.completed_iterations.d"@,
        ) == after_all(v, events).iteration,
    decreases events.len(),
{
    if events.len() > 0 {
        let earlier = events.drop_last();
        law_every_iteration_is_accounted_for(v, earlier);
        let before = after_all(v, earlier);
        if let RunActionView::Report { points, .. } = before.next(events.last()).1 {
            reveal_with_fuel(points_of, 3);
            reveal_strlit("wrk3.iterations.d");
            reveal_strlit("wrk3.skipped_iterations.d");
            reveal_strlit("wrk3.completed_iterations.d");
            assert("wrk3.iterations.d"@[5] != "wrk3.skipped_iterations.d"@[5]);
            assert("wrk3.iterations.d"@[5] != "wrk3.completed_iterations.d"@[5]);
            assert("wrk3.skipped_iterations.d"@[5] != "wrk3.completed_iterations.d"@[5]);
            let first = sent_points(v, earlier).push(points.0);
            assert(first.push(points.1).drop_last() =~= first);
            assert(first.drop_last() =~= sent_points(v, earlier));
        }
    }
}

/// Whether a point counts one of something at a time, and nothing else.
pub open spec fn counts_one(point: metric::DataPointView, name: Seq<char>, time: nat) -> bool {
    &&& point.metric == name
    &&& point.timestamp == time
    &&& point.values.dom() =~= set!["value"@]
    &&& point.values["value"@] == metric::MetricView::Int(1)
}

/// Whether an action reports the iteration with a number, which was dispatched at a time: it counts
/// one iteration, and one that was skipped or one that was completed.
pub open spec fn reports(action: RunActionView, num: nat, time: nat, skipped: bool) -> bool {
    action matches RunActionView::Report { num: n, skipped: s, points } && {
        &&& n == num
        &&& s == skipped
        &&& counts_one(points.0, "wrk3.iterations.d"@, time)
        &&& skipped ==> counts_one(points.1, "wrk3.skipped_iterations.d"@, time)
        &&& !skipped ==> counts_one(points.1, "wrk3.completed_iterations.d"@, time)
    }
}

/// What is not about the events that are due stays as it is.
pub open spec fn same_workload(a: RunView, b: RunView) -> bool {
    a.start == b.start && a.users == b.users && a.schedule == b.schedule && a.wake_at == b.wake_at
}

/// An iteration that a virtual user takes is reported as completed, and one whose virtual user is
/// gone ends the run. Where the virtual user is occupied, the next one in turn is tried with the
/// same iteration until the attempts are used up, and then the iteration is reported as skipped.
/// Each report is for the time at which the iteration was dispatched, and with it one event less
/// is pending and the next iteration has the next number.
pub proof fn law_what_an_attempt_leads_to(run: &mut WorkloadRun, handover: Handover, action: RunAction)
    requires
        old(run)@.wf(),
        old(run)@.state == RunState::Trying,
        old(run)@.users > 0,
        old(run)@.users <= usize::MAX,
        call_ensures(WorkloadRun::step, (run, RunEvent::Tried(handover)), action),
    ensures
        same_workload(old(run)@, final(run)@),
        ({
            let (before, after) = (old(run)@, final(run)@);
            let last = before.dispatcher.attempts + 1 >= before.dispatcher.max_iters;
            let done = after.iteration == before.iteration + 1 && after.pending == before.pending - 1;
            match handover {
                Handover::Sent => reports(action@, before.iteration, before.time, false) && done,
                Handover::Closed => action@ == RunActionView::Fail(RunError::VuFailed),
                Handover::Full => if last {
                    reports(action@, before.iteration, before.time, true) && done
                } else {
                    &&& action@ matches RunActionView::Try { user, num }
                    &&& num == before.iteration
                    &&& user == if before.dispatcher.next + 1 == before.users {
                        0
                    } else {
                        before.dispatcher.next + 1
                    }
                    &&& after.iteration == before.iteration && after.pending == before.pending
                        && after.time == before.time
                },
            }
        }),
{
    let v = old(run)@;
    if v.dispatcher.next + 1 == v.users {
        vstd::arithmetic::div_mod::lemma_mod_self_0(v.users as int);
    } else {
        vstd::arithmetic::div_mod::lemma_small_mod(v.dispatcher.next + 1, v.users);
    }
}

/// An iteration is dispatched at the time of the clock, counted from the start, and first to the
/// virtual user whose turn it is; without attempts it is skipped at once.
pub proof fn law_an_iteration_is_dispatched_now(run: &mut WorkloadRun, now: LuaDt, action: RunAction)
    requires
        old(run)@.wf(),
        old(run)@.state == RunState::Timing,
        old(run)@.dispatcher.next <= usize::MAX,
        call_ensures(WorkloadRun::step, (run, RunEvent::Now(now)), action),
    ensures
        same_workload(old(run)@, final(run)@),
        old(run)@.start <= now@ ==> final(run)@.start + final(run)@.time == now@,
        old(run)@.start > now@ ==> final(run)@.time == 0,
        old(run)@.dispatcher.max_iters > 0 ==> action@ == (RunActionView::Try {
            user: old(run)@.dispatcher.next,
            num: old(run)@.iteration,
        }) && final(run)@.iteration == old(run)@.iteration && final(run)@.pending
            == old(run)@.pending,
        old(run)@.dispatcher.max_iters == 0 ==> reports(
            action@,
            old(run)@.iteration,
            final(run)@.time,
            true,
        ) && final(run)@.iteration == old(run)@.iteration + 1 && final(run)@.pending
            == old(run)@.pending - 1,
{
}

/// To look for events releases all that are due by the clock. They are dispatched one after the
/// other, and only then the run sleeps, until the time of the event that was next before. The run
/// ends where no stage is left.
pub proof fn law_looking_for_events(run: &mut WorkloadRun, now: LuaDt, action: RunAction)
    requires
        old(run)@.wf(),
        old(run)@.state == RunState::Polling,
        old(run)@.schedule.current <= now@,
        call_ensures(WorkloadRun::step, (run, RunEvent::Now(now)), action),
    ensures
        old(run)@.schedule.stages.len() == 0 ==> action@ is Finish,
        old(run)@.schedule.stages.len() > 0 ==> {
            let owed = schedule::owed(old(run)@.schedule.stages, now@);
            let first = old(run)@.schedule.stages[0];
            &&& final(run)@.schedule.current == now@
            &&& final(run)@.pending == owed
            &&& final(run)@.iteration == old(run)@.iteration
            &&& final(run)@.wake_at == first.start + (first.emitted + 1) % 0x1_0000_0000
                * first.delay
            &&& owed > 0 ==> action@ is LookAtClock
            &&& owed == 0 ==> action@ == RunActionView::SleepUntil(final(run)@.wake_at)
        },
{
    let v = old(run)@;
    if v.schedule.stages.len() > 0 {
        schedule::law_releases_what_is_owed(v.schedule, now@);
    }
}

/// After a report the next event that is pending is dispatched, and where none is, the run sleeps
/// until it looks for events again. Without the collector of the metrics it cannot go on.
pub proof fn law_after_a_report(run: &mut WorkloadRun, event: RunEvent, action: RunAction)
    requires
        old(run)@.wf(),
        old(run)@.fits(event@),
        call_ensures(WorkloadRun::step, (run, event), action),
    ensures
        event is Reported ==> {
            &&& same_workload(old(run)@, final(run)@)
            &&& final(run)@.iteration == old(run)@.iteration
            &&& final(run)@.pending == old(run)@.pending
            &&& old(run)@.pending > 0 ==> action@ is LookAtClock && final(run)@.state
                == RunState::Timing
            &&& old(run)@.pending == 0 ==> action@ == RunActionView::SleepUntil(old(run)@.wake_at)
                && final(run)@.state == RunState::Sleeping
        },
        event is Woke ==> {
            &&& same_workload(old(run)@, final(run)@)
            &&& action@ is LookAtClock
            &&& final(run)@.state == RunState::Polling
        },
        event is CollectorGone ==> action@ == RunActionView::Fail(RunError::CollectorGone),
{
}

/// A run that begins has dispatched nothing and has nothing pending, and first looks for events.
pub proof fn law_a_run_begins(
    start_time: LuaDt,
    schedule: SteppedRateSchedule,
    dispatcher: RetryDispatcher,
    users: usize,
    r: (WorkloadRun, RunAction),
)
    requires
        call_ensures(WorkloadRun::new, (start_time, schedule, dispatcher, users), r),
    ensures
        r.0@.start == start_time@,
        r.0@.schedule == schedule@,
        r.0@.dispatcher == dispatcher@,
        r.0@.users == users,
        r.0@.iteration == 0,
        r.0@.pending == 0,
        r.0@.state == RunState::Polling,
        r.1@ is LookAtClock,
{
}

/// A run fails where any of its parts fails, with the error of the virtual users before that of the
/// schedule, and that before the one of the collector.
pub proof fn law_first_error_ends_a_run<E>(
    pool: Result<(), E>,
    schedule: Result<(), E>,
    metrics: Result<(), E>,
    r: Result<(), E>,
)
    requires
        call_ensures(run_result, (pool, schedule, metrics), r),
    ensures
        r is Ok == (pool is Ok && schedule is Ok && metrics is Ok),
        pool is Err ==> r == pool,
        pool is Ok && schedule is Err ==> r == schedule,
        pool is Ok && schedule is Ok ==> r == metrics,
{
}

/// A run accepts what its last action brings about: the time when it looks at the clock, unless the
/// limits of the machine are reached, what became of an attempt, and that it was woken, that a
/// report was sent or that the collector is gone.
pub proof fn law_what_a_run_accepts(run: WorkloadRun, event: RunEvent, r: bool)
    requires
        run@.wf(),
        call_ensures(WorkloadRun::accepts, (&run, event), r),
    ensures
        match (run@.state, event) {
            (RunState::Reporting, RunEvent::Reported) => r,
            (RunState::Reporting, RunEvent::CollectorGone) => r,
            (RunState::Sleeping, RunEvent::Woke) => r,
            (RunState::Trying, RunEvent::Tried(_)) => r == (run@.users > 0),
            (RunState::Timing, RunEvent::Now(_)) => r == (run@.iteration < usize::MAX),
            (RunState::Polling, RunEvent::Now(now)) => {
                &&& run@.schedule.stages.len() == 0 ==> r
                &&& run@.schedule.stages.len() > 0 && run@.schedule.stages[0].emitted < usize::MAX
                    && run@.schedule.next_event() < binary64::time_limit() && run@.schedule.current
                    <= now@ && schedule::owed(run@.schedule.stages, now@) <= usize::MAX ==> r
            },
            _ => !r,
        },
{
    if let RunEvent::Now(now) = event {
        if run@.state == RunState::Polling && run@.schedule.current <= now@ {
            schedule::lemma_advances(run@.schedule, now@);
            schedule::law_releases_what_is_owed(run@.schedule, now@);
        }
    }
}

/// What is shown of the progress of a run is that of its schedule, and what is pending can be asked
/// for.
pub proof fn law_progress_of_a_run(run: WorkloadRun, pending: usize, percent: u64)
    requires
        call_ensures(WorkloadRun::pending, (&run,), pending),
        call_ensures(WorkloadRun::position, (&run,), percent),
    ensures
        pending == run@.pending,
        percent == run@.schedule.percent(),
{
}

} // verus!
