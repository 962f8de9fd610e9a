//! A virtual user: it runs the main function of a script, once for each iteration.
use crate::dt::LuaDt;
use crate::http_request::Request;
use crate::metric;
use crate::metric::DataPoint;
use crate::reactor::RuntimeMsg;
use vstd::prelude::*;
use vstd::string::*;

verus! {

/// What the main function of a script is told.
#[derive(Clone, Copy, PartialEq, Eq, Structural, Debug)]
pub struct MainCtx {
    pub iteration: usize,
}

impl MainCtx {
    /// The seed of the script's random numbers: each iteration has its own.
    pub fn seed(&self) -> (r: u64)
        ensures
            r == self.iteration,
    {
        self.iteration as u64
    }
}

/// Points in time around the run of a main function.
pub struct Run {
    pub before: nat,
    pub after: nat,
}

/// How long a virtual user was inactive before a run, having been active until `last`.
pub open spec fn inactive(last: nat, run: Run) -> nat {
    if run.before >= last {
        (run.before - last) as nat
    } else {
        0
    }
}

/// How long a virtual user was active in a run.
pub open spec fn active(run: Run) -> nat {
    if run.after >= run.before {
        (run.after - run.before) as nat
    } else {
        0
    }
}

/// The time of a run since a start; zero before the start.
pub open spec fn run_time(run: Run, start: nat) -> nat {
    if run.before >= start {
        (run.before - start) as nat
    } else {
        0
    }
}

/// Keeps the times at which a virtual user is active.
pub struct VuTimer {
    last_active: LuaDt,
}

impl View for VuTimer {
    type V = nat;

    closed spec fn view(&self) -> nat {
        self.last_active@
    }
}

impl VuTimer {
    /// A virtual user that is inactive from now on.
    pub fn new(now: LuaDt) -> (r: VuTimer)
        ensures
            r@ == now@,
    {
        VuTimer { last_active: now }
    }

    /// Takes in a run of the main function, and gives the points that report how long the
    /// virtual user was active in it and inactive before it. Both bear the time at which the
    /// run began.
    pub fn finish_run(&mut self, before_run: LuaDt, after_run: LuaDt, start_time: LuaDt) -> (r: (
        DataPoint,
        DataPoint,
    ))
        ensures
            final(self)@ == after_run@,
            ({
                let run = Run { before: before_run@, after: after_run@ };
                let time = run_time(run, start_time@);
                &&& r.0@ == metric::timed(time, "wrk3.vu_active"@, active(run))
                &&& r.1@ == metric::timed(time, "wrk3.vu_inactive"@, inactive(old(self)@, run))
            }),
    {
        let inactive_time = before_run.since(&self.last_active);
        self.last_active = after_run;
        let active_time = after_run.since(&before_run);
        let time = before_run.since(&start_time);
        (
            DataPoint::time(time, "wrk3.vu_active", active_time),
            DataPoint::time(time, "wrk3.vu_inactive", inactive_time),
        )
    }
}

/// Whether runs follow each other in time, the first after `last`.
pub open spec fn in_order(last: nat, runs: Seq<Run>) -> bool
    decreases runs.len(),
{
    runs.len() == 0 || {
        let earlier = runs.drop_last();
        &&& in_order(last, earlier)
        &&& last_after(last, earlier) <= runs.last().before <= runs.last().after
    }
}

/// The time until which a virtual user was active after some runs.
pub open spec fn last_after(last: nat, runs: Seq<Run>) -> nat {
    if runs.len() == 0 {
        last
    } else {
        runs.last().after
    }
}

/// The times that are reported for some runs, added up.
pub open spec fn reported(last: nat, runs: Seq<Run>) -> nat
    decreases runs.len(),
{
    if runs.len() == 0 {
        0
    } else {
        let earlier = runs.drop_last();
        reported(last, earlier) + active(runs.last()) + inactive(
            last_after(last, earlier),
            runs.last(),
        )
    }
}

/// Active and inactive times leave no gaps and do not overlap: added up, they are the whole
/// time from the start of a virtual user to the end of its last run.
pub proof fn law_times_add_up(last: nat, runs: Seq<Run>)
    requires
        in_order(last, runs),
    ensures
        last <= last_after(last, runs),
        reported(last, runs) == last_after(last, runs) - last,
    decreases runs.len(),
{
    if runs.len() > 0 {
        law_times_add_up(last, runs.drop_last());
    }
}

/// How the wait for the first message of a main function ended.
pub enum FirstEffect {
    /// The main function came to its end.
    Completed,
    /// A message came.
    Message(RuntimeMsg),
    /// No message can come any more.
    Closed,
}

/// Why there is no request to send.
#[derive(Clone, Copy, PartialEq, Eq, Structural, Debug)]
pub enum EffectError {
    NoEffect,
    NotRequest,
}

impl EffectError {
    /// The message of the error.
    pub fn message(&self) -> (r: &'static str)
        ensures
            r@ == match self {
                EffectError::NoEffect => "main completed before causing any effects"@,
                EffectError::NotRequest => "the first effect must be a request"@,
            },
    {
        match self {
            EffectError::NoEffect => "main completed before causing any effects",
            EffectError::NotRequest => "the first effect must be a request",
        }
    }
}

/// The first message of a main function, where one came before its end.
pub fn get_first_msg(effect: FirstEffect) -> (r: Result<RuntimeMsg, EffectError>)
    ensures
        r == match effect {
            FirstEffect::Message(msg) => Ok::<RuntimeMsg, EffectError>(msg),
            _ => Err(EffectError::NoEffect),
        },
{
    match effect {
        FirstEffect::Message(msg) => Ok(msg),
        FirstEffect::Completed => Err(EffectError::NoEffect),
        FirstEffect::Closed => Err(EffectError::NoEffect),
    }
}

/// The request that a main function makes first.
pub fn first_request(effect: FirstEffect) -> (r: Result<Request, EffectError>)
    ensures
        r == match effect {
            FirstEffect::Message(RuntimeMsg::Request { request }) => Ok::<Request, EffectError>(
                request,
            ),
            FirstEffect::Message(_) => Err(EffectError::NotRequest),
            _ => Err(EffectError::NoEffect),
        },
{
    match get_first_msg(effect) {
        Ok(RuntimeMsg::Request { request }) => Ok(request),
        Ok(_) => Err(EffectError::NotRequest),
        Err(e) => Err(e),
    }
}

/// A run is reported at the time at which it began, counted from the start, with its own length as
/// the active time, and with the time since the run before as the inactive time; and from its end
/// on the virtual user is inactive again. A time that would be negative is none. Each report holds
/// this one length and no other value.
pub proof fn law_runs_are_reported_as_they_were(
    timer: &mut VuTimer,
    before_run: LuaDt,
    after_run: LuaDt,
    start_time: LuaDt,
    r: (DataPoint, DataPoint),
)
    requires
        call_ensures(VuTimer::finish_run, (timer, before_run, after_run, start_time), r),
    ensures
        final(timer)@ == after_run@,
        r.0.metric@ == "wrk3.vu_active"@,
        r.1.metric@ == "wrk3.vu_inactive"@,
        r.0.timestamp@ == r.1.timestamp@,
        start_time@ <= before_run@ ==> start_time@ + r.0.timestamp@ == before_run@,
        start_time@ > before_run@ ==> r.0.timestamp@ == 0,
        metric::data_map(r.0.values).dom() =~= set!["duration"@],
        metric::data_map(r.1.values).dom() =~= set!["duration"@],
        metric::data_map(r.0.values)["duration"@] matches metric::MetricView::Dt(d) && (before_run@
            <= after_run@ ==> before_run@ + d == after_run@) && (before_run@ > after_run@ ==> d
            == 0),
        metric::data_map(r.1.values)["duration"@] matches metric::MetricView::Dt(d) && (old(timer)@
            <= before_run@ ==> old(timer)@ + d == before_run@) && (old(timer)@ > before_run@ ==> d
            == 0),
{
}

/// Iterations with different numbers have different seeds, and each is told its number.
pub proof fn law_seeds_differ(a: MainCtx, b: MainCtx, seed_a: u64, seed_b: u64)
    requires
        call_ensures(MainCtx::seed, (&a,), seed_a),
        call_ensures(MainCtx::seed, (&b,), seed_b),
    ensures
        seed_a == a.iteration,
        seed_a == seed_b <==> a == b,
{
}

/// A request is sent only where the first thing that a main function does is to make it, and then
/// that very request; a main function that does something else first, or nothing, is told so.
pub proof fn law_only_a_first_request_is_sent(
    effect: FirstEffect,
    r: Result<Request, EffectError>,
)
    requires
        call_ensures(first_request, (effect,), r),
    ensures
        match effect {
            FirstEffect::Message(RuntimeMsg::Request { request }) => r matches Ok(q) && q == request,
            FirstEffect::Message(RuntimeMsg::Sleep { .. }) => r matches Err(EffectError::NotRequest),
            FirstEffect::Completed => r matches Err(EffectError::NoEffect),
            FirstEffect::Closed => r matches Err(EffectError::NoEffect),
        },
{
}

/// The first message of a main function is handed on as it is, and missing only where none came.
pub proof fn law_first_message_is_handed_on(
    effect: FirstEffect,
    r: Result<RuntimeMsg, EffectError>,
)
    requires
        call_ensures(get_first_msg, (effect,), r),
    ensures
        match effect {
            FirstEffect::Message(msg) => r matches Ok(m) && m == msg,
            _ => r matches Err(EffectError::NoEffect),
        },
{
}

} // verus!
