//! When the events of a workload take place.
use crate::accuracy;
use crate::binary64;
use crate::binary64::{event_period, quotient, times_hundred, truncate, INFINITE};
use crate::config;
use crate::dt;
use crate::dt::{Binary64, LuaDt};
use std::collections::VecDeque;
use vstd::prelude::*;

verus! {

/// How many events fall into a length of time when they are `delay` apart: the one in
/// seconds divided by the other in seconds, without its fraction. Events without a delay
/// are as many as can be counted.
pub open spec fn event_count(elapsed: nat, delay: nat) -> nat {
    if delay == 0 {
        usize::MAX as nat
    } else {
        dt::least(
            binary64::whole_part(
                binary64::rounded(
                    binary64::units(dt::seconds_of(elapsed)) * binary64::one(),
                    binary64::units(dt::seconds_of(delay)),
                ),
            ),
            usize::MAX as nat,
        )
    }
}

/// A longer time has at least as many events.
pub proof fn lemma_event_count_monotone(e1: nat, e2: nat, delay: nat)
    requires
        e1 <= e2 < binary64::time_limit(),
        delay < binary64::time_limit(),
    ensures
        event_count(e1, delay) <= event_count(e2, delay),
{
    if delay > 0 {
        let u = binary64::one();
        let a1 = dt::seconds_of(e1);
        let a2 = dt::seconds_of(e2);
        let d = binary64::units(dt::seconds_of(delay));
        dt::lemma_seconds_of_monotone(e1, e2);
        binary64::lemma_units_ordered(a1, a2);
        vstd::arithmetic::mul::lemma_mul_inequality(
            binary64::units(a1) as int,
            binary64::units(a2) as int,
            u as int,
        );
        binary64::lemma_seconds_positive(delay / 1_000_000_000, delay % 1_000_000_000);
        let n1 = binary64::units(a1) * u;
        let n2 = binary64::units(a2) * u;
        binary64::lemma_rounded_monotone(n1, n2, d);
        vstd::arithmetic::power2::lemma_pow2_pos(1074);
        vstd::arithmetic::div_mod::lemma_div_is_ordered(
            binary64::units(binary64::rounded(n1, d)) as int,
            binary64::units(binary64::rounded(n2, d)) as int,
            u as int,
        );
    }
}

/// A stage of the schedule, in terms of plain values. Times are in nanoseconds.
pub struct StageView {
    pub start: nat,
    pub duration: nat,
    pub delay: nat,
    pub emitted: nat,
}

impl StageView {
    /// When the stage ends.
    pub open spec fn end(self) -> nat {
        self.start + self.duration
    }

    /// How many of the stage's events should have taken place.
    pub open spec fn due(self, now: nat) -> nat {
        let until = dt::least(now, self.end());
        if until <= self.start {
            0
        } else {
            event_count((until - self.start) as nat, self.delay)
        }
    }

    /// The stage after the events due have been emitted.
    pub open spec fn caught_up(self, now: nat) -> StageView {
        StageView { emitted: self.due(now), ..self }
    }

    /// The times are in range, and so is the count.
    pub open spec fn in_range(self) -> bool {
        &&& self.end() < binary64::time_limit()
        &&& self.delay < binary64::time_limit()
        &&& self.emitted <= usize::MAX
    }

    /// When the `n`th event takes place, counted in 32 bits.
    pub open spec fn event_time(self, n: nat) -> nat {
        self.start + n % 0x1_0000_0000 * self.delay
    }
}

/// The events due do not become fewer, and after the end of the stage no more.
pub proof fn lemma_due_monotone(s: StageView, t1: nat, t2: nat)
    requires
        s.in_range(),
        t1 <= t2,
    ensures
        s.due(t1) <= s.due(t2),
        t1 >= s.end() ==> s.due(t1) == s.due(t2),
{
    let u1 = dt::least(t1, s.end());
    let u2 = dt::least(t2, s.end());
    if u1 > s.start {
        lemma_event_count_monotone((u1 - s.start) as nat, (u2 - s.start) as nat, s.delay);
    }
}

/// A stage that is under way.
pub struct Stage {
    start_time: LuaDt,
    duration: LuaDt,
    request_delay: LuaDt,
    emitted: usize,
}

impl View for Stage {
    type V = StageView;

    closed spec fn view(&self) -> StageView {
        StageView {
            start: self.start_time@,
            duration: self.duration@,
            delay: self.request_delay@,
            emitted: self.emitted as nat,
        }
    }
}

/// The views of the stages of a list.
pub open spec fn stage_views(s: Seq<Stage>) -> Seq<StageView> {
    s.map_values(|x: Stage| x@)
}

impl Stage {
    /// When the stage ends.
    pub fn end_time(&self) -> (r: LuaDt)
        requires
            self@.in_range(),
        ensures
            r@ == self@.end(),
    {
        match self.start_time.checked_add(&self.duration) {
            Some(t) => t,
            None => self.start_time,
        }
    }

    /// When the `n`th event takes place. Only the low 32 bits of `n` count.
    pub fn nth_event_time(&self, n: usize) -> (r: LuaDt)
        requires
            self@.event_time(n as nat) < binary64::time_limit(),
        ensures
            r@ == self@.event_time(n as nat),
    {
        match self.checked_event_time(n) {
            Some(t) => t,
            None => self.start_time,
        }
    }

    /// When the `n`th event takes place, where that time is in range.
    pub fn checked_event_time(&self, n: usize) -> (r: Option<LuaDt>)
        ensures
            r is Some == (self@.event_time(n as nat) < binary64::time_limit()),
            r matches Some(t) ==> t@ == self@.event_time(n as nat),
    {
        let low: u64 = n as u64 % 0x1_0000_0000;
        proof {
            let delay = self@.delay;
            assert(low as nat * delay == delay * low as nat) by (nonlinear_arith);
        }
        match self.request_delay.checked_mul(low as u32) {
            Some(wait) => self.start_time.checked_add(&wait),
            None => None,
        }
    }

    /// How many of the stage's events should have taken place.
    pub fn events_due(&self, now: LuaDt) -> (r: usize)
        requires
            self@.in_range(),
        ensures
            r == self@.due(now@),
    {
        let end = self.end_time();
        let until = if end.before(&now) {
            end
        } else {
            now
        };
        if !self.start_time.before(&until) {
            return 0;
        }
        let elapsed = until.sub(&self.start_time).secs();
        let delay = self.request_delay.secs();
        if self.request_delay.same(&LuaDt::zero()) {
            return usize::MAX;
        }
        let count: u64 = truncate(quotient(elapsed.bits, delay.bits));
        if count > usize::MAX as u64 {
            usize::MAX
        } else {
            count as usize
        }
    }
}

/// The events that advancing to `now` releases, stage by stage up to the first one that is
/// not over.
pub open spec fn released(stages: Seq<StageView>, now: nat) -> int
    decreases stages.len(),
{
    if stages.len() == 0 {
        0
    } else {
        let first = stages.first();
        first.due(now) - first.emitted + if now < first.end() {
            0
        } else {
            released(stages.drop_first(), now)
        }
    }
}

/// The stages that advancing to `now` leaves: the stages that are over are gone, and the
/// first of the others has caught up.
pub open spec fn advanced(stages: Seq<StageView>, now: nat) -> Seq<StageView>
    decreases stages.len(),
{
    if stages.len() == 0 {
        stages
    } else if now < stages.first().end() {
        stages.update(0, stages.first().caught_up(now))
    } else {
        advanced(stages.drop_first(), now)
    }
}

/// Whether no stage that advancing to `now` reaches has emitted more than is due.
pub open spec fn advances(stages: Seq<StageView>, now: nat) -> bool
    decreases stages.len(),
{
    stages.len() > 0 ==> {
        let first = stages.first();
        &&& first.due(now) >= first.emitted
        &&& now >= first.end() ==> advances(stages.drop_first(), now)
    }
}

/// Whether every stage starts where the one before it ends.
pub open spec fn contiguous(stages: Seq<StageView>) -> bool {
    forall|i: int|
        0 < i < stages.len() ==> (#[trigger] stages[i]).start == stages[i - 1].end()
}

/// A schedule, in terms of plain values. Times are in nanoseconds.
pub struct ScheduleView {
    pub current: nat,
    pub stages: Seq<StageView>,
    pub start: nat,
    pub total: nat,
}

impl ScheduleView {
    /// What holds of a schedule at all times: the stages left follow one another, none of
    /// them is over, and each has emitted what is due.
    pub open spec fn wf(self) -> bool {
        &&& contiguous(self.stages)
        &&& self.stages.len() > 0 ==> self.current <= self.stages[0].start || self.current
            < self.stages[0].end()
        &&& forall|i: int|
            0 <= i < self.stages.len() ==> (#[trigger] self.stages[i]).in_range()
                && self.stages[i].emitted == self.stages[i].due(self.current)
    }

    /// The schedule after advancing to `now`.
    pub open spec fn after(self, now: nat) -> ScheduleView {
        ScheduleView { current: now, stages: advanced(self.stages, now), ..self }
    }

    /// The time of the next event: the one after those that the first stage has emitted.
    pub open spec fn next_event(self) -> nat {
        self.stages.first().event_time(self.stages.first().emitted + 1)
    }

    /// The time since the start, up to which the schedule has advanced.
    pub open spec fn elapsed(self) -> nat {
        if self.current >= self.start {
            (self.current - self.start) as nat
        } else {
            0
        }
    }

    /// The part of the whole time that is over: the one in seconds divided by the other in
    /// seconds. It is no number where both are zero.
    pub open spec fn progress(self) -> Option<nat> {
        if self.total == 0 {
            if self.elapsed() == 0 {
                None
            } else {
                Some(INFINITE as nat)
            }
        } else if self.elapsed() == 0 {
            Some(0)
        } else {
            Some(
                binary64::rounded(
                    binary64::units(dt::seconds_of(self.elapsed())) * binary64::one(),
                    binary64::units(dt::seconds_of(self.total)),
                ),
            )
        }
    }

    /// The progress in whole percent.
    pub open spec fn percent(self) -> nat {
        match self.progress() {
            None => 0,
            Some(p) => binary64::whole_part(binary64::rounded(binary64::units(p) * 100, 1)),
        }
    }
}

/// A stage later than one that is not over has nothing due.
proof fn lemma_later_stage(stages: Seq<StageView>, i: int, now: nat)
    requires
        contiguous(stages),
        0 < i < stages.len(),
        now < stages[0].end(),
    ensures
        now < stages[i].start,
        stages[i].due(now) == 0,
    decreases i,
{
    if i > 1 {
        lemma_later_stage(stages, i - 1, now);
    }
    assert(stages[i].start == stages[i - 1].end());
}

/// A schedule that is advanced in time never has emitted too much.
pub proof fn lemma_advances(s: ScheduleView, now: nat)
    requires
        s.wf(),
        now >= s.current,
    ensures
        advances(s.stages, now),
    decreases s.stages.len(),
{
    if s.stages.len() > 0 {
        lemma_due_monotone(s.stages[0], s.current, now);
        lemma_wf_tail(s);
        lemma_advances(ScheduleView { stages: s.stages.drop_first(), ..s }, now);
    }
}

/// The later stages of a schedule are a schedule.
proof fn lemma_wf_tail(s: ScheduleView)
    requires
        s.wf(),
        s.stages.len() > 0,
    ensures
        (ScheduleView { stages: s.stages.drop_first(), ..s }).wf(),
{
    let t = s.stages.drop_first();
    assert forall|i: int| 0 < i < t.len() implies (#[trigger] t[i]).start == t[i - 1].end() by {
        assert(s.stages[i + 1].start == s.stages[i].end());
    }
}

/// Advancing keeps what holds of a schedule.
pub proof fn lemma_after_wf(s: ScheduleView, now: nat)
    requires
        s.wf(),
        advances(s.stages, now),
    ensures
        s.after(now).wf(),
        forall|i: int|
            0 <= i < s.after(now).stages.len() ==> now < (#[trigger] s.after(
                now,
            ).stages[i]).end(),
    decreases s.stages.len(),
{
    if s.stages.len() > 0 {
        if now < s.stages[0].end() {
            let t = s.after(now).stages;
            assert forall|i: int| 0 <= i < t.len() implies (#[trigger] t[i]).in_range()
                && t[i].emitted == t[i].due(now) && now < t[i].end() by {
                if i > 0 {
                    lemma_later_stage(s.stages, i, now);
                    lemma_due_monotone(s.stages[i], 0, 0);
                    lemma_emitted_later(s, i, now);
                } else {
                    lemma_event_count_bound(t[0], now);
                }
            }
            assert forall|i: int| 0 < i < t.len() implies (#[trigger] t[i]).start == t[i
                - 1].end() by {
                assert(s.stages[i].start == s.stages[i - 1].end());
            }
        } else {
            lemma_wf_tail(s);
            let rest = ScheduleView { stages: s.stages.drop_first(), ..s };
            lemma_after_wf(rest, now);
        }
    }
}

/// What is due can be counted.
proof fn lemma_event_count_bound(s: StageView, now: nat)
    ensures
        s.due(now) <= usize::MAX,
{
}

/// A later stage has emitted nothing while the first stage is not over.
proof fn lemma_emitted_later(s: ScheduleView, i: int, now: nat)
    requires
        s.wf(),
        0 < i < s.stages.len(),
        now < s.stages[0].end(),
        advances(s.stages, now),
    ensures
        s.stages[i].emitted == s.stages[i].due(now),
{
    lemma_later_stage(s.stages, i, now);
    lemma_nothing_emitted(s, i);
}

/// No stage but the first has emitted anything.
proof fn lemma_nothing_emitted(s: ScheduleView, i: int)
    requires
        s.wf(),
        0 < i < s.stages.len(),
    ensures
        s.current <= s.stages[i].start,
        s.stages[i].emitted == 0,
    decreases i,
{
    if i > 1 {
        lemma_nothing_emitted(s, i - 1);
    }
    assert(s.stages[i].start == s.stages[i - 1].end());
}

/// The stages of a workload laid end to end from `start` on. A stage without a period
/// between its events has no place here.
pub open spec fn planned(start: nat, stages: Seq<config::Stage>) -> Seq<StageView>
    decreases stages.len(),
{
    if stages.len() == 0 {
        Seq::empty()
    } else {
        let last = stages.last();
        planned(start, stages.drop_last()).push(
            StageView {
                start: start + total_duration(stages.drop_last()),
                duration: last.duration@,
                delay: binary64::period(last.rate.bits as nat).unwrap(),
                emitted: 0,
            },
        )
    }
}

/// How long the stages of a workload take together.
pub open spec fn total_duration(stages: Seq<config::Stage>) -> nat
    decreases stages.len(),
{
    if stages.len() == 0 {
        0
    } else {
        total_duration(stages.drop_last()) + stages.last().duration@
    }
}

/// Whether a workload can be scheduled from `start` on: every rate has a period between
/// events, and the end is a time in range.
pub open spec fn schedulable(start: nat, stages: Seq<config::Stage>) -> bool {
    &&& start + total_duration(stages) < binary64::time_limit()
    &&& forall|i: int|
        0 <= i < stages.len() ==> binary64::period(
            (#[trigger] stages[i]).rate.bits as nat,
        ) is Some
}

/// A new schedule is a schedule.
pub proof fn lemma_planned(start: nat, stages: Seq<config::Stage>)
    requires
        schedulable(start, stages),
    ensures
        planned(start, stages).len() == stages.len(),
        contiguous(planned(start, stages)),
        forall|i: int|
            0 <= i < stages.len() ==> {
                let p = #[trigger] planned(start, stages)[i];
                p.in_range() && p.emitted == 0 && p.start >= start
            },
        stages.len() > 0 ==> planned(start, stages)[0].start == start && planned(
            start,
            stages,
        ).last().end() == start + total_duration(stages),
    decreases stages.len(),
{
    if stages.len() > 0 {
        let less = stages.drop_last();
        assert(stages.last() == stages[stages.len() - 1]);
        assert(schedulable(start, less)) by {
            assert forall|i: int| 0 <= i < less.len() implies binary64::period(
                (#[trigger] less[i]).rate.bits as nat,
            ) is Some by {
                assert(less[i] == stages[i]);
            }
        }
        lemma_planned(start, less);
        let p = planned(start, stages);
        let q = planned(start, less);
        assert forall|i: int| 0 < i < p.len() implies (#[trigger] p[i]).start == p[i
            - 1].end() by {
            if i < q.len() {
                assert(p[i] == q[i] && p[i - 1] == q[i - 1]);
            } else {
                assert(p[i - 1] == q.last());
            }
        }
        assert forall|i: int| 0 <= i < stages.len() implies {
            let x = #[trigger] p[i];
            x.in_range() && x.emitted == 0 && x.start >= start
        } by {
            if i < q.len() {
                assert(p[i] == q[i]);
            }
        }
        if less.len() > 0 {
            assert(p[0] == q[0]);
        }
    }
}

/// A schedule of stages with a fixed rate each.
pub struct SteppedRateSchedule {
    current_time: LuaDt,
    stages: VecDeque<Stage>,
    start_time: LuaDt,
    total_duration: LuaDt,
}

impl View for SteppedRateSchedule {
    type V = ScheduleView;

    closed spec fn view(&self) -> ScheduleView {
        ScheduleView {
            current: self.current_time@,
            stages: stage_views(self.stages@),
            start: self.start_time@,
            total: self.total_duration@,
        }
    }
}

impl SteppedRateSchedule {
    /// Tells whether a workload can be scheduled from a point in time on.
    pub fn check_schedulable(start_time: LuaDt, stages: &Vec<config::Stage>) -> (r: bool)
        ensures
            r == schedulable(start_time@, stages@),
    {
        let mut end = start_time;
        let mut i: usize = 0;
        // Each length of time is known to be in range once it is looked at.
        let _ = start_time.as_nanos();
        while i < stages.len()
            invariant
                i <= stages@.len(),
                start_time@ < binary64::time_limit(),
                end@ == start_time@ + total_duration(stages@.take(i as int)),
                forall|j: int|
                    0 <= j < i ==> binary64::period(
                        (#[trigger] stages@[j]).rate.bits as nat,
                    ) is Some,
            decreases stages@.len() - i,
        {
            proof {
                lemma_total_grows(stages@, i + 1);
                assert(stages@.take(i + 1).drop_last() =~= stages@.take(i as int));
                assert(stages@.take(i + 1).last() == stages@[i as int]);
            }
            if event_period(stages[i].rate.bits).is_none() {
                return false;
            }
            match end.checked_add(&stages[i].duration) {
                Some(t) => {
                    end = t;
                },
                None => {
                    return false;
                },
            }
            i = i + 1;
        }
        let _ = end.as_nanos();
        assert(stages@.take(i as int) =~= stages@);
        true
    }

    /// A schedule that starts at `start_time`.
    pub fn new(start_time: LuaDt, script_stages: &Vec<config::Stage>) -> (r: Self)
        requires
            schedulable(start_time@, script_stages@),
        ensures
            r@ == (ScheduleView {
                current: start_time@,
                stages: planned(start_time@, script_stages@),
                start: start_time@,
                total: total_duration(script_stages@),
            }),
            r@.wf(),
    {
        let mut stages: VecDeque<Stage> = VecDeque::new();
        let mut stage_start = start_time;
        let mut i: usize = 0;
        assert(stage_views(stages@) =~= planned(start_time@, script_stages@.take(0)));
        while i < script_stages.len()
            invariant
                i <= script_stages@.len(),
                schedulable(start_time@, script_stages@),
                stage_start@ == start_time@ + total_duration(script_stages@.take(i as int)),
                stage_views(stages@) == planned(start_time@, script_stages@.take(i as int)),
            decreases script_stages@.len() - i,
        {
            let stage = &script_stages[i];
            let ghost before = stages@;
            proof {
                lemma_total_grows(script_stages@, i + 1);
                assert(script_stages@.take(i + 1).drop_last() =~= script_stages@.take(i as int));
                assert(script_stages@.take(i + 1).last() == script_stages@[i as int]);
            }
            let request_delay = match event_period(stage.rate.bits) {
                Some(p) => LuaDt::from_parts(p.0, p.1),
                None => LuaDt::zero(),
            };
            stages.push_back(
                Stage { start_time: stage_start, duration: stage.duration, request_delay, emitted: 0 },
            );
            assert(stage_views(stages@) =~= stage_views(before).push(stages@.last()@));
            stage_start = match stage_start.checked_add(&stage.duration) {
                Some(t) => t,
                None => stage_start,
            };
            i = i + 1;
        }
        proof {
            assert(script_stages@.take(i as int) =~= script_stages@);
            lemma_planned(start_time@, script_stages@);
        }
        let total_duration = stage_start.sub(&start_time);
        let r = SteppedRateSchedule { current_time: start_time, stages, start_time, total_duration };
        proof {
            assert forall|i: int| 0 <= i < r@.stages.len() implies (#[trigger] r@.stages[i]).emitted
                == r@.stages[i].due(start_time@) by {
                assert(planned(start_time@, script_stages@)[i].start >= start_time@);
            }
        }
        r
    }

    /// Advances the current time and tells how many events should have taken place since
    /// the last time. Stages that are over are dropped.
    pub fn advance(&mut self, now: LuaDt) -> (r: usize)
        requires
            old(self)@.wf(),
            advances(old(self)@.stages, now@),
            released(old(self)@.stages, now@) <= usize::MAX,
        ensures
            r == released(old(self)@.stages, now@),
            final(self)@ == old(self)@.after(now@),
            final(self)@.wf(),
    {
        let ghost whole = self@;
        let mut events: usize = 0;
        proof {
            lemma_after_wf(whole, now@);
        }
        loop
            invariant_except_break
                whole == old(self)@,
                self@.start == whole.start,
                self@.total == whole.total,
                self@.current == whole.current,
                self@.wf(),
                advances(self@.stages, now@),
                events + released(self@.stages, now@) == released(whole.stages, now@),
                advanced(self@.stages, now@) == advanced(whole.stages, now@),
                released(whole.stages, now@) <= usize::MAX,
            ensures
                self@.start == whole.start,
                self@.total == whole.total,
                self@.stages == advanced(whole.stages, now@),
                events == released(whole.stages, now@),
            decreases self@.stages.len(),
        {
            let ghost stages = self.stages@;
            let ghost views = self@;
            match self.stages.pop_front() {
                None => {
                    break;
                },
                Some(stage) => {
                    let mut stage = stage;
                    assert(stage@ == views.stages[0]);
                    assert(stage_views(self.stages@) =~= views.stages.drop_first());
                    proof {
                        lemma_wf_tail(views);
                        lemma_released_nonnegative(views.stages.drop_first(), now@, views.stages[0]);
                    }
                    let due = stage.events_due(now);
                    events = events + (due - stage.emitted);
                    stage.emitted = due;
                    if now.before(&stage.end_time()) {
                        self.stages.push_front(stage);
                        assert(stage_views(self.stages@) =~= views.stages.update(
                            0,
                            views.stages[0].caught_up(now@),
                        ));
                        break;
                    }
                },
            }
        }
        self.current_time = now;
        events
    }

    /// Tells whether the schedule can advance to a point in time.
    pub fn check_advance(&self, now: LuaDt) -> (r: bool)
        requires
            self@.wf(),
        ensures
            r == (advances(self@.stages, now@) && released(self@.stages, now@) <= usize::MAX),
    {
        let mut i: usize = 0;
        let mut events: u128 = 0;
        let ghost views = self@.stages;
        assert(views.skip(0) =~= views);
        while i < self.stages.len()
            invariant_except_break
                i <= self.stages@.len(),
                events <= usize::MAX,
                events + released(views.skip(i as int), now@) == released(views, now@),
                advances(views.skip(i as int), now@) == advances(views, now@),
            invariant
                views == self@.stages,
                views == stage_views(self.stages@),
                self@.wf(),
            ensures
                advances(views, now@),
                events == released(views, now@),
                events <= usize::MAX,
            decreases self.stages@.len() - i,
        {
            let stage = &self.stages[i];
            let ghost rest = views.skip(i + 1);
            proof {
                assert(stage@ == views[i as int]);
                assert(views.skip(i as int).drop_first() =~= rest);
                assert(views.skip(i as int).first() == views[i as int]);
                if advances(views, now@) {
                    lemma_released_nonnegative(rest, now@, views[i as int]);
                }
            }
            let due = stage.events_due(now);
            if due < stage.emitted {
                return false;
            }
            events = events + (due - stage.emitted) as u128;
            if events > usize::MAX as u128 {
                return false;
            }
            if now.before(&stage.end_time()) {
                break;
            }
            i = i + 1;
        }
        true
    }

    /// The time of the next event, where there are stages left.
    pub fn next_event_time(&self) -> (r: Option<LuaDt>)
        requires
            self@.wf(),
            self@.stages.len() > 0 ==> self@.stages[0].emitted < usize::MAX && self@.next_event()
                < binary64::time_limit(),
        ensures
            r is Some == (self@.stages.len() > 0),
            r matches Some(t) ==> t@ == self@.next_event(),
    {
        if self.stages.len() == 0 {
            return None;
        }
        let stage = &self.stages[0];
        assert(stage@ == self@.stages[0]);
        Some(stage.nth_event_time(stage.emitted + 1))
    }

    /// Tells whether the time of the next event is in range.
    pub fn check_next_event(&self) -> (r: bool)
        requires
            self@.wf(),
        ensures
            r == (self@.stages.len() > 0 ==> self@.stages[0].emitted < usize::MAX
                && self@.next_event() < binary64::time_limit()),
    {
        if self.stages.len() == 0 {
            return true;
        }
        let stage = &self.stages[0];
        assert(stage@ == self@.stages[0]);
        stage.emitted < usize::MAX && stage.checked_event_time(stage.emitted + 1).is_some()
    }

    /// The part of the whole time that is over. Nothing stands for what is not a number.
    pub fn progress(&self) -> (r: Option<Binary64>)
        ensures
            r is Some == self@.progress() is Some,
            r matches Some(p) ==> self@.progress() == Some(p.bits as nat),
            r matches Some(p) ==> p.bits == 0 || p.bits == INFINITE || (
            binary64::power_pattern(934) <= p.bits <= binary64::power_pattern(1214)),
    {
        let since_start = self.current_time.since(&self.start_time);
        let zero = LuaDt::zero();
        if self.total_duration.same(&zero) {
            if since_start.same(&zero) {
                None
            } else {
                Some(Binary64 { bits: INFINITE })
            }
        } else if since_start.same(&zero) {
            Some(Binary64 { bits: 0 })
        } else {
            let done = since_start.secs();
            let all = self.total_duration.secs();
            Some(Binary64 { bits: quotient(done.bits, all.bits) })
        }
    }

    /// The progress in whole percent.
    pub fn position(&self) -> (r: u64)
        ensures
            r == self@.percent(),
    {
        match self.progress() {
            None => 0,
            Some(p) => {
                if p.bits == 0 {
                    proof {
                        binary64::lemma_zero_units();
                        binary64::lemma_rounded_exact(0, 1);
                        assert(0nat * 100 == 0);
                        vstd::arithmetic::power2::lemma_pow2_pos(1074);
                        assert(0nat / binary64::one() == 0) by {
                            vstd::arithmetic::div_mod::lemma_basic_div(0, binary64::one() as int);
                        }
                    }
                    0
                } else if p.bits == INFINITE {
                    proof {
                        lemma_infinite_percent();
                    }
                    u64::MAX
                } else {
                    truncate(times_hundred(p.bits))
                }
            },
        }
    }
}

/// The stages of a list take no more time than all of them.
proof fn lemma_total_grows(stages: Seq<config::Stage>, n: int)
    requires
        0 <= n <= stages.len(),
    ensures
        total_duration(stages.take(n)) <= total_duration(stages),
    decreases stages.len() - n,
{
    if n < stages.len() {
        lemma_total_grows(stages, n + 1);
        assert(stages.take(n + 1).drop_last() =~= stages.take(n));
    } else {
        assert(stages.take(n) =~= stages);
    }
}

/// What is left of the events after the first stage's does not make them fewer.
proof fn lemma_released_nonnegative(rest: Seq<StageView>, now: nat, first: StageView)
    requires
        now >= first.end() ==> advances(rest, now),
    ensures
        now >= first.end() ==> released(rest, now) >= 0,
    decreases rest.len(),
{
    if now >= first.end() && rest.len() > 0 {
        lemma_released_nonnegative(rest.drop_first(), now, rest.first());
    }
}

/// A hundred times infinity is infinity, which is converted to the largest integer.
proof fn lemma_infinite_percent()
    ensures
        binary64::whole_part(
            binary64::rounded(binary64::units(INFINITE as nat) * 100, 1),
        ) == u64::MAX,
{
    let n = binary64::units(INFINITE as nat) * 100;
    binary64::lemma_rounded_exact(INFINITE as nat, 1);
    binary64::lemma_rounded_monotone(binary64::units(INFINITE as nat), n, 1);
    binary64::lemma_rounded(n, 1);
    binary64::lemma_power_units(2098);
    vstd::arithmetic::power2::lemma_pow2_adds(1024, 1074);
    vstd::arithmetic::power2::lemma_pow2_adds(64, 960);
    vstd::arithmetic::power2::lemma_pow2_pos(960);
    vstd::arithmetic::power2::lemma_pow2_pos(1074);
    vstd::arithmetic::power2::lemma2_to64();
    vstd::arithmetic::power2::lemma2_to64_rest();
    let u = binary64::one();
    let p = vstd::arithmetic::power2::pow2(1024);
    let q = vstd::arithmetic::power2::pow2(960);
    assert(p >= 0x1_0000_0000_0000_0000) by (nonlinear_arith)
        requires
            p == 0x1_0000_0000_0000_0000 * q,
            q > 0,
    ;
    vstd::arithmetic::div_mod::lemma_fundamental_div_mod_converse(
        (p * u) as int,
        u as int,
        p as int,
        0,
    );
}

/// How often a schedule is advanced makes no difference: advancing to one point in time and
/// then to a later one releases as many events, and leaves the same schedule, as advancing
/// to the later one at once.
pub proof fn law_steps_add_up(s: ScheduleView, t1: nat, t2: nat)
    requires
        s.wf(),
        s.current <= t1 <= t2,
    ensures
        released(s.stages, t1) + released(s.after(t1).stages, t2) == released(s.stages, t2),
        s.after(t1).after(t2) == s.after(t2),
    decreases s.stages.len(),
{
    if s.stages.len() > 0 {
        let first = s.stages[0];
        lemma_wf_tail(s);
        lemma_due_monotone(first, t1, t2);
        if t1 < first.end() {
            let caught = s.stages.update(0, first.caught_up(t1));
            assert(caught.drop_first() =~= s.stages.drop_first());
            assert(caught.update(0, first.caught_up(t2)) =~= s.stages.update(
                0,
                first.caught_up(t2),
            ));
        } else {
            law_steps_add_up(ScheduleView { stages: s.stages.drop_first(), ..s }, t1, t2);
        }
    }
}

/// The events due and not yet emitted, over all stages.
pub open spec fn owed(stages: Seq<StageView>, now: nat) -> int
    decreases stages.len(),
{
    if stages.len() == 0 {
        0
    } else {
        stages.first().due(now) - stages.first().emitted + owed(stages.drop_first(), now)
    }
}

/// Stages that have emitted what is due owe nothing.
proof fn lemma_nothing_owed(stages: Seq<StageView>, now: nat)
    requires
        forall|i: int|
            0 <= i < stages.len() ==> (#[trigger] stages[i]).emitted == stages[i].due(now),
    ensures
        owed(stages, now) == 0,
    decreases stages.len(),
{
    if stages.len() > 0 {
        assert(stages.first() == stages[0]);
        let t = stages.drop_first();
        assert forall|i: int| 0 <= i < t.len() implies (#[trigger] t[i]).emitted == t[i].due(
            now,
        ) by {
            assert(t[i] == stages[i + 1]);
        }
        lemma_nothing_owed(t, now);
    }
}

/// Advancing releases all that is due in any stage and has not been emitted, no more and no
/// less.
pub proof fn law_releases_what_is_owed(s: ScheduleView, now: nat)
    requires
        s.wf(),
        s.current <= now,
    ensures
        released(s.stages, now) == owed(s.stages, now),
        released(s.stages, now) >= 0,
    decreases s.stages.len(),
{
    lemma_advances(s, now);
    if s.stages.len() > 0 {
        lemma_wf_tail(s);
        let rest = s.stages.drop_first();
        let tail = ScheduleView { stages: rest, ..s };
        lemma_released_nonnegative(rest, now, s.stages[0]);
        law_releases_what_is_owed(tail, now);
        if now < s.stages[0].end() {
            assert forall|i: int| 0 <= i < rest.len() implies (#[trigger] rest[i]).emitted
                == rest[i].due(now) by {
                lemma_emitted_later(s, i + 1, now);
            }
            lemma_nothing_owed(rest, now);
        }
    }
}

/// Stages are left exactly until the end of the last one.
pub proof fn law_finished_at_the_end(s: ScheduleView, now: nat)
    requires
        s.wf(),
    ensures
        (s.after(now).stages.len() == 0) == (s.stages.len() == 0 || now >= s.stages.last().end()),
    decreases s.stages.len(),
{
    if s.stages.len() > 0 {
        let rest = s.stages.drop_first();
        lemma_wf_tail(s);
        if rest.len() > 0 {
            assert(rest.last() == s.stages.last());
            if now < s.stages[0].end() {
                lemma_later_stage(s.stages, s.stages.len() - 1, now);
            }
        }
        law_finished_at_the_end(ScheduleView { stages: rest, ..s }, now);
    }
}

/// The events of a workload: in every stage as many as fall into its duration.
pub open spec fn workload_events(stages: Seq<StageView>) -> nat
    decreases stages.len(),
{
    if stages.len() == 0 {
        0
    } else {
        stages.first().due(stages.first().end()) + workload_events(stages.drop_first())
    }
}

/// Over its whole time, a schedule that has not started releases all events of the
/// workload.
pub proof fn law_whole_workload(s: ScheduleView, now: nat)
    requires
        s.wf(),
        s.current <= now,
        s.stages.len() > 0 ==> s.current <= s.stages[0].start && now >= s.stages.last().end(),
    ensures
        released(s.stages, now) == workload_events(s.stages),
    decreases s.stages.len(),
{
    if s.stages.len() > 0 {
        let rest = s.stages.drop_first();
        lemma_wf_tail(s);
        let first = s.stages[0];
        assert(first.emitted == 0);
        if now < first.end() {
            if rest.len() > 0 {
                lemma_later_stage(s.stages, s.stages.len() - 1, now);
            }
            assert(false);
        }
        lemma_due_monotone(first, first.end(), now);
        if rest.len() > 0 {
            assert(rest.last() == s.stages.last());
            assert(s.stages[1].start == first.end());
            assert(rest[0] == s.stages[1]);
        }
        law_whole_workload(ScheduleView { stages: rest, ..s }, now);
    }
}

/// The events that are due are those whose time has come, give or take one whose time it is: the
/// last one due is not later than now, or the end of the stage where that is over, and the one
/// after it not earlier. This holds within 2^50 nanoseconds of the start, and for events that
/// are counted in 32 bits.
pub proof fn law_events_due_have_come(s: StageView, now: nat)
    requires
        s.in_range(),
        s.delay > 0,
        s.start < dt::least(now, s.end()) < s.start + 0x4_0000_0000_0000,
        s.due(now) + 1 < 0x1_0000_0000,
    ensures
        s.event_time(s.due(now)) <= dt::least(now, s.end()) <= s.event_time(s.due(now) + 1),
{
    let e = (dt::least(now, s.end()) - s.start) as nat;
    let r = s.due(now);
    accuracy::lemma_quotient_counts(e, s.delay);
    vstd::arithmetic::div_mod::lemma_small_mod(r, 0x1_0000_0000);
    vstd::arithmetic::div_mod::lemma_small_mod(r + 1, 0x1_0000_0000);
}

/// After advancing, the next event is not before the time advanced to; there is none exactly
/// where every stage is over. This holds within 2^50 nanoseconds of the start of the stage, and
/// for events that are counted in 32 bits.
pub proof fn law_next_event_is_not_past(s: ScheduleView, now: nat)
    requires
        s.wf(),
        s.current <= now,
        s.after(now).stages.len() > 0 ==> {
            let first = s.after(now).stages[0];
            &&& first.delay > 0
            &&& now < first.start + 0x4_0000_0000_0000
            &&& first.emitted + 1 < 0x1_0000_0000
        },
    ensures
        (s.after(now).stages.len() == 0) == (forall|i: int|
            0 <= i < s.stages.len() ==> (#[trigger] s.stages[i]).end() <= now),
        s.after(now).stages.len() > 0 ==> s.after(now).next_event() >= now,
{
    lemma_advances(s, now);
    lemma_after_wf(s, now);
    law_finished_at_the_end(s, now);
    if s.stages.len() > 0 {
        lemma_ends_in_order(s.stages);
        assert(s.stages[s.stages.len() - 1] == s.stages.last());
    }
    if s.after(now).stages.len() > 0 {
        let first = s.after(now).stages[0];
        assert(now < first.end());
        vstd::arithmetic::div_mod::lemma_small_mod(first.emitted + 1, 0x1_0000_0000);
        if now > first.start {
            law_events_due_have_come(first, now);
        }
        assert((first.emitted + 1) * first.delay >= 0) by (nonlinear_arith);
    }
}

/// No stage ends after the last one.
proof fn lemma_ends_in_order(stages: Seq<StageView>)
    requires
        contiguous(stages),
        stages.len() > 0,
    ensures
        forall|i: int| 0 <= i < stages.len() ==> (#[trigger] stages[i]).end() <= stages.last().end(),
    decreases stages.len(),
{
    if stages.len() > 1 {
        let less = stages.drop_last();
        assert forall|i: int| 0 < i < less.len() implies (#[trigger] less[i]).start == less[i
            - 1].end() by {
            assert(less[i] == stages[i]);
            assert(less[i - 1] == stages[i - 1]);
        }
        lemma_ends_in_order(less);
        assert(stages[stages.len() - 1].start == stages[stages.len() - 2].end());
        assert(less.last() == stages[stages.len() - 2]);
        assert forall|i: int| 0 <= i < stages.len() implies (#[trigger] stages[i]).end()
            <= stages.last().end() by {
            if i < less.len() {
                assert(less[i] == stages[i]);
            }
        }
    }
}

/// The progress of a schedule is zero at the start and one when the whole time is over. It does
/// not decrease, and it is not capped: after twice the time it is more than one. It is always a
/// finite number.
pub proof fn law_progress(s: ScheduleView, t1: nat, t2: nat)
    requires
        0 < s.total < binary64::time_limit(),
        s.start <= t1 <= t2,
        t2 < s.start + binary64::time_limit(),
    ensures
        s.after(s.start).progress() == Some(0nat),
        s.current == s.start ==> s.progress() == Some(0nat),
        s.after(t1).progress() is Some,
        s.after(t2).progress() is Some,
        s.after(t1).progress().unwrap() <= s.after(t2).progress().unwrap() < INFINITE,
        t1 == s.start + s.total ==> s.after(t1).progress() == Some(accuracy::one_pattern()),
        t1 >= s.start + 2 * s.total ==> s.after(t1).progress().unwrap() > accuracy::one_pattern(),
{
    let e1 = (t1 - s.start) as nat;
    let e2 = (t2 - s.start) as nat;
    let v = binary64::units(dt::seconds_of(s.total));
    let u = binary64::one();
    binary64::lemma_seconds_positive(s.total / 1_000_000_000, s.total % 1_000_000_000);
    accuracy::lemma_seconds_near(s.total);
    if e2 > 0 {
        let n2 = binary64::units(dt::seconds_of(e2)) * u;
        accuracy::lemma_seconds_near(e2);
        binary64::lemma_rounded(n2, v);
        binary64::lemma_quotient_between(
            dt::seconds_of(e2),
            dt::seconds_of(s.total),
            binary64::rounded(n2, v),
        );
        if e1 > 0 {
            let n1 = binary64::units(dt::seconds_of(e1)) * u;
            dt::lemma_seconds_of_monotone(e1, e2);
            binary64::lemma_units_ordered(dt::seconds_of(e1), dt::seconds_of(e2));
            vstd::arithmetic::mul::lemma_mul_inequality(
                binary64::units(dt::seconds_of(e1)) as int,
                binary64::units(dt::seconds_of(e2)) as int,
                u as int,
            );
            binary64::lemma_rounded_monotone(n1, n2, v);
            if e1 >= s.total {
                accuracy::lemma_quotient_and_one(e1, s.total);
            }
        }
    }
}

/// Each stage that is planned is one of the workload.
proof fn lemma_planned_stage(start: nat, stages: Seq<config::Stage>, i: int)
    requires
        0 <= i < stages.len(),
    ensures
        planned(start, stages).len() == stages.len(),
        planned(start, stages)[i].duration == stages[i].duration@,
        planned(start, stages)[i].delay == binary64::period(stages[i].rate.bits as nat).unwrap(),
        planned(start, stages)[i].emitted == 0,
    decreases stages.len(),
{
    let less = stages.drop_last();
    if i < less.len() {
        lemma_planned_stage(start, less, i);
        assert(less[i] == stages[i]);
    } else if less.len() > 0 {
        lemma_planned_stage(start, less, 0);
    }
}

/// A new schedule has the stages of its workload, all of them and in their order, laid end to end
/// from the start. Each lasts as long as its own duration, and the delay between its events is one
/// second divided by its own rate, to the nearest nanosecond, whatever the rate; at an infinite
/// rate there is no delay. No events have been released.
pub proof fn law_new_schedule_is_the_workload(
    start_time: LuaDt,
    stages: Vec<config::Stage>,
    r: SteppedRateSchedule,
)
    requires
        schedulable(start_time@, stages@),
        call_ensures(SteppedRateSchedule::new, (start_time, &stages), r),
    ensures
        r@.current == start_time@,
        r@.start == start_time@,
        r@.stages.len() == stages@.len(),
        stages@.len() == 0 ==> r@.total == 0,
        stages@.len() > 0 ==> r@.stages[0].start == start_time@ && r@.start + r@.total
            == r@.stages.last().start + r@.stages.last().duration,
        forall|i: int|
            0 < i < stages@.len() ==> (#[trigger] r@.stages[i]).start == r@.stages[i - 1].start
                + r@.stages[i - 1].duration,
        forall|i: int|
            0 <= i < stages@.len() ==> {
                let s = #[trigger] r@.stages[i];
                &&& s.duration == stages@[i].duration@
                &&& s.emitted == 0
                &&& stages@[i].rate.bits < INFINITE ==> accuracy::is_period(
                    s.delay,
                    binary64::units(stages@[i].rate.bits as nat),
                )
                &&& stages@[i].rate.bits >= INFINITE ==> s.delay == 0
            },
{
    lemma_planned(start_time@, stages@);
    assert forall|i: int| 0 <= i < stages@.len() implies {
        let s = #[trigger] r@.stages[i];
        &&& s.duration == stages@[i].duration@
        &&& s.emitted == 0
        &&& stages@[i].rate.bits < INFINITE ==> accuracy::is_period(
            s.delay,
            binary64::units(stages@[i].rate.bits as nat),
        )
        &&& stages@[i].rate.bits >= INFINITE ==> s.delay == 0
    } by {
        lemma_planned_stage(start_time@, stages@, i);
        let rate = stages@[i].rate.bits as nat;
        assert(binary64::period(rate) is Some);
        if rate < INFINITE {
            accuracy::lemma_period(rate);
        }
    }
}

/// A workload can be scheduled where it ends at a time in range and no rate is below 2^-62 events
/// a second. It cannot where it ends later, or where a rate is zero, negative or not a number.
pub proof fn law_which_workloads_can_be_scheduled(
    start_time: LuaDt,
    stages: Vec<config::Stage>,
    r: bool,
)
    requires
        call_ensures(SteppedRateSchedule::check_schedulable, (start_time, &stages), r),
    ensures
        start_time@ + total_duration(stages@) < binary64::time_limit() && (forall|i: int|
            0 <= i < stages@.len() ==> binary64::power_pattern(1012) <= (
            #[trigger] stages@[i]).rate.bits <= INFINITE) ==> r,
        r ==> start_time@ + total_duration(stages@) < binary64::time_limit(),
        r ==> forall|i: int|
            0 <= i < stages@.len() ==> 0 < (#[trigger] stages@[i]).rate.bits && (
            stages@[i].rate.bits <= INFINITE || stages@[i].rate.bits == binary64::SIGN + INFINITE),
{
    assert forall|i: int|
        0 <= i < stages@.len() && binary64::power_pattern(1012) <= stages@[i].rate.bits
            <= INFINITE implies binary64::period((#[trigger] stages@[i]).rate.bits as nat) is Some by {
        accuracy::lemma_which_rates(stages@[i].rate.bits as nat);
    }
    if r {
        assert forall|i: int| 0 <= i < stages@.len() implies 0 < (
        #[trigger] stages@[i]).rate.bits && (stages@[i].rate.bits <= INFINITE
            || stages@[i].rate.bits == binary64::SIGN + INFINITE) by {
            accuracy::lemma_which_rates(stages@[i].rate.bits as nat);
        }
    }
}

/// The stages of a workload take as long as the first ones and the rest.
pub proof fn law_durations_add_up(a: Seq<config::Stage>, b: Seq<config::Stage>)
    ensures
        total_duration(a + b) == total_duration(a) + total_duration(b),
        a.len() == 1 ==> total_duration(a) == a[0].duration@,
    decreases b.len(),
{
    if b.len() == 0 {
        assert(a + b =~= a);
    } else {
        assert((a + b).drop_last() =~= a + b.drop_last());
        law_durations_add_up(a, b.drop_last());
    }
    if a.len() == 1 {
        assert(a.drop_last().len() == 0);
        assert(total_duration(a.drop_last()) == 0);
    }
}

/// Events fill the time of a stage: those that are due take, at their delay, no longer than the
/// time since its start, or its duration where it is over, and with one more they would take as
/// long. This is exact within 2^50 nanoseconds, and beyond to one part in 2^49. Before its start a
/// stage has no events, and without a delay as many as can be counted.
pub proof fn law_events_fill_the_time(s: StageView, now: nat)
    requires
        s.in_range(),
    ensures
        now <= s.start ==> s.due(now) == 0,
        s.start < dt::least(now, s.end()) && s.delay == 0 ==> s.due(now) == usize::MAX,
        s.start < dt::least(now, s.end()) && s.delay > 0 ==> {
            let e = (dt::least(now, s.end()) - s.start) as nat;
            let n = s.due(now);
            &&& 0x1_FFFF_FFFF_FFFF * (n * s.delay) <= 0x2_0000_0000_0000 * e
            &&& e < 0x4_0000_0000_0000 ==> n * s.delay <= e
            &&& n < usize::MAX ==> 0x1_FFFF_FFFF_FFFF * e <= 0x2_0000_0000_0000 * ((n + 1) * s.delay)
            &&& n < usize::MAX && e < 0x4_0000_0000_0000 ==> e <= (n + 1) * s.delay
        },
{
    if s.start < dt::least(now, s.end()) && s.delay > 0 {
        let e = (dt::least(now, s.end()) - s.start) as nat;
        let d = s.delay;
        let o = binary64::one();
        let q = binary64::rounded(
            binary64::units(dt::seconds_of(e)) * o,
            binary64::units(dt::seconds_of(d)),
        );
        let m = binary64::units(q);
        let r = m / o;
        accuracy::lemma_quotient_close(e, d);
        if e < 0x4_0000_0000_0000 {
            accuracy::lemma_quotient_counts(e, d);
        }
        let n = s.due(now);
        assert(n <= r && (n < usize::MAX ==> n == r));
        assert(n * d <= r * d) by (nonlinear_arith)
            requires
                n <= r,
        ;
        vstd::arithmetic::power2::lemma_pow2_pos(1074);
        vstd::arithmetic::div_mod::lemma_fundamental_div_mod(m as int, o as int);
        let left = m % o;
        assert(r * o <= m < (r + 1) * o) by (nonlinear_arith)
            requires
                m == o * r + left,
                left < o,
        ;
        let a = r * d;
        let b = (r + 1) * d;
        assert(a * o <= m * d) by (nonlinear_arith)
            requires
                a == r * d,
                r * o <= m,
        ;
        assert(m * d <= b * o) by (nonlinear_arith)
            requires
                b == (r + 1) * d,
                m < (r + 1) * o,
        ;
        assert(0x1_FFFF_FFFF_FFFF * a <= 0x2_0000_0000_0000 * e) by (nonlinear_arith)
            requires
                0x1_FFFF_FFFF_FFFF * (a * o) <= 0x2_0000_0000_0000 * (e * o),
                o > 0,
        ;
        assert(0x1_FFFF_FFFF_FFFF * e <= 0x2_0000_0000_0000 * b) by (nonlinear_arith)
            requires
                0x1_FFFF_FFFF_FFFF * (e * o) <= 0x2_0000_0000_0000 * (b * o),
                o > 0,
        ;
    }
}

/// Over its whole duration, a stage of a new schedule releases its duration times its rate in
/// events, give or take one, and what the rounding of the delay to the nearest nanosecond comes to
/// over them. This holds for durations below 2^50 nanoseconds.
pub proof fn law_stage_keeps_its_rate(
    start_time: LuaDt,
    stages: Vec<config::Stage>,
    r: SteppedRateSchedule,
    i: int,
)
    requires
        schedulable(start_time@, stages@),
        call_ensures(SteppedRateSchedule::new, (start_time, &stages), r),
        0 <= i < stages@.len(),
        0 < stages@[i].duration@ < 0x4_0000_0000_0000,
        stages@[i].rate.bits < INFINITE,
        r@.stages[i].delay > 0,
        r@.stages[i].due(r@.stages[i].end()) < usize::MAX,
    ensures
        ({
            let n = r@.stages[i].due(r@.stages[i].end());
            let d = stages@[i].duration@;
            let rate = binary64::units(stages@[i].rate.bits as nat);
            &&& 0x20_0000_0000_0000 * (2_000_000_000 * binary64::one() * n) <= 0x20_0000_0000_0001
                * (rate * (2 * d + n))
            &&& 0x1F_FFFF_FFFF_FFFF * (rate * (2 * d - (n + 1))) <= 0x20_0000_0000_0000 * (
            2_000_000_000 * binary64::one() * (n + 1))
        }),
{
    law_new_schedule_is_the_workload(start_time, stages, r);
    lemma_planned(start_time@, stages@);
    let s = r@.stages[i];
    let n = s.due(s.end());
    let d = s.duration;
    let p = s.delay;
    let rate = binary64::units(stages@[i].rate.bits as nat);
    let o = 2_000_000_000 * binary64::one();
    law_events_fill_the_time(s, s.end());
    assert(n * p <= d <= (n + 1) * p);
    assert(accuracy::is_period(p, rate));
    let high = (2 * p + 1) * rate;
    let low: int = (2 * p - 1) * rate;
    assert(high * n <= rate * (2 * d + n)) by (nonlinear_arith)
        requires
            high == (2 * p + 1) * rate,
            n * p <= d,
    ;
    assert(0x20_0000_0000_0000 * (o * n) <= 0x20_0000_0000_0001 * (high * n)) by (nonlinear_arith)
        requires
            0x20_0000_0000_0000 * o <= 0x20_0000_0000_0001 * high,
    ;
    assert(rate * (2 * d - (n + 1)) <= low * (n + 1)) by (nonlinear_arith)
        requires
            low == (2 * p - 1) * rate,
            d <= (n + 1) * p,
            rate >= 0,
    ;
    assert(0x1F_FFFF_FFFF_FFFF * (low * (n + 1)) <= 0x20_0000_0000_0000 * (o * (n + 1))) by (
    nonlinear_arith)
        requires
            0x1F_FFFF_FFFF_FFFF * low <= 0x20_0000_0000_0000 * o,
            n >= 0,
    ;
}

/// The events of a stage are evenly spaced: none at its start, and each one delay after the one
/// before. They are counted in 32 bits, after which they begin anew.
pub proof fn law_events_are_evenly_spaced(stage: Stage, n: usize, a: LuaDt, b: LuaDt)
    requires
        n < usize::MAX,
        call_ensures(Stage::nth_event_time, (&stage, n), a),
        call_ensures(Stage::nth_event_time, (&stage, (n + 1) as usize), b),
    ensures
        n == 0 ==> a@ == stage@.start,
        (n + 1) % 0x1_0000_0000 != 0 ==> b@ == a@ + stage@.delay,
        (n + 1) % 0x1_0000_0000 == 0 ==> b@ == stage@.start,
{
    let delay = stage@.delay;
    let m = n as nat % 0x1_0000_0000;
    assert((m + 1) * delay == m * delay + delay) by (nonlinear_arith);
    assert(0nat * delay == 0) by (nonlinear_arith);
}

/// After advancing, the next event is the first that is still to come: not before the time
/// advanced to, and no later than one delay after it; before a stage has begun, one delay after
/// its start. This holds within 2^50 nanoseconds of the start of the stage, and for events that
/// are counted in 32 bits.
pub proof fn law_next_event_is_the_first_to_come(s: ScheduleView, now: nat)
    requires
        s.wf(),
        s.current <= now,
        s.after(now).stages.len() > 0,
        s.after(now).stages[0].delay > 0,
        now < s.after(now).stages[0].start + 0x4_0000_0000_0000,
        s.after(now).stages[0].emitted + 1 < 0x1_0000_0000,
    ensures
        ({
            let first = s.after(now).stages[0];
            &&& now > first.start ==> now <= s.after(now).next_event() <= now + first.delay
            &&& now <= first.start ==> s.after(now).next_event() == first.start + first.delay
        }),
{
    lemma_advances(s, now);
    lemma_after_wf(s, now);
    law_next_event_is_not_past(s, now);
    let first = s.after(now).stages[0];
    let n = first.emitted;
    assert(now < first.end());
    vstd::arithmetic::div_mod::lemma_small_mod(n + 1, 0x1_0000_0000);
    assert((n + 1) * first.delay == n * first.delay + first.delay) by (nonlinear_arith);
    if now > first.start {
        law_events_fill_the_time(first, now);
    } else {
        assert(first.due(now) == 0);
        assert(0nat * first.delay == 0) by (nonlinear_arith);
    }
}

/// The time of the next event is the one after those that the first stage left has released, and
/// there is one exactly where a stage is left.
pub proof fn law_next_event_of_a_schedule(s: SteppedRateSchedule, r: Option<LuaDt>)
    requires
        call_ensures(SteppedRateSchedule::next_event_time, (&s,), r),
    ensures
        r is Some == (s@.stages.len() > 0),
        r matches Some(t) ==> t@ == s@.stages[0].start + (s@.stages[0].emitted + 1) % 0x1_0000_0000
            * s@.stages[0].delay,
{
}

/// A stage ends its duration after its start.
pub proof fn law_end_of_a_stage(stage: Stage, r: LuaDt)
    requires
        call_ensures(Stage::end_time, (&stage,), r),
    ensures
        r@ == stage@.start + stage@.duration,
{
}

/// The progress of a workload without stages, or of stages that take no time, is no number at the
/// start and infinite afterwards, which is shown as nothing and as the largest number.
pub proof fn law_progress_without_time(
    s: SteppedRateSchedule,
    progress: Option<Binary64>,
    percent: u64,
)
    requires
        s@.total == 0,
        call_ensures(SteppedRateSchedule::progress, (&s,), progress),
        call_ensures(SteppedRateSchedule::position, (&s,), percent),
    ensures
        s@.current <= s@.start ==> progress is None && percent == 0,
        s@.current > s@.start ==> (progress matches Some(p) && p.bits == INFINITE) && percent
            == u64::MAX,
{
    lemma_infinite_percent();
}

/// A schedule can advance wherever the clock does not go back and what is released can be counted.
pub proof fn law_when_a_schedule_can_advance(
    s: SteppedRateSchedule,
    now: LuaDt,
    r: bool,
    next: bool,
)
    requires
        s@.wf(),
        s@.current <= now@,
        call_ensures(SteppedRateSchedule::check_advance, (&s, now), r),
        call_ensures(SteppedRateSchedule::check_next_event, (&s,), next),
    ensures
        r == (owed(s@.stages, now@) <= usize::MAX),
        s@.stages.len() == 0 ==> next,
        s@.stages.len() > 0 ==> next == (s@.stages[0].emitted < usize::MAX && s@.stages[0].start + (
        s@.stages[0].emitted + 1) % 0x1_0000_0000 * s@.stages[0].delay < binary64::time_limit()),
{
    lemma_advances(s@, now@);
    law_releases_what_is_owed(s@, now@);
}

/// To advance releases what is due and was not released, over all stages. The stages that are over
/// by then are gone; the others stay as they are, but that the first has released what is due.
pub proof fn law_advancing(s: &mut SteppedRateSchedule, now: LuaDt, n: usize)
    requires
        old(s)@.wf(),
        old(s)@.current <= now@,
        call_ensures(SteppedRateSchedule::advance, (s, now), n),
    ensures
        n == owed(old(s)@.stages, now@),
        final(s)@.current == now@,
        final(s)@.start == old(s)@.start,
        final(s)@.total == old(s)@.total,
        final(s)@.stages.len() <= old(s)@.stages.len(),
        ({
            let k = old(s)@.stages.len() - final(s)@.stages.len();
            &&& forall|i: int| 0 <= i < k ==> (#[trigger] old(s)@.stages[i]).end() <= now@
            &&& forall|i: int|
                0 <= i < final(s)@.stages.len() ==> {
                    let left = #[trigger] final(s)@.stages[i];
                    let was = old(s)@.stages[i + k];
                    &&& now@ < left.end()
                    &&& left.start == was.start && left.duration == was.duration && left.delay
                        == was.delay
                    &&& left.emitted == was.due(now@)
                }
        }),
{
    law_releases_what_is_owed(old(s)@, now@);
    lemma_advances(old(s)@, now@);
    lemma_after_wf(old(s)@, now@);
    lemma_advanced(old(s)@.stages, now@);
    let k = old(s)@.stages.len() - final(s)@.stages.len();
    assert forall|i: int| 0 <= i < final(s)@.stages.len() implies {
        let left = #[trigger] final(s)@.stages[i];
        let was = old(s)@.stages[i + k];
        &&& now@ < left.end()
        &&& left.start == was.start && left.duration == was.duration && left.delay == was.delay
        &&& left.emitted == was.due(now@)
    } by {
        let left = old(s)@.after(now@).stages[i];
        assert(left.emitted == left.due(now@));
    }
}

/// Advancing drops stages at the beginning and keeps the others.
proof fn lemma_advanced(stages: Seq<StageView>, now: nat)
    ensures
        advanced(stages, now).len() <= stages.len(),
        ({
            let k = stages.len() - advanced(stages, now).len();
            &&& forall|i: int| 0 <= i < k ==> (#[trigger] stages[i]).end() <= now
            &&& forall|i: int|
                0 <= i < advanced(stages, now).len() ==> {
                    let left = #[trigger] advanced(stages, now)[i];
                    let was = stages[i + k];
                    left.start == was.start && left.duration == was.duration && left.delay
                        == was.delay
                }
        }),
    decreases stages.len(),
{
    if stages.len() > 0 && now >= stages.first().end() {
        let rest = stages.drop_first();
        lemma_advanced(rest, now);
        let k = stages.len() - advanced(stages, now).len();
        assert forall|i: int| 0 <= i < k implies (#[trigger] stages[i]).end() <= now by {
            if i > 0 {
                assert(rest[i - 1] == stages[i]);
            }
        }
        assert forall|i: int| 0 <= i < advanced(stages, now).len() implies {
            let left = #[trigger] advanced(stages, now)[i];
            let was = stages[i + k];
            left.start == was.start && left.duration == was.duration && left.delay == was.delay
        } by {
            assert(advanced(rest, now)[i] == advanced(stages, now)[i]);
            assert(rest[i + k - 1] == stages[i + k]);
        }
    }
}

/// Progress is the part of the whole time that is over, to one part in 2^49, and in whole percent
/// to one part in 2^48 and without its fraction: none at the start, and a hundred at the end.
pub proof fn law_progress_is_the_part_that_is_over(
    s: SteppedRateSchedule,
    progress: Option<Binary64>,
    percent: u64,
)
    requires
        0 < s@.total < binary64::time_limit(),
        s@.elapsed() < binary64::time_limit(),
        call_ensures(SteppedRateSchedule::progress, (&s,), progress),
        call_ensures(SteppedRateSchedule::position, (&s,), percent),
    ensures
        progress matches Some(p) && accuracy::close(
            binary64::units(p.bits as nat) * s@.total,
            s@.elapsed() * binary64::one(),
        ),
        0xFFFF_FFFF_FFFF * (percent * s@.total) <= 0x1_0000_0000_0000 * (100 * s@.elapsed()),
        percent < u64::MAX ==> 0xFFFF_FFFF_FFFF * (100 * s@.elapsed()) <= 0x1_0000_0000_0000 * ((
        percent + 1) * s@.total),
        s@.current <= s@.start ==> percent == 0,
        s@.current == s@.start + s@.total ==> percent == 100,
{
    let e = s@.elapsed();
    let d = s@.total;
    let o = binary64::one();
    vstd::arithmetic::power2::lemma_pow2_pos(1074);
    binary64::lemma_zero_units();
    if e == 0 {
        assert(binary64::units(0) * d == 0) by (nonlinear_arith)
            requires
                binary64::units(0) == 0,
        ;
        assert(0nat * o == 0) by (nonlinear_arith);
        assert(binary64::units(0) * 100 == 0);
        binary64::lemma_rounded_exact(0, 1);
        vstd::arithmetic::div_mod::lemma_basic_div(0, o as int);
        assert(percent == 0);
        assert(0 * d == 0) by (nonlinear_arith);
        assert((percent + 1) * d >= 0) by (nonlinear_arith);
    } else {
        accuracy::lemma_quotient_close(e, d);
        let q = binary64::rounded(
            binary64::units(dt::seconds_of(e)) * o,
            binary64::units(dt::seconds_of(d)),
        );
        lemma_percent(q, e, d, percent as nat);
        if e == d {
            accuracy::lemma_quotient_and_one(e, d);
            binary64::lemma_power_units(1074);
            binary64::lemma_whole_exact(100);
            assert(o * 100 == 100 * o) by (nonlinear_arith);
            vstd::arithmetic::div_mod::lemma_fundamental_div_mod_converse(
                (100 * o) as int,
                o as int,
                100,
                0,
            );
        }
    }
}

/// A hundred times a number that is close to a quotient, without its fraction.
proof fn lemma_percent(q: nat, e: nat, d: nat, percent: nat)
    requires
        binary64::power_pattern(934) <= q <= binary64::power_pattern(1214),
        accuracy::close(binary64::units(q) * d, e * binary64::one()),
        percent == binary64::whole_part(binary64::rounded(binary64::units(q) * 100, 1)),
    ensures
        0xFFFF_FFFF_FFFF * (percent * d) <= 0x1_0000_0000_0000 * (100 * e),
        percent < u64::MAX ==> 0xFFFF_FFFF_FFFF * (100 * e) <= 0x1_0000_0000_0000 * ((percent + 1)
            * d),
{
    let o = binary64::one();
    let m = binary64::units(q);
    let h = binary64::rounded(m * 100, 1);
    let x = binary64::units(h);
    let r = x / o;
    vstd::arithmetic::power2::lemma_pow2_pos(1074);
    binary64::lemma_rounded(m * 100, 1);
    binary64::lemma_power_units(934);
    binary64::lemma_power_units(1214);
    binary64::lemma_power_units(1224);
    binary64::lemma_units_ordered(binary64::power_pattern(934), q);
    binary64::lemma_units_ordered(q, binary64::power_pattern(1214));
    vstd::arithmetic::power2::lemma2_to64();
    vstd::arithmetic::power2::lemma_pow2_adds(10, 1214);
    binary64::lemma_nearest_between(
        m * 100,
        1,
        h,
        binary64::power_pattern(934),
        binary64::power_pattern(1224),
    );
    accuracy::lemma_rounding_error(m * 100, 1, h);
    vstd::arithmetic::div_mod::lemma_fundamental_div_mod(x as int, o as int);
    let left = x % o;
    assert(r * o <= x < (r + 1) * o) by (nonlinear_arith)
        requires
            x == o * r + left,
            left < o,
    ;
    let a = percent * d;
    let b = (r + 1) * d;
    let md = m * d;
    let xd = x * d;
    assert(a * o <= xd) by (nonlinear_arith)
        requires
            a == percent * d,
            percent <= r,
            r * o <= x,
            xd == x * d,
    ;
    assert(xd <= b * o) by (nonlinear_arith)
        requires
            b == (r + 1) * d,
            x < (r + 1) * o,
            xd == x * d,
    ;
    assert(0x1F_FFFF_FFFF_FFFF * xd <= 0x20_0000_0000_0000 * (100 * md)) by (nonlinear_arith)
        requires
            0x1F_FFFF_FFFF_FFFF * (x * 1) <= 0x20_0000_0000_0000 * (m * 100),
            xd == x * d,
            md == m * d,
    ;
    assert(0x20_0000_0000_0000 * (100 * md) <= 0x20_0000_0000_0001 * xd) by (nonlinear_arith)
        requires
            0x20_0000_0000_0000 * (m * 100) <= 0x20_0000_0000_0001 * (x * 1),
            xd == x * d,
            md == m * d,
    ;
    let eo = e * o;
    assert(0xFFFF_FFFF_FFFF * (a * o) <= 0x1_0000_0000_0000 * (100 * eo));
    assert(0xFFFF_FFFF_FFFF * (100 * eo) <= 0x1_0000_0000_0000 * (b * o));
    assert(0xFFFF_FFFF_FFFF * a <= 0x1_0000_0000_0000 * (100 * e)) by (nonlinear_arith)
        requires
            0xFFFF_FFFF_FFFF * (a * o) <= 0x1_0000_0000_0000 * (100 * (e * o)),
            o > 0,
    ;
    assert(0xFFFF_FFFF_FFFF * (100 * e) <= 0x1_0000_0000_0000 * b) by (nonlinear_arith)
        requires
            0xFFFF_FFFF_FFFF * (100 * (e * o)) <= 0x1_0000_0000_0000 * (b * o),
            o > 0,
    ;
}

} // verus!
