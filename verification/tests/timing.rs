use std::time::Duration;
use wrk3::config::Stage;
use wrk3::dispatch::{
    start_iteration, DispatchOk, DispatchStep, Handover, RetryDispatcher, RoundRobinDispatcher,
    StartError,
};
use wrk3::dt::{Binary64, LuaDt};
use wrk3::run::{run_result, RunAction, RunError, RunEvent, WorkloadRun};
use wrk3::schedule::SteppedRateSchedule;
use wrk3::vu::{MainCtx, VuTimer};
use wrk3::metric::{DataPoint, MetricData};

fn stage(millis: u64, rate: f64) -> Stage {
    Stage { duration: at(millis), rate: Binary64 { bits: rate.to_bits() } }
}

fn at(millis: u64) -> LuaDt {
    LuaDt::from_parts(millis / 1000, (millis % 1000) as u32 * 1_000_000)
}

fn duration(t: LuaDt) -> Duration {
    Duration::new(t.as_secs(), t.subsec_nanos())
}

/// The events of a stage as plain arithmetic on std's types gives them.
fn due(rate: f64, length: Duration, now: Duration) -> usize {
    let delay = Duration::from_secs_f64(rate.recip());
    let now = now.min(length);
    if now.is_zero() {
        return 0;
    }
    (now.as_secs_f64() / delay.as_secs_f64()) as usize
}

#[test]
fn a_stage_releases_its_events() {
    for rate in [1.0, 3.0, 7.5, 10.0, 333.3, 0.5] {
        let stages = vec![stage(2000, rate)];
        let start = at(500);
        assert!(SteppedRateSchedule::check_schedulable(start, &stages));
        let mut schedule = SteppedRateSchedule::new(start, &stages);
        let mut total = 0;
        for millis in (500..3000).step_by(37) {
            total += schedule.advance(at(millis));
            let expected = due(rate, Duration::from_secs(2), Duration::from_millis(millis - 500));
            assert_eq!(total, expected);
        }
        assert_eq!(total, due(rate, Duration::from_secs(2), Duration::from_secs(2)));
        assert!(schedule.next_event_time().is_none());
        assert_eq!(schedule.advance(at(9000)), 0);
    }
}

#[test]
fn the_next_event_follows_the_last() {
    let stages = vec![stage(1000, 4.0)];
    let mut schedule = SteppedRateSchedule::new(at(0), &stages);
    assert_eq!(schedule.next_event_time(), Some(at(250)));
    assert_eq!(schedule.advance(at(249)), 0);
    assert_eq!(schedule.next_event_time(), Some(at(250)));
    assert_eq!(schedule.advance(at(250)), 1);
    assert_eq!(schedule.next_event_time(), Some(at(500)));
    assert_eq!(schedule.advance(at(800)), 2);
    assert_eq!(schedule.next_event_time(), Some(at(1000)));
    assert_eq!(schedule.advance(at(1000)), 1);
    assert_eq!(schedule.next_event_time(), None);
}

#[test]
fn the_next_event_is_not_past() {
    for rate in [0.3, 1.0, 3.0, 7.0, 49.0, 333.3, 1000.0 / 3.0] {
        let stages = vec![stage(3000, rate)];
        let mut schedule = SteppedRateSchedule::new(at(0), &stages);
        for millis in (0..3000).step_by(13) {
            schedule.advance(at(millis));
            let next = schedule.next_event_time().unwrap();
            assert!(!next.before(&at(millis)));
        }
    }
}

#[test]
fn stages_follow_one_another() {
    let stages = vec![stage(1000, 2.0), stage(500, 20.0), stage(1000, 1.0)];
    let mut one_step = SteppedRateSchedule::new(at(100), &stages);
    assert_eq!(one_step.advance(at(5000)), 2 + 10 + 1);
    let mut many_steps = SteppedRateSchedule::new(at(100), &stages);
    let mut total = 0;
    for millis in (100..2700).step_by(61) {
        total += many_steps.advance(at(millis));
    }
    assert_eq!(total, 13);
    assert!(many_steps.next_event_time().is_none());
}

#[test]
fn progress_is_a_part_of_the_whole() {
    let stages = vec![stage(1000, 2.0), stage(2000, 20.0)];
    let mut schedule = SteppedRateSchedule::new(at(0), &stages);
    assert_eq!(schedule.progress(), Some(Binary64 { bits: 0 }));
    assert_eq!(schedule.position(), 0);
    for millis in [1, 100, 1000, 1499, 1500, 2999, 3000, 7000] {
        schedule.advance(at(millis));
        let expected = Duration::from_millis(millis).as_secs_f64() / 3.0;
        assert_eq!(schedule.progress(), Some(Binary64 { bits: expected.to_bits() }));
        assert_eq!(schedule.position(), (expected * 100.0) as u64);
    }
    let mut whole = SteppedRateSchedule::new(at(700), &stages);
    whole.advance(at(3700));
    assert_eq!(whole.progress(), Some(Binary64 { bits: 1.0f64.to_bits() }));
    assert_eq!(whole.position(), 100);
    whole.advance(at(6700));
    assert_eq!(whole.progress(), Some(Binary64 { bits: 2.0f64.to_bits() }));
    let mut empty = SteppedRateSchedule::new(at(0), &vec![]);
    assert_eq!(empty.progress(), None);
    assert_eq!(empty.position(), f64::NAN as u64);
    empty.advance(at(1));
    assert_eq!(empty.progress(), Some(Binary64 { bits: f64::INFINITY.to_bits() }));
    assert_eq!(empty.position(), f64::INFINITY as u64);
}

#[test]
fn impossible_schedules_are_told() {
    let check = |s: Vec<Stage>| SteppedRateSchedule::check_schedulable(at(0), &s);
    assert!(check(vec![]));
    assert!(check(vec![stage(1, 1e9)]));
    assert!(!check(vec![stage(1000, 0.0)]));
    assert!(!check(vec![stage(1000, -1.0)]));
    assert!(!check(vec![stage(1000, f64::NAN)]));
    assert!(!check(vec![stage(1000, 1e-300)]));
    let most = Stage {
        duration: LuaDt::from_parts(u64::MAX, 999_999_999),
        rate: Binary64 { bits: 1.0f64.to_bits() },
    };
    assert!(!check(vec![most, most]));
}

#[test]
fn events_that_do_not_fit_are_told() {
    let stages = vec![stage(1000, 10.0)];
    let mut schedule = SteppedRateSchedule::new(at(0), &stages);
    assert!(schedule.check_advance(at(500)));
    assert_eq!(schedule.advance(at(500)), 5);
    // The clock went back.
    assert!(!schedule.check_advance(at(100)));
    assert!(schedule.check_advance(at(1000)));
    assert!(schedule.check_next_event());
    assert_eq!(schedule.next_event_time(), Some(at(600)));
}

#[test]
fn handovers() {
    assert_eq!(start_iteration(Handover::Sent), Ok(()));
    assert_eq!(start_iteration(Handover::Full), Err(StartError::Occupied));
    assert_eq!(start_iteration(Handover::Closed), Err(StartError::Failed));
}

#[test]
fn users_take_turns() {
    let mut d = RoundRobinDispatcher::default();
    let mut tried = vec![];
    for _ in 0..7 {
        tried.push(d.target());
        assert_eq!(d.dispatch_iteration(3, Ok(())), Ok(DispatchOk::Started));
    }
    assert_eq!(tried, [0, 1, 2, 0, 1, 2, 0]);
    assert_eq!(d.dispatch_iteration(3, Err(StartError::Occupied)), Ok(DispatchOk::Skip));
    assert_eq!(d.dispatch_iteration(3, Err(StartError::Failed)), Err(()));
    assert_eq!(d.target(), 0);
}

#[test]
fn occupied_users_are_passed_over() {
    let mut d = RetryDispatcher::new(RoundRobinDispatcher::default(), 3);
    assert_eq!(d.begin(), DispatchStep::Try(0));
    assert_eq!(d.dispatch_iteration(4, Err(StartError::Occupied)), DispatchStep::Try(1));
    assert_eq!(d.dispatch_iteration(4, Err(StartError::Occupied)), DispatchStep::Try(2));
    assert_eq!(
        d.dispatch_iteration(4, Err(StartError::Occupied)),
        DispatchStep::Finished(Ok(DispatchOk::Skip))
    );
    assert_eq!(d.begin(), DispatchStep::Try(3));
    assert_eq!(d.dispatch_iteration(4, Ok(())), DispatchStep::Finished(Ok(DispatchOk::Started)));
    assert_eq!(d.begin(), DispatchStep::Try(0));
    assert_eq!(d.dispatch_iteration(4, Err(StartError::Failed)), DispatchStep::Finished(Err(())));
    let mut never = RetryDispatcher::new(RoundRobinDispatcher::default(), 0);
    assert_eq!(never.begin(), DispatchStep::Finished(Ok(DispatchOk::Skip)));
}

fn is_count(point: &DataPoint, metric: &str, time: LuaDt) -> bool {
    point.metric == metric
        && point.timestamp == time
        && point.values.len() == 1
        && matches!(point.values.get("value"), Some(MetricData::Int(1)))
}

fn is_time(point: &DataPoint, metric: &str, time: LuaDt, length: LuaDt) -> bool {
    point.metric == metric
        && point.timestamp == time
        && point.values.len() == 1
        && matches!(point.values.get("duration"), Some(MetricData::Dt(t)) if *t == length)
}

fn new_run(stages: Vec<Stage>, attempts: usize, users: usize) -> (WorkloadRun, RunAction) {
    let start = at(2000);
    let schedule = SteppedRateSchedule::new(start, &stages);
    let dispatcher = RetryDispatcher::new(RoundRobinDispatcher::default(), attempts);
    WorkloadRun::new(start, schedule, dispatcher, users)
}

fn step(run: &mut WorkloadRun, event: RunEvent) -> RunAction {
    assert!(run.accepts(event));
    run.step(event)
}

/// What became of a run: the users that were tried, and the iterations that were skipped and
/// completed.
fn drive(
    mut run: WorkloadRun,
    first: RunAction,
    late: u64,
    handover: fn(usize) -> Handover,
) -> (Vec<usize>, usize, usize) {
    let start = at(2000);
    let mut now = start;
    let mut action = first;
    let mut tried = vec![];
    let (mut skipped, mut completed) = (0, 0);
    loop {
        let event = match action {
            RunAction::LookAtClock => RunEvent::Now(now),
            RunAction::Try { user, num } => {
                assert_eq!(num, skipped + completed);
                tried.push(user);
                RunEvent::Tried(handover(tried.len()))
            }
            RunAction::Report(report) => {
                assert_eq!(report.num, skipped + completed);
                let time = now.sub(&start);
                assert!(is_count(&report.points.0, "wrk3.iterations.d", time));
                if report.skipped {
                    skipped += 1;
                    assert!(is_count(&report.points.1, "wrk3.skipped_iterations.d", time));
                } else {
                    completed += 1;
                    assert!(is_count(&report.points.1, "wrk3.completed_iterations.d", time));
                }
                RunEvent::Reported
            }
            RunAction::SleepUntil(t) => {
                let woken = t.checked_add(&at(late)).unwrap();
                now = if woken.before(&now) { now } else { woken };
                RunEvent::Woke
            }
            RunAction::Finish => return (tried, skipped, completed),
            RunAction::Fail(e) => panic!("{}", e.message()),
        };
        action = step(&mut run, event);
    }
}

#[test]
fn a_run_dispatches_the_whole_workload() {
    for late in [1, 7, 130, 999, 5000] {
        let (run, first) = new_run(vec![stage(1000, 4.0), stage(500, 20.0)], 2, 3);
        let (tried, skipped, completed) = drive(run, first, late, |_| Handover::Sent);
        assert_eq!((skipped, completed), (0, 14));
        let turns: Vec<usize> = (0..14).map(|i| i % 3).collect();
        assert_eq!(tried, turns);
    }
}

#[test]
fn a_run_skips_what_no_user_takes() {
    let (run, first) = new_run(vec![stage(1000, 3.0)], 2, 4);
    let handover = |n: usize| if n <= 3 { Handover::Full } else { Handover::Sent };
    let (tried, skipped, completed) = drive(run, first, 10, handover);
    // Twice in vain, then once in vain and once more, then at once.
    assert_eq!(tried, [0, 1, 2, 3, 0]);
    assert_eq!((skipped, completed), (1, 2));

    let (run, first) = new_run(vec![stage(1000, 3.0)], 0, 4);
    let (tried, skipped, completed) = drive(run, first, 10, |_| Handover::Sent);
    assert!(tried.is_empty());
    assert_eq!((skipped, completed), (3, 0));
}

#[test]
fn a_run_tells_when_to_look_again() {
    let (mut run, first) = new_run(vec![stage(1000, 4.0)], 1, 1);
    assert!(matches!(first, RunAction::LookAtClock));
    let action = step(&mut run, RunEvent::Now(at(2000)));
    assert!(matches!(action, RunAction::SleepUntil(t) if t == at(2250)));
    assert_eq!((run.position(), run.pending()), (0, 0));
    assert!(matches!(step(&mut run, RunEvent::Woke), RunAction::LookAtClock));
    assert!(matches!(step(&mut run, RunEvent::Now(at(2600))), RunAction::LookAtClock));
    assert_eq!((run.position(), run.pending()), (60, 2));
    assert!(!run.accepts(RunEvent::Woke));
    for num in 0..2 {
        let action = step(&mut run, RunEvent::Now(at(2601)));
        assert!(matches!(action, RunAction::Try { user: 0, num: n } if n == num));
        let action = step(&mut run, RunEvent::Tried(Handover::Sent));
        assert!(matches!(action, RunAction::Report(_)));
        let action = step(&mut run, RunEvent::Reported);
        if num == 0 {
            assert!(matches!(action, RunAction::LookAtClock));
        } else {
            assert!(matches!(action, RunAction::SleepUntil(t) if t == at(2250)));
        }
    }
    assert!(matches!(step(&mut run, RunEvent::Woke), RunAction::LookAtClock));
    // The clock went back.
    assert!(!run.accepts(RunEvent::Now(at(2100))));
}

#[test]
fn what_ends_a_run() {
    let begin = || {
        let (mut run, _) = new_run(vec![stage(1000, 4.0)], 1, 1);
        step(&mut run, RunEvent::Now(at(2300)));
        let action = step(&mut run, RunEvent::Now(at(2300)));
        assert!(matches!(action, RunAction::Try { .. }));
        run
    };
    let mut run = begin();
    let action = step(&mut run, RunEvent::Tried(Handover::Closed));
    assert!(matches!(action, RunAction::Fail(RunError::VuFailed)));
    assert!(!run.accepts(RunEvent::Reported));
    let mut run = begin();
    step(&mut run, RunEvent::Tried(Handover::Full));
    let action = step(&mut run, RunEvent::CollectorGone);
    assert!(matches!(action, RunAction::Fail(RunError::CollectorGone)));
    assert_eq!(RunError::VuFailed.message(), "vu failed");
    assert_eq!(RunError::CollectorGone.message(), "channel closed");
    let (mut run, _) = new_run(vec![], 1, 1);
    assert!(matches!(step(&mut run, RunEvent::Now(at(2000))), RunAction::Finish));
}

#[test]
fn the_errors_of_users_come_first() {
    let (pool, schedule, metrics) = (Err("pool"), Err("schedule"), Err("metrics"));
    assert_eq!(run_result(pool, schedule, metrics), pool);
    assert_eq!(run_result(pool, Ok(()), Ok(())), pool);
    assert_eq!(run_result(Ok(()), schedule, metrics), schedule);
    assert_eq!(run_result(Ok(()), schedule, Ok(())), schedule);
    assert_eq!(run_result(Ok(()), Ok(()), metrics), metrics);
    assert_eq!(run_result::<&str>(Ok(()), Ok(()), Ok(())), Ok(()));
}

#[test]
fn active_and_inactive_times() {
    let mut timer = VuTimer::new(at(100));
    let (active, inactive) = timer.finish_run(at(150), at(400), at(120));
    assert!(is_time(&active, "wrk3.vu_active", at(30), at(250)));
    assert!(is_time(&inactive, "wrk3.vu_inactive", at(30), at(50)));
    let (active, inactive) = timer.finish_run(at(400), at(410), at(120));
    assert!(is_time(&active, "wrk3.vu_active", at(280), at(10)));
    assert!(is_time(&inactive, "wrk3.vu_inactive", at(280), LuaDt::zero()));
    // A run before the start bears the time zero.
    let mut early = VuTimer::new(at(0));
    let (active, inactive) = early.finish_run(at(5), at(6), at(1000));
    assert!(is_time(&active, "wrk3.vu_active", LuaDt::zero(), at(1)));
    assert!(is_time(&inactive, "wrk3.vu_inactive", LuaDt::zero(), at(5)));
    assert_eq!(duration(at(1234)), Duration::from_millis(1234));
}

#[test]
fn iterations_have_their_own_seeds() {
    assert_eq!(MainCtx { iteration: 0 }.seed(), 0);
    assert_eq!(MainCtx { iteration: 17 }.seed(), 17);
}
