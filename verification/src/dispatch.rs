//! Which virtual user takes an iteration.
use vstd::arithmetic::div_mod::*;
use vstd::prelude::*;

verus! {

/// What became of handing an iteration to the channel of a virtual user.
#[derive(Clone, Copy, PartialEq, Eq, Structural, Debug)]
pub enum Handover {
    Sent,
    Full,
    Closed,
}

/// Why a virtual user did not start an iteration.
#[derive(Clone, Copy, PartialEq, Eq, Structural, Debug)]
pub enum StartError {
    Occupied,
    Failed,
}

/// Whether a virtual user started an iteration that was handed to it.
pub open spec fn started(handover: Handover) -> Result<(), StartError> {
    match handover {
        Handover::Sent => Ok(()),
        Handover::Full => Err(StartError::Occupied),
        Handover::Closed => Err(StartError::Failed),
    }
}

/// Whether a virtual user started an iteration: its channel holds one at a time, so a full
/// channel means that it is occupied, and a closed one that it is gone.
pub fn start_iteration(handover: Handover) -> (r: Result<(), StartError>)
    ensures
        r == started(handover),
{
    match handover {
        Handover::Sent => Ok(()),
        Handover::Full => Err(StartError::Occupied),
        Handover::Closed => Err(StartError::Failed),
    }
}

/// What became of an iteration that did not fail.
#[derive(Clone, Copy, PartialEq, Eq, Structural, Debug)]
pub enum DispatchOk {
    Started,
    Skip,
}

/// What one attempt to start an iteration amounts to.
pub open spec fn dispatched(start: Result<(), StartError>) -> Result<DispatchOk, ()> {
    match start {
        Ok(_) => Ok(DispatchOk::Started),
        Err(StartError::Occupied) => Ok(DispatchOk::Skip),
        Err(StartError::Failed) => Err(()),
    }
}

/// Tries one virtual user after the other, in turn.
pub struct RoundRobinDispatcher {
    next: usize,
}

impl View for RoundRobinDispatcher {
    type V = nat;

    closed spec fn view(&self) -> nat {
        self.next as nat
    }
}

impl Default for RoundRobinDispatcher {
    /// Starts with the first virtual user.
    fn default() -> (r: Self)
        ensures
            r@ == 0,
    {
        RoundRobinDispatcher { next: 0 }
    }
}

impl RoundRobinDispatcher {
    /// The virtual user to try next.
    pub fn target(&self) -> (r: usize)
        ensures
            r == self@,
    {
        self.next
    }

    /// Takes in what became of the attempt with the current virtual user of `count`, and
    /// turns to the one after it.
    pub fn dispatch_iteration(&mut self, count: usize, start: Result<(), StartError>) -> (r: Result<
        DispatchOk,
        (),
    >)
        requires
            old(self)@ < count,
        ensures
            r == dispatched(start),
            final(self)@ == (old(self)@ + 1) % count as nat,
            final(self)@ < count,
    {
        let r = match start {
            Ok(_) => Ok(DispatchOk::Started),
            Err(StartError::Occupied) => Ok(DispatchOk::Skip),
            Err(StartError::Failed) => Err(()),
        };
        self.next = (self.next + 1) % count;
        r
    }
}

/// What is to be done about an iteration.
#[derive(Clone, Copy, PartialEq, Eq, Debug)]
pub enum DispatchStep {
    /// Try this virtual user, and tell what became of it.
    Try(usize),
    /// Nothing more: this is what became of the iteration.
    Finished(Result<DispatchOk, ()>),
}

/// Tries virtual users in turn, up to a number of attempts for each iteration.
pub struct RetryDispatcher {
    inner: RoundRobinDispatcher,
    max_iters: usize,
    attempts: usize,
}

/// The state of a `RetryDispatcher`, in terms of plain values.
pub struct RetryView {
    pub next: nat,
    pub max_iters: nat,
    pub attempts: nat,
}

impl View for RetryDispatcher {
    type V = RetryView;

    closed spec fn view(&self) -> RetryView {
        RetryView {
            next: self.inner@,
            max_iters: self.max_iters as nat,
            attempts: self.attempts as nat,
        }
    }
}

impl RetryView {
    /// The step that follows when `attempts` attempts have been made in vain.
    pub open spec fn step(self) -> DispatchStep {
        if self.attempts < self.max_iters {
            DispatchStep::Try(self.next as usize)
        } else {
            DispatchStep::Finished(Ok(DispatchOk::Skip))
        }
    }

    /// The state at the beginning of an iteration.
    pub open spec fn begun(self) -> RetryView {
        RetryView { attempts: 0, ..self }
    }

    /// The state and the step after an attempt.
    pub open spec fn told(self, count: nat, start: Result<(), StartError>) -> (
        RetryView,
        DispatchStep,
    ) {
        let next = (self.next + 1) % count;
        match dispatched(start) {
            Ok(DispatchOk::Skip) => {
                let after = RetryView { next, attempts: self.attempts + 1, ..self };
                (after, after.step())
            },
            result => (RetryView { next, ..self }, DispatchStep::Finished(result)),
        }
    }
}

impl RetryDispatcher {
    /// Makes up to `max_iters` attempts, by what `inner` says.
    pub fn new(inner: RoundRobinDispatcher, max_iters: usize) -> (r: Self)
        ensures
            r@ == (RetryView { next: inner@, max_iters: max_iters as nat, attempts: 0 }),
    {
        RetryDispatcher { inner, max_iters, attempts: 0 }
    }

    /// The first step for a new iteration.
    pub fn begin(&mut self) -> (r: DispatchStep)
        ensures
            final(self)@ == old(self)@.begun(),
            r == old(self)@.begun().step(),
    {
        self.attempts = 0;
        if self.attempts < self.max_iters {
            DispatchStep::Try(self.inner.target())
        } else {
            DispatchStep::Finished(Ok(DispatchOk::Skip))
        }
    }

    /// The next step, after an attempt with the virtual user that was to be tried, one of
    /// `count`.
    pub fn dispatch_iteration(&mut self, count: usize, start: Result<(), StartError>) -> (r:
        DispatchStep)
        requires
            old(self)@.next < count,
            old(self)@.attempts < old(self)@.max_iters,
        ensures
            (final(self)@, r) == old(self)@.told(count as nat, start),
            final(self)@.next < count,
    {
        match self.inner.dispatch_iteration(count, start) {
            Ok(DispatchOk::Started) => DispatchStep::Finished(Ok(DispatchOk::Started)),
            Err(_) => DispatchStep::Finished(Err(())),
            Ok(DispatchOk::Skip) => {
                self.attempts = self.attempts + 1;
                if self.attempts < self.max_iters {
                    DispatchStep::Try(self.inner.target())
                } else {
                    DispatchStep::Finished(Ok(DispatchOk::Skip))
                }
            },
        }
    }
}

/// A new iteration, and what becomes of it when the attempts end as in `starts`.
pub open spec fn run(s: RetryView, count: nat, starts: Seq<Result<(), StartError>>) -> (
    RetryView,
    DispatchStep,
)
    decreases starts.len(),
{
    if starts.len() == 0 {
        (s.begun(), s.begun().step())
    } else {
        let (before, step) = run(s, count, starts.drop_last());
        if step is Finished {
            (before, step)
        } else {
            before.told(count, starts.last())
        }
    }
}

/// One step around a circle of `count` places.
proof fn lemma_turn(a: nat, n: nat, count: nat)
    requires
        count > 0,
    ensures
        ((a + n) % count + 1) % count == (a + n + 1) % count,
{
    lemma_add_mod_noop((a + n) as int, 1, count as int);
    lemma_mod_twice((a + n) as int, count as int);
    lemma_add_mod_noop(((a + n) % count) as int, 1, count as int);
}

/// While the virtual users are occupied, they are tried in turn, each attempt one place
/// further around the circle, until the attempts are used up and the iteration is skipped.
pub proof fn law_occupied_users_are_passed_over(
    s: RetryView,
    count: nat,
    starts: Seq<Result<(), StartError>>,
)
    requires
        s.next < count <= usize::MAX,
        starts.len() <= s.max_iters,
        forall|i: int|
            0 <= i < starts.len() ==> #[trigger] starts[i] == Err::<(), StartError>(
                StartError::Occupied,
            ),
    ensures
        run(s, count, starts).0 == (RetryView {
            next: (s.next + starts.len()) % count,
            attempts: starts.len(),
            ..s
        }),
        run(s, count, starts).1 == if starts.len() < s.max_iters {
            DispatchStep::Try(((s.next + starts.len()) % count) as usize)
        } else {
            DispatchStep::Finished(Ok(DispatchOk::Skip))
        },
    decreases starts.len(),
{
    if starts.len() == 0 {
        lemma_small_mod(s.next, count);
    } else {
        let less = starts.drop_last();
        assert forall|i: int| 0 <= i < less.len() implies #[trigger] less[i] == Err::<
            (),
            StartError,
        >(StartError::Occupied) by {
            assert(less[i] == starts[i]);
        }
        law_occupied_users_are_passed_over(s, count, less);
        lemma_turn(s.next, less.len(), count);
        assert(starts.last() == starts[starts.len() - 1]);
    }
}

/// The first attempt that does not find its virtual user occupied decides: the iteration is
/// started, or it fails; and the next iteration goes to the virtual user after that one.
pub proof fn law_first_free_user_decides(
    s: RetryView,
    count: nat,
    starts: Seq<Result<(), StartError>>,
)
    requires
        s.next < count <= usize::MAX,
        0 < starts.len() <= s.max_iters,
        forall|i: int|
            0 <= i < starts.len() - 1 ==> #[trigger] starts[i] == Err::<(), StartError>(
                StartError::Occupied,
            ),
        starts.last() != Err::<(), StartError>(StartError::Occupied),
    ensures
        run(s, count, starts).0.next == (s.next + starts.len()) % count,
        run(s, count, starts).1 == DispatchStep::Finished(dispatched(starts.last())),
{
    let less = starts.drop_last();
    assert forall|i: int| 0 <= i < less.len() implies #[trigger] less[i] == Err::<(), StartError>(
        StartError::Occupied,
    ) by {
        assert(less[i] == starts[i]);
    }
    law_occupied_users_are_passed_over(s, count, less);
    lemma_turn(s.next, less.len(), count);
}

/// As many attempts as there are virtual users reach every one of them.
pub proof fn law_every_user_has_a_turn(next: nat, count: nat, user: nat) -> (n: nat)
    requires
        next < count,
        user < count,
    ensures
        n < count,
        (next + n) % count == user,
        forall|m: nat| m < count && #[trigger] ((next + m) % count) == user ==> m == n,
{
    let n = if user >= next {
        (user - next) as nat
    } else {
        (count + user - next) as nat
    };
    if user >= next {
        lemma_small_mod(user, count);
    } else {
        lemma_mod_add_multiples_vanish(user as int, count as int);
        lemma_small_mod(user, count);
    }
    assert forall|m: nat| m < count && #[trigger] ((next + m) % count) == user implies m == n by {
        if next + m < count {
            lemma_small_mod(next + m, count);
        } else {
            let low = (next + m - count) as nat;
            lemma_mod_add_multiples_vanish(low as int, count as int);
            lemma_small_mod(low, count);
        }
    }
    n
}

/// The attempts that some handovers are.
pub open spec fn starts_of(handovers: Seq<Handover>) -> Seq<Result<(), StartError>> {
    handovers.map_values(|h: Handover| started(h))
}

/// An iteration is started by the first virtual user that takes it, and fails with the first that
/// is gone; both only after virtual users whose channels are full. It is skipped where as many
/// channels are full as attempts are made.
pub proof fn law_what_becomes_of_an_iteration(s: RetryView, count: nat, handovers: Seq<Handover>)
    requires
        s.next < count <= usize::MAX,
        0 < handovers.len() <= s.max_iters,
        forall|i: int|
            0 <= i < handovers.len() - 1 ==> #[trigger] handovers[i] == Handover::Full,
    ensures
        handovers.last() == Handover::Sent ==> run(s, count, starts_of(handovers)).1
            == DispatchStep::Finished(Ok(DispatchOk::Started)),
        handovers.last() == Handover::Closed ==> run(s, count, starts_of(handovers)).1
            == DispatchStep::Finished(Err(())),
        handovers.last() == Handover::Full && handovers.len() == s.max_iters ==> run(
            s,
            count,
            starts_of(handovers),
        ).1 == DispatchStep::Finished(Ok(DispatchOk::Skip)),
        handovers.last() == Handover::Full && handovers.len() < s.max_iters ==> run(
            s,
            count,
            starts_of(handovers),
        ).1 == DispatchStep::Try(((s.next + handovers.len()) % count) as usize),
        run(s, count, starts_of(handovers)).0.next == (s.next + handovers.len()) % count,
        run(s, count, starts_of(handovers)).0.max_iters == s.max_iters,
{
    let starts = starts_of(handovers);
    assert(starts.last() == started(handovers.last()));
    assert forall|i: int| 0 <= i < starts.len() - 1 implies #[trigger] starts[i] == Err::<
        (),
        StartError,
    >(StartError::Occupied) by {
        assert(handovers[i] == Handover::Full);
    }
    if handovers.last() == Handover::Full {
        assert forall|i: int| 0 <= i < starts.len() implies #[trigger] starts[i] == Err::<
            (),
            StartError,
        >(StartError::Occupied) by {
            if i == starts.len() - 1 {
                assert(starts[i] == starts.last());
            }
        }
        law_occupied_users_are_passed_over(s, count, starts);
    } else {
        law_first_free_user_decides(s, count, starts);
        let less = starts.drop_last();
        assert forall|i: int| 0 <= i < less.len() implies #[trigger] less[i] == Err::<
            (),
            StartError,
        >(StartError::Occupied) by {
            assert(less[i] == starts[i]);
        }
        law_occupied_users_are_passed_over(s, count, less);
    }
}

/// After an attempt the turn is that of the next virtual user, whatever became of the attempt. One
/// that was taken or failed ends the iteration, and after one that found its virtual user occupied
/// another one follows as long as attempts are left.
pub proof fn law_turns_go_around(
    d: &mut RetryDispatcher,
    count: usize,
    start: Result<(), StartError>,
    step: DispatchStep,
)
    requires
        old(d)@.next < count,
        call_ensures(RetryDispatcher::dispatch_iteration, (d, count, start), step),
    ensures
        final(d)@.next == if old(d)@.next + 1 == count {
            0
        } else {
            old(d)@.next + 1
        },
        final(d)@.max_iters == old(d)@.max_iters,
        match start {
            Ok(_) => step == DispatchStep::Finished(Ok(DispatchOk::Started)),
            Err(StartError::Failed) => step == DispatchStep::Finished(Err(())),
            Err(StartError::Occupied) => final(d)@.attempts == old(d)@.attempts + 1 && step
                == if old(d)@.attempts + 1 < old(d)@.max_iters {
                DispatchStep::Try(final(d)@.next as usize)
            } else {
                DispatchStep::Finished(Ok(DispatchOk::Skip))
            },
        },
{
    if old(d)@.next + 1 == count {
        lemma_mod_self_0(count as int);
    } else {
        lemma_small_mod(old(d)@.next + 1, count as nat);
    }
}

/// The first attempt of an iteration is with the virtual user whose turn it is, however many
/// attempts were made for the one before. Where no attempts are to be made, it is skipped.
pub proof fn law_first_attempt(d: &mut RetryDispatcher, step: DispatchStep)
    requires
        call_ensures(RetryDispatcher::begin, (d,), step),
    ensures
        final(d)@.next == old(d)@.next,
        final(d)@.max_iters == old(d)@.max_iters,
        final(d)@.attempts == 0,
        old(d)@.max_iters > 0 ==> step == DispatchStep::Try(old(d)@.next as usize),
        old(d)@.max_iters == 0 ==> step == DispatchStep::Finished(Ok(DispatchOk::Skip)),
{
}

/// A dispatcher that is new begins with the first virtual user, and makes as many attempts as it is
/// told to.
pub proof fn law_dispatcher_begins_with_the_first_user(
    inner: RoundRobinDispatcher,
    target: usize,
    max_iters: usize,
    r: RetryDispatcher,
)
    requires
        call_ensures(RoundRobinDispatcher::default, (), inner),
        call_ensures(RoundRobinDispatcher::target, (&inner,), target),
        call_ensures(RetryDispatcher::new, (inner, max_iters), r),
    ensures
        target == 0,
        r@.next == 0,
        r@.max_iters == max_iters,
        r@.attempts == 0,
{
}

/// Virtual users take turns, one after the other and then from the first on again, whatever became
/// of an attempt.
pub proof fn law_users_take_turns(
    d: &mut RoundRobinDispatcher,
    count: usize,
    start: Result<(), StartError>,
    r: Result<DispatchOk, ()>,
)
    requires
        old(d)@ < count,
        call_ensures(RoundRobinDispatcher::dispatch_iteration, (d, count, start), r),
    ensures
        final(d)@ == if old(d)@ + 1 == count {
            0
        } else {
            old(d)@ + 1
        },
        r is Ok == !(start == Err::<(), StartError>(StartError::Failed)),
        r == Ok::<DispatchOk, ()>(DispatchOk::Started) <==> start is Ok,
{
    if old(d)@ + 1 == count {
        lemma_mod_self_0(count as int);
    } else {
        lemma_small_mod(old(d)@ + 1, count as nat);
    }
}

} // verus!
