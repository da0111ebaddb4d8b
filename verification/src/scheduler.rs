//! A recurring-task dispatcher: named, zero-argument jobs are registered with
//! a fixed repeat interval, then drained into a min-priority queue keyed by
//! each job's next due instant. The host pops the earliest occurrence, waits
//! until it is due, launches its handler concurrently, and reinserts the
//! occurrence one interval later, so the nominal schedule never drifts.
//!
//! Time is a monotonic tick count (`u64`); the handler is an opaque type
//! parameter `H` that the dispatcher carries but never invokes.

use vstd::prelude::*;

verus! {

use vstd::multiset::Multiset;

/// Mathematical model of one registration: a job name and its repeat interval.
#[verifier::ext_equal]
pub ghost struct ScheduleModel {
    pub name: Seq<char>,
    pub interval: int,
}

/// Mathematical model of one scheduled occurrence.
#[verifier::ext_equal]
pub ghost struct TaskModel {
    pub name: Seq<char>,
    /// Next due instant, on the monotonic clock.
    pub at: int,
    /// Wall-clock instant at which the occurrence was first enqueued.
    pub created_wall: int,
    /// Monotonic instant at the same moment, used to translate `at` back
    /// into wall-clock time.
    pub created_mono: int,
    pub interval: int,
}

/// Mathematical model of the whole dispatcher: the registrations not yet
/// drained, and the pending occurrences (one per job once started).
#[verifier::ext_equal]
pub ghost struct SchedulerModel {
    pub schedules: Seq<ScheduleModel>,
    pub queue: Seq<TaskModel>,
}

/// An occurrence is well formed when its interval is positive and its due
/// instant never lies before the moment it was first enqueued.
pub open spec fn task_wf(t: TaskModel) -> bool {
    &&& t.interval > 0
    &&& t.created_mono <= t.at
}

/// The dispatcher's invariant: every registration has a positive interval and
/// every queued occurrence is well formed.
pub open spec fn scheduler_wf(m: SchedulerModel) -> bool {
    &&& forall|i: int| 0 <= i < m.schedules.len() ==> (#[trigger] m.schedules[i]).interval > 0
    &&& forall|i: int| 0 <= i < m.queue.len() ==> task_wf(#[trigger] m.queue[i])
}

/// One rescheduling step: the next occurrence is due exactly one interval
/// after the previous one — never one interval after the actual fire time.
pub open spec fn advance(t: TaskModel) -> TaskModel {
    TaskModel { at: t.at + t.interval, ..t }
}

/// `n` consecutive rescheduling steps.
pub open spec fn advance_n(t: TaskModel, n: nat) -> TaskModel
    decreases n,
{
    if n == 0 {
        t
    } else {
        advance(advance_n(t, (n - 1) as nat))
    }
}

/// What a launched occurrence reported when it resolved. The dispatcher only
/// observes outcomes; scheduling never depends on them.
#[derive(Clone, Copy, Debug, PartialEq, Eq, Structural)]
pub enum Outcome {
    Success,
    Failure,
}

/// One entry for the observability hook: which job fired, what its handler
/// reported, when the occurrence was nominally due, and when it actually
/// fired.
pub struct FireRecord {
    pub name: String,
    pub outcome: Outcome,
    pub scheduled_at: u64,
    pub fired_at: u64,
}

/// A registered job, accumulated before the run loop starts.
pub struct Schedule<H> {
    pub task_name: String,
    pub interval: u64,
    pub handler: H,
}

/// One pending occurrence of a job, perpetually recycled by the dispatcher.
pub struct Task<H> {
    pub name: String,
    pub at: u64,
    pub created_wall: u64,
    pub created_mono: u64,
    pub interval: u64,
    pub worker: H,
}

impl<H> View for Schedule<H> {
    type V = ScheduleModel;

    open spec fn view(&self) -> ScheduleModel {
        ScheduleModel { name: self.task_name@, interval: self.interval as int }
    }
}

impl<H> View for Task<H> {
    type V = TaskModel;

    open spec fn view(&self) -> TaskModel {
        TaskModel {
            name: self.name@,
            at: self.at as int,
            created_wall: self.created_wall as int,
            created_mono: self.created_mono as int,
            interval: self.interval as int,
        }
    }
}

/// Why a registration or a startup request was rejected.
#[derive(Clone, Copy, Debug, PartialEq, Eq, Structural)]
pub enum SchedulerError {
    /// A job was registered with a repeat interval of zero.
    IntervalZero,
    /// The run loop was started with no registered jobs at all.
    NoJobs,
}

/// The dispatcher: a registration table drained at startup into a
/// min-priority queue of pending occurrences keyed by due instant.
pub struct Scheduler<H> {
    schedules: Vec<Schedule<H>>,
    tasks: Vec<Task<H>>,
}

impl<H> View for Scheduler<H> {
    type V = SchedulerModel;

    closed spec fn view(&self) -> SchedulerModel {
        SchedulerModel {
            schedules: self.schedules@.map_values(|s: Schedule<H>| s@),
            queue: self.tasks@.map_values(|t: Task<H>| t@),
        }
    }
}

impl<H> Scheduler<H> {
    /// A dispatcher with no registrations and an empty queue.
    pub fn new() -> (s: Self)
        ensures
            s@.schedules == Seq::<ScheduleModel>::empty(),
            s@.queue == Seq::<TaskModel>::empty(),
            scheduler_wf(s@),
    {
        let s = Scheduler { schedules: Vec::new(), tasks: Vec::new() };
        proof {
            assert(s@.schedules =~= Seq::<ScheduleModel>::empty());
            assert(s@.queue =~= Seq::<TaskModel>::empty());
        }
        s
    }

    /// Appends a registration to the table. A zero interval is the one caller
    /// error, rejected before the run loop can ever see the job; duplicate
    /// names are permitted and stay independent.
    pub fn schedule(&mut self, task_name: String, func: H, interval: u64) -> (r: Result<
        (),
        SchedulerError,
    >)
        ensures
            interval > 0 ==> {
                &&& r is Ok
                &&& final(self)@.schedules == old(self)@.schedules.push(
                    ScheduleModel { name: task_name@, interval: interval as int },
                )
                &&& final(self)@.queue == old(self)@.queue
            },
            interval == 0 ==> {
                &&& r == Result::<(), SchedulerError>::Err(SchedulerError::IntervalZero)
                &&& final(self)@ == old(self)@
            },
            scheduler_wf(old(self)@) ==> scheduler_wf(final(self)@),
    {
        if interval == 0 {
            return Err(SchedulerError::IntervalZero);
        }
        let ghost entry = ScheduleModel { name: task_name@, interval: interval as int };
        self.schedules.push(Schedule { task_name, interval, handler: func });
        proof {
            assert(self@.schedules =~= old(self)@.schedules.push(entry));
            assert(self@.queue =~= old(self)@.queue);
        }
        Ok(())
    }

    /// Drains the registration table into the queue: one occurrence per job,
    /// every one due immediately (`at == mono_now`), so every job fires once
    /// right after startup. Starting with no registrations is a caller error.
    pub fn start(&mut self, wall_now: u64, mono_now: u64) -> (r: Result<(), SchedulerError>)
        requires
            old(self)@.queue.len() == 0,
        ensures
            old(self)@.schedules.len() == 0 ==> {
                &&& r == Result::<(), SchedulerError>::Err(SchedulerError::NoJobs)
                &&& final(self)@ == old(self)@
            },
            old(self)@.schedules.len() > 0 ==> {
                &&& r is Ok
                &&& final(self)@.schedules.len() == 0
                &&& final(self)@.queue.len() == old(self)@.schedules.len()
                &&& forall|i: int|
                    0 <= i < final(self)@.queue.len() ==> (#[trigger] final(self)@.queue[i])
                        == (TaskModel {
                        name: old(self)@.schedules[i].name,
                        at: mono_now as int,
                        created_wall: wall_now as int,
                        created_mono: mono_now as int,
                        interval: old(self)@.schedules[i].interval,
                    })
            },
            scheduler_wf(old(self)@) ==> scheduler_wf(final(self)@),
    {
        if self.schedules.len() == 0 {
            return Err(SchedulerError::NoJobs);
        }
        while self.schedules.len() > 0
            invariant
                self@.queue.len() + self@.schedules.len() == old(self)@.schedules.len(),
                forall|j: int|
                    0 <= j < self@.schedules.len() ==> (#[trigger] self@.schedules[j])
                        == old(self)@.schedules[self@.queue.len() + j],
                forall|i: int|
                    0 <= i < self@.queue.len() ==> (#[trigger] self@.queue[i]) == (TaskModel {
                        name: old(self)@.schedules[i].name,
                        at: mono_now as int,
                        created_wall: wall_now as int,
                        created_mono: mono_now as int,
                        interval: old(self)@.schedules[i].interval,
                    }),
            decreases self@.schedules.len(),
        {
            let ghost pre = self@;
            let ghost prev_vec = self.schedules@;
            let s = self.schedules.remove(0);
            let ghost s_model = s@;
            let ghost entry = TaskModel {
                name: s.task_name@,
                at: mono_now as int,
                created_wall: wall_now as int,
                created_mono: mono_now as int,
                interval: s.interval as int,
            };
            self.tasks.push(
                Task {
                    name: s.task_name,
                    at: mono_now,
                    created_wall: wall_now,
                    created_mono: mono_now,
                    interval: s.interval,
                    worker: s.handler,
                },
            );
            proof {
                assert(s_model == pre.schedules[0]);
                assert forall|j: int| 0 <= j < self@.schedules.len() implies (
                #[trigger] self@.schedules[j]) == pre.schedules[j + 1] by {
                    assert(self.schedules@[j] == prev_vec.remove(0)[j]);
                    assert(prev_vec.remove(0)[j] == prev_vec[j + 1]);
                }
                assert(self@.queue =~= pre.queue.push(entry));
            }
        }
        Ok(())
    }

    /// Removes and returns an occurrence with the earliest due instant — the
    /// next one the dispatch loop must wait for. Ties among equal due instants
    /// are broken arbitrarily. Nothing else in the queue is touched.
    pub fn pop_earliest(&mut self) -> (r: Option<Task<H>>)
        ensures
            old(self)@.queue.len() == 0 ==> {
                &&& r is None
                &&& final(self)@ == old(self)@
            },
            old(self)@.queue.len() > 0 ==> {
                &&& r matches Some(t)
                &&& old(self)@.queue.contains(t@)
                &&& scheduler_wf(old(self)@) ==> task_wf(t@)
                &&& old(self)@.queue.to_multiset() == final(self)@.queue.to_multiset().insert(t@)
                &&& final(self)@.queue.len() == old(self)@.queue.len() - 1
                &&& forall|i: int|
                    0 <= i < old(self)@.queue.len() ==> t@.at <= (#[trigger] old(self)@.queue[i]).at
                &&& forall|i: int|
                    0 <= i < final(self)@.queue.len() ==> t@.at <= (#[trigger] final(self)@.queue[i]).at
            },
            final(self)@.schedules == old(self)@.schedules,
            scheduler_wf(old(self)@) ==> scheduler_wf(final(self)@),
    {
        if self.tasks.len() == 0 {
            return None;
        }
        let mut min_i: usize = 0;
        let mut j: usize = 1;
        while j < self.tasks.len()
            invariant
                self == old(self),
                min_i < j <= self@.queue.len(),
                forall|k: int|
                    0 <= k < j ==> self@.queue[min_i as int].at <= (#[trigger] self@.queue[k]).at,
            decreases self@.queue.len() - j,
        {
            if self.tasks[j].at < self.tasks[min_i].at {
                min_i = j;
            }
            j += 1;
        }
        let ghost q0 = self@.queue;
        let t = self.tasks.remove(min_i);
        proof {
            broadcast use vstd::seq_lib::group_to_multiset_ensures;
            broadcast use vstd::multiset::group_multiset_axioms;

            assert(self@.queue =~= q0.remove(min_i as int));
            assert(q0.contains(q0[min_i as int]));
            assert(q0.to_multiset().count(t@) > 0);
            assert(q0.to_multiset() =~= self@.queue.to_multiset().insert(t@));
            if scheduler_wf(old(self)@) {
                assert forall|i: int| 0 <= i < self@.queue.len() implies task_wf(
                    #[trigger] self@.queue[i],
                ) by {
                    if i < min_i as int {
                        assert(self@.queue[i] == q0[i]);
                        assert(task_wf(old(self)@.queue[i]));
                    } else {
                        assert(self@.queue[i] == q0[i + 1]);
                        assert(task_wf(old(self)@.queue[i + 1]));
                    }
                }
                assert(self@.schedules =~= old(self)@.schedules);
                assert(scheduler_wf(self@));
            }
        }
        Some(t)
    }

    /// Puts a popped occurrence back, due exactly one interval after its
    /// previous due instant. Computing the next due time from the previous
    /// nominal one — never from the actual fire time — keeps the schedule
    /// free of drift however late the occurrence actually fired.
    pub fn reschedule(&mut self, task: Task<H>)
        requires
            task@.at + task@.interval <= u64::MAX,
        ensures
            final(self)@.queue.to_multiset() == old(self)@.queue.to_multiset().insert(
                advance(task@),
            ),
            final(self)@.queue.len() == old(self)@.queue.len() + 1,
            final(self)@.schedules == old(self)@.schedules,
            scheduler_wf(old(self)@) && task_wf(task@) ==> scheduler_wf(final(self)@),
    {
        let ghost t0 = task@;
        let next_at: u64 = task.at + task.interval;
        let task = Task { at: next_at, ..task };
        self.tasks.push(task);
        proof {
            broadcast use vstd::seq_lib::group_to_multiset_ensures;

            assert(self@.queue =~= old(self)@.queue.push(advance(t0)));
        }
    }
}

impl<H> Task<H> {
    /// The wall-clock instant of this occurrence's due time, derived by
    /// offsetting the wall clock captured at first enqueue by how far the
    /// due instant has advanced on the monotonic clock since then.
    pub fn get_system_time(&self) -> (r: u64)
        requires
            self@.created_mono <= self@.at,
            self@.created_wall + (self@.at - self@.created_mono) <= u64::MAX,
        ensures
            r == self@.created_wall + (self@.at - self@.created_mono),
    {
        self.created_wall + (self.at - self.created_mono)
    }
}

/// Drift-free scheduling (law): across `n` consecutive reschedulings the
/// nominal due instant advances by exactly `n` whole intervals, and each
/// consecutive gap is exactly one interval — however late any occurrence
/// actually fired, delays never compound into the nominal schedule.
pub proof fn lemma_no_drift(t: TaskModel, n: nat)
    ensures
        advance_n(t, n).at == t.at + n * t.interval,
        advance_n(t, n).interval == t.interval,
        advance_n(t, n).name == t.name,
        advance(advance_n(t, n)).at - advance_n(t, n).at == t.interval,
    decreases n,
{
    if n > 0 {
        let m: nat = (n - 1) as nat;
        lemma_no_drift(t, m);
        assert(advance_n(t, n) == advance(advance_n(t, m)));
        vstd::arithmetic::mul::lemma_mul_is_distributive_add_other_way(t.interval, m as int, 1);
        assert(advance_n(t, n).at == t.at + n * t.interval);
    } else {
        assert(advance_n(t, n) == t);
        assert(n * t.interval == 0);
    }
}

/// Non-decreasing dispatch order (law): when the earliest occurrence has been
/// popped — so everything remaining is due no earlier — and its successor,
/// one interval later, has been reinserted, every occurrence the queue can
/// yield next is due no earlier than the one just popped. Popping therefore
/// yields a non-decreasing sequence of due instants.
pub proof fn lemma_pop_order_monotonic(
    remaining: Seq<TaskModel>,
    popped: TaskModel,
    next: TaskModel,
)
    requires
        popped.interval >= 0,
        forall|i: int| 0 <= i < remaining.len() ==> popped.at <= (#[trigger] remaining[i]).at,
        remaining.to_multiset().insert(advance(popped)).count(next) > 0,
    ensures
        popped.at <= next.at,
{
    broadcast use vstd::seq_lib::group_to_multiset_ensures;
    broadcast use vstd::multiset::group_multiset_axioms;

    if next != advance(popped) {
        assert(remaining.to_multiset().count(next) > 0);
        assert(remaining.contains(next));
        let i = choose|i: int| 0 <= i < remaining.len() && remaining[i] == next;
        assert(popped.at <= remaining[i].at);
    }
}

/// One pending occurrence per job (law): recycling — removing the popped
/// occurrence and inserting its successor one interval later — keeps the
/// queue the same size, keeps the job's name, and touches no other
/// occurrence's multiplicity, so a job is never duplicated and never dropped.
pub proof fn lemma_recycle_preserves_jobs(q: Multiset<TaskModel>, popped: TaskModel)
    requires
        q.count(popped) > 0,
    ensures
        q.remove(popped).insert(advance(popped)).len() == q.len(),
        advance(popped).name == popped.name,
        forall|t: TaskModel|
            t != popped && t != advance(popped) ==> q.remove(popped).insert(
                advance(popped),
            ).count(t) == #[trigger] q.count(t),
{
    broadcast use vstd::multiset::group_multiset_axioms;
}

/// Isolation of failure (law): rescheduling reads only the due instant and
/// the interval, never the reported outcome, so a job whose handler always
/// fails follows exactly the same due-instant sequence — and hence fires
/// exactly as often over any span — as one whose handler always succeeds.
pub proof fn lemma_outcome_never_changes_schedule(t1: TaskModel, t2: TaskModel, n: nat)
    requires
        t1.at == t2.at,
        t1.interval == t2.interval,
    ensures
        advance_n(t1, n).at == advance_n(t2, n).at,
{
    lemma_no_drift(t1, n);
    lemma_no_drift(t2, n);
}

/// How long the dispatch loop still has to wait before `due`: zero when the
/// due instant has already passed, so an overdue occurrence fires at once and
/// the loop catches up without ever skipping an occurrence.
pub fn delay_until(now: u64, due: u64) -> (d: u64)
    ensures
        due <= now ==> d == 0,
        due > now ==> d == due - now,
{
    if due > now {
        due - now
    } else {
        0
    }
}

} // verus!
