//! The decisions of the coordinator, apart from the waiting.
//!
//! Whoever runs the tasks does the waiting: it takes permits, sleeps, reads
//! channels and awaits results. What to do next is decided here, by functions
//! from the state and what just happened to the next state and what to do:
//! how many tasks may run at once, when a batch is flushed, how long the next
//! attempt may take, and what a list of outcomes amounts to.

use vstd::prelude::*;

verus! {

/// One of two values.
#[derive(Debug, PartialEq, Eq)]
pub enum Either<L, R> {
    Left(L),
    Right(R),
}

/// The accounting of a bounded pool of tasks: so many may run at once, and
/// so many do.
#[derive(Debug, Clone, Copy, PartialEq, Eq)]
pub struct AsyncTaskPool {
    max_concurrent: usize,
    in_use: usize,
}

impl AsyncTaskPool {
    /// The number of tasks that may run at once.
    pub closed spec fn capacity(&self) -> nat {
        self.max_concurrent as nat
    }

    /// The number of tasks that hold a permit.
    pub closed spec fn running(&self) -> nat {
        self.in_use as nat
    }

    /// The invariant: no more tasks run than may. Every pool has it.
    #[verifier::type_invariant]
    pub closed spec fn well_formed(&self) -> bool {
        self.in_use <= self.max_concurrent
    }

    /// A pool in which `max_concurrent` tasks may run at once, and none does.
    pub fn new(max_concurrent: usize) -> (pool: AsyncTaskPool)
        ensures
            pool.capacity() == max_concurrent,
            pool.running() == 0,
    {
        AsyncTaskPool { max_concurrent, in_use: 0 }
    }

    /// The number of permits that are free.
    pub fn available_permits(&self) -> (n: usize)
        ensures
            n == self.capacity() - self.running(),
    {
        proof {
            use_type_invariant(self);
        }
        self.max_concurrent - self.in_use
    }

    /// Takes a permit if one is free. Gives whether it did.
    pub fn try_acquire(&mut self) -> (acquired: bool)
        ensures
            final(self).capacity() == old(self).capacity(),
            acquired == (old(self).running() < old(self).capacity()),
            final(self).running() == old(self).running() + if acquired {
                1nat
            } else {
                0nat
            },
    {
        proof {
            use_type_invariant(&*self);
        }
        if self.in_use < self.max_concurrent {
            self.in_use = self.in_use + 1;
            true
        } else {
            false
        }
    }

    /// Gives a permit back, if one is held.
    pub fn release(&mut self)
        ensures
            final(self).capacity() == old(self).capacity(),
            final(self).running() == if old(self).running() > 0 {
                (old(self).running() - 1) as nat
            } else {
                0nat
            },
    {
        proof {
            use_type_invariant(&*self);
        }
        if self.in_use > 0 {
            self.in_use = self.in_use - 1;
        }
    }
}

/// The three pools of the consensus: block production, validation and
/// signatures.
#[derive(Debug, Clone, Copy, PartialEq, Eq)]
pub struct ConsensusCoordinator {
    pub block_production_pool: AsyncTaskPool,
    pub validation_pool: AsyncTaskPool,
    pub signature_pool: AsyncTaskPool,
}

impl ConsensusCoordinator {
    /// Pools for two producers, eight validations and sixteen signatures at once.
    pub fn new() -> (c: ConsensusCoordinator)
        ensures
            c.block_production_pool.capacity() == 2,
            c.validation_pool.capacity() == 8,
            c.signature_pool.capacity() == 16,
            c.block_production_pool.running() == 0,
            c.validation_pool.running() == 0,
            c.signature_pool.running() == 0,
    {
        ConsensusCoordinator {
            block_production_pool: AsyncTaskPool::new(2),
            validation_pool: AsyncTaskPool::new(8),
            signature_pool: AsyncTaskPool::new(16),
        }
    }

    /// The free permits of the three pools: production, validation, signatures.
    pub fn get_pool_stats(&self) -> (stats: (usize, usize, usize))
        ensures
            stats.0 == self.block_production_pool.capacity() - self.block_production_pool.running(),
            stats.1 == self.validation_pool.capacity() - self.validation_pool.running(),
            stats.2 == self.signature_pool.capacity() - self.signature_pool.running(),
    {
        (
            self.block_production_pool.available_permits(),
            self.validation_pool.available_permits(),
            self.signature_pool.available_permits(),
        )
    }
}

/// What happened to a batch processor.
pub enum BatchEvent<T> {
    /// An item arrived, at the given time in milliseconds.
    Item { item: T, now_ms: u64 },
    /// The timer went off, at the given time in milliseconds.
    Timer { now_ms: u64 },
    /// The channel was closed.
    Closed,
}

/// What a batch processor is to do.
pub enum BatchAction<T> {
    /// Go on waiting.
    Wait,
    /// Hand the batch to the handler, and go on.
    Flush { batch: Vec<T> },
    /// Hand the batch to the handler, and stop.
    FlushAndStop { batch: Vec<T> },
    /// Stop.
    Stop,
}

/// Gathers items into batches: a batch is flushed when it is full, when it
/// has waited for the timeout, and when the channel closes.
pub struct BatchProcessor<T> {
    batch_size: usize,
    timeout_ms: u64,
    current_batch: Vec<T>,
    last_batch_ms: u64,
}

impl<T> BatchProcessor<T> {
    /// The number of items that make a batch full.
    pub closed spec fn batch_size(&self) -> nat {
        self.batch_size as nat
    }

    /// How long a batch may wait, in milliseconds.
    pub closed spec fn timeout_ms(&self) -> u64 {
        self.timeout_ms
    }

    /// The items that wait, in the order in which they arrived.
    pub closed spec fn waiting(&self) -> Seq<T> {
        self.current_batch@
    }

    /// When the last batch was flushed, in milliseconds.
    pub closed spec fn last_batch_ms(&self) -> u64 {
        self.last_batch_ms
    }

    /// The number of items that the channel in front of the processor
    /// holds: twice a batch.
    pub open spec fn channel_capacity_spec(batch_size: usize) -> int {
        if batch_size <= usize::MAX / 2 {
            2 * batch_size
        } else {
            usize::MAX as int
        }
    }

    /// A processor without items, its clock at zero.
    pub fn new(batch_size: usize, timeout_ms: u64) -> (p: BatchProcessor<T>)
        ensures
            p.batch_size() == batch_size,
            p.timeout_ms() == timeout_ms,
            p.waiting() == Seq::<T>::empty(),
            p.last_batch_ms() == 0,
    {
        BatchProcessor { batch_size, timeout_ms, current_batch: Vec::new(), last_batch_ms: 0 }
    }

    /// The number of items that the channel in front of the processor holds.
    pub fn channel_capacity(&self) -> (n: usize)
        ensures
            n == Self::channel_capacity_spec(self.batch_size() as usize),
    {
        if self.batch_size <= usize::MAX / 2 {
            self.batch_size * 2
        } else {
            usize::MAX
        }
    }

    /// The number of items that wait.
    pub fn pending(&self) -> (n: usize)
        ensures
            n == self.waiting().len(),
    {
        self.current_batch.len()
    }

    /// Takes an event and says what to do. An item joins the batch, which
    /// is flushed if that fills it. The timer flushes a batch that is not
    /// empty and has waited for the timeout since the last flush. The
    /// closing of the channel flushes what waits, and stops.
    pub fn step(&mut self, event: BatchEvent<T>) -> (action: BatchAction<T>)
        ensures
            final(self).batch_size() == old(self).batch_size(),
            final(self).timeout_ms() == old(self).timeout_ms(),
            match event {
                BatchEvent::Item { item, now_ms } => {
                    let joined = old(self).waiting().push(item);
                    if joined.len() >= old(self).batch_size() {
                        &&& action matches BatchAction::Flush { batch }
                        &&& batch@ == joined
                        &&& final(self).waiting() == Seq::<T>::empty()
                        &&& final(self).last_batch_ms() == now_ms
                    } else {
                        &&& action is Wait
                        &&& final(self).waiting() == joined
                        &&& final(self).last_batch_ms() == old(self).last_batch_ms()
                    }
                },
                BatchEvent::Timer { now_ms } => {
                    if old(self).waiting().len() > 0 && now_ms >= old(self).last_batch_ms()
                        && now_ms - old(self).last_batch_ms() >= old(self).timeout_ms() {
                        &&& action matches BatchAction::Flush { batch }
                        &&& batch@ == old(self).waiting()
                        &&& final(self).waiting() == Seq::<T>::empty()
                        &&& final(self).last_batch_ms() == now_ms
                    } else {
                        &&& action is Wait
                        &&& final(self).waiting() == old(self).waiting()
                        &&& final(self).last_batch_ms() == old(self).last_batch_ms()
                    }
                },
                BatchEvent::Closed => {
                    &&& final(self).waiting() == Seq::<T>::empty()
                    &&& final(self).last_batch_ms() == old(self).last_batch_ms()
                    &&& if old(self).waiting().len() > 0 {
                        action matches BatchAction::FlushAndStop { batch } && batch@ == old(self).waiting()
                    } else {
                        action is Stop
                    }
                },
            },
    {
        match event {
            BatchEvent::Item { item, now_ms } => {
                self.current_batch.push(item);
                if self.current_batch.len() >= self.batch_size {
                    let mut batch: Vec<T> = Vec::new();
                    std::mem::swap(&mut batch, &mut self.current_batch);
                    self.last_batch_ms = now_ms;
                    BatchAction::Flush { batch }
                } else {
                    BatchAction::Wait
                }
            },
            BatchEvent::Timer { now_ms } => {
                if self.current_batch.len() > 0 && now_ms >= self.last_batch_ms && now_ms
                    - self.last_batch_ms >= self.timeout_ms {
                    let mut batch: Vec<T> = Vec::new();
                    std::mem::swap(&mut batch, &mut self.current_batch);
                    self.last_batch_ms = now_ms;
                    BatchAction::Flush { batch }
                } else {
                    BatchAction::Wait
                }
            },
            BatchEvent::Closed => {
                if self.current_batch.len() > 0 {
                    let mut batch: Vec<T> = Vec::new();
                    std::mem::swap(&mut batch, &mut self.current_batch);
                    BatchAction::FlushAndStop { batch }
                } else {
                    BatchAction::Stop
                }
            },
        }
    }
}

/// How an attempt ended.
#[derive(Debug, Clone, Copy, PartialEq, Eq, Structural)]
pub enum AttemptOutcome {
    /// The task gave its result in time.
    Succeeded,
    /// The task failed in time.
    Failed,
    /// The time ran out.
    TimedOut,
}

/// What to do about a task that is retried.
#[derive(Debug, Clone, Copy, PartialEq, Eq, Structural)]
pub enum BackoffAction {
    /// Run the task with the given timeout, after the given pause.
    Run { timeout_ms: u64, pause_ms: u64 },
    /// The task succeeded: hand its result on.
    Done,
    /// The task failed: hand its error on.
    Fail,
    /// Every attempt timed out: give up.
    GiveUp { attempts: usize },
}

/// Where a retried task stands: the attempt that runs, counted from zero,
/// and its timeout.
#[derive(Debug, Clone, Copy, PartialEq, Eq, Structural)]
pub struct BackoffState {
    pub attempt: usize,
    pub max_retries: usize,
    pub current_timeout_ms: u64,
}

/// The pause between two attempts, in milliseconds.
pub const RETRY_PAUSE_MS: u64 = 100;

/// The timeout of attempt `attempt`: the base timeout doubled for each
/// attempt before it, up to the greatest number of milliseconds that can be
/// held.
pub open spec fn backoff_timeout(base_timeout_ms: u64, attempt: nat) -> u64
    decreases attempt,
{
    if attempt == 0 {
        base_timeout_ms
    } else {
        doubled(backoff_timeout(base_timeout_ms, (attempt - 1) as nat))
    }
}

/// Twice a timeout, or the greatest timeout where twice is too much.
pub open spec fn doubled(timeout_ms: u64) -> u64 {
    if 2 * timeout_ms <= u64::MAX {
        (2 * timeout_ms) as u64
    } else {
        u64::MAX
    }
}

/// Retries with exponential backoff.
pub struct TimeoutManager;

impl TimeoutManager {
    /// The first thing to do about a task that may be tried `max_retries`
    /// times: run it with the base timeout, or give up at once where it may
    /// not be tried at all.
    pub fn start(max_retries: usize, base_timeout_ms: u64) -> (r: (BackoffState, BackoffAction))
        ensures
            r.0 == (BackoffState { attempt: 0, max_retries, current_timeout_ms: base_timeout_ms }),
            r.1 == if max_retries == 0 {
                BackoffAction::GiveUp { attempts: 0 }
            } else {
                BackoffAction::Run { timeout_ms: base_timeout_ms, pause_ms: 0 }
            },
    {
        let state = BackoffState { attempt: 0, max_retries, current_timeout_ms: base_timeout_ms };
        if max_retries == 0 {
            (state, BackoffAction::GiveUp { attempts: 0 })
        } else {
            (state, BackoffAction::Run { timeout_ms: base_timeout_ms, pause_ms: 0 })
        }
    }

    /// What to do once the attempt that runs has ended. A result or an error
    /// of the task ends the retrying. A timeout leads to another attempt
    /// with twice the timeout, after a pause, unless it was the last.
    pub fn next(state: BackoffState, outcome: AttemptOutcome) -> (r: (BackoffState, BackoffAction))
        requires
            state.attempt < state.max_retries,
        ensures
            match outcome {
                AttemptOutcome::Succeeded => r == (state, BackoffAction::Done),
                AttemptOutcome::Failed => r == (state, BackoffAction::Fail),
                AttemptOutcome::TimedOut => if state.attempt + 1 == state.max_retries {
                    r == (state, BackoffAction::GiveUp { attempts: state.max_retries })
                } else {
                    r == (
                        BackoffState {
                            attempt: (state.attempt + 1) as usize,
                            max_retries: state.max_retries,
                            current_timeout_ms: doubled(state.current_timeout_ms),
                        },
                        BackoffAction::Run {
                            timeout_ms: doubled(state.current_timeout_ms),
                            pause_ms: RETRY_PAUSE_MS,
                        },
                    )
                },
            },
    {
        match outcome {
            AttemptOutcome::Succeeded => (state, BackoffAction::Done),
            AttemptOutcome::Failed => (state, BackoffAction::Fail),
            AttemptOutcome::TimedOut => {
                if state.attempt + 1 == state.max_retries {
                    (state, BackoffAction::GiveUp { attempts: state.max_retries })
                } else {
                    let timeout_ms = if state.current_timeout_ms <= u64::MAX / 2 {
                        state.current_timeout_ms * 2
                    } else {
                        u64::MAX
                    };
                    (
                        BackoffState {
                            attempt: state.attempt + 1,
                            max_retries: state.max_retries,
                            current_timeout_ms: timeout_ms,
                        },
                        BackoffAction::Run { timeout_ms, pause_ms: RETRY_PAUSE_MS },
                    )
                }
            },
        }
    }
}

/// The state after `k` timeouts in a row, from the start.
pub open spec fn state_after_timeouts(max_retries: usize, base_timeout_ms: u64, k: nat) -> BackoffState {
    BackoffState {
        attempt: k as usize,
        max_retries,
        current_timeout_ms: backoff_timeout(base_timeout_ms, k),
    }
}

/// The timeouts of a retried task form the backoff sequence: the state after
/// one more timeout is the state after that many timeouts from the start.
pub proof fn lemma_backoff_sequence(max_retries: usize, base_timeout_ms: u64, k: nat)
    requires
        k + 1 < max_retries,
    ensures
        (BackoffState {
            attempt: (k + 1) as usize,
            max_retries,
            current_timeout_ms: doubled(
                state_after_timeouts(max_retries, base_timeout_ms, k).current_timeout_ms,
            ),
        }) == state_after_timeouts(max_retries, base_timeout_ms, k + 1),
{
}

/// What to do about an item of a stream.
#[derive(Debug, Clone, Copy, PartialEq, Eq, Structural)]
pub enum StreamAction {
    /// Start processing the item.
    Start,
    /// Wait for one of the running tasks, collect its result, then start
    /// processing the item.
    AwaitOneThenStart,
}

/// Processes streams with bounded concurrency.
pub struct StreamingProcessor;

impl StreamingProcessor {
    /// What to do about the next item of a stream while `active` tasks run
    /// and `max_concurrent` may.
    pub fn on_item(active: usize, max_concurrent: usize) -> (action: StreamAction)
        ensures
            action == if active < max_concurrent {
                StreamAction::Start
            } else {
                StreamAction::AwaitOneThenStart
            },
    {
        if active < max_concurrent {
            StreamAction::Start
        } else {
            StreamAction::AwaitOneThenStart
        }
    }

    /// What a list of outcomes amounts to: all the results in order, or the
    /// first error.
    pub fn collect_results<U, E>(outcomes: Vec<Result<U, E>>) -> (r: Result<Vec<U>, E>)
        ensures
            match r {
                Ok(results) => results@.len() == outcomes@.len() && forall|i: int|
                    0 <= i < outcomes@.len() ==> #[trigger] outcomes@[i] == Ok::<U, E>(results@[i]),
                Err(e) => exists|k: int|
                    0 <= k < outcomes@.len() && #[trigger] outcomes@[k] == Err::<U, E>(e)
                        && forall|i: int| 0 <= i < k ==> (#[trigger] outcomes@[i]) is Ok,
            },
    {
        let ghost given = outcomes@;
        let mut rest = outcomes;
        let mut reversed: Vec<U> = Vec::new();
        let mut failure: Option<E> = None;
        let ghost mut failed_at: int = given.len() as int;
        let n = rest.len();
        let mut taken: usize = 0;
        while taken < n
            invariant
                taken <= n,
                n == given.len(),
                rest@ == given.subrange(0, n - taken),
                failure is None ==> reversed@.len() == taken && forall|i: int|
                    0 <= i < taken ==> #[trigger] given[n - 1 - i] == Ok::<U, E>(reversed@[i]),
                failure matches Some(e) ==> n - taken <= failed_at < n && given[failed_at] == Err::<
                    U,
                    E,
                >(e) && reversed@.len() == failed_at - (n - taken) && forall|i: int|
                    0 <= i < reversed@.len() ==> #[trigger] given[failed_at - 1 - i] == Ok::<U, E>(
                        reversed@[i],
                    ),
            decreases n - taken,
        {
            let outcome = rest.pop();
            let ghost at = n - taken - 1;
            assert(outcome == Some(given[at]));
            match outcome {
                Some(Ok(value)) => {
                    reversed.push(value);
                },
                Some(Err(e)) => {
                    failure = Some(e);
                    reversed = Vec::new();
                    proof {
                        failed_at = at;
                    }
                },
                None => {},
            }
            assert(rest@ =~= given.subrange(0, at));
            taken += 1;
        }
        match failure {
            Some(e) => {
                assert forall|i: int| 0 <= i < failed_at implies (#[trigger] given[i]) is Ok by {
                    assert(given[failed_at - 1 - (failed_at - 1 - i)] == Ok::<U, E>(
                        reversed@[failed_at - 1 - i],
                    ));
                }
                Err(e)
            },
            None => {
                let mut results: Vec<U> = Vec::new();
                let ghost all = reversed@;
                let mut k: usize = 0;
                while k < n
                    invariant
                        k <= n,
                        n == given.len(),
                        all.len() == n,
                        reversed@ == all.subrange(0, n - k),
                        results@.len() == k,
                        forall|i: int| 0 <= i < k ==> results@[i] == all[n - 1 - i],
                    decreases n - k,
                {
                    match reversed.pop() {
                        Some(value) => {
                            results.push(value);
                        },
                        None => {},
                    }
                    assert(reversed@ =~= all.subrange(0, n - k - 1));
                    k += 1;
                }
                assert forall|i: int| 0 <= i < n implies #[trigger] given[i] == Ok::<U, E>(
                    results@[i],
                ) by {
                    assert(given[n - 1 - (n - 1 - i)] == Ok::<U, E>(all[n - 1 - i]));
                }
                Ok(results)
            },
        }
    }
}

/// Runs tasks side by side.
pub struct ParallelExecutor;

impl ParallelExecutor {
    /// The time allowed to a balanced run, in milliseconds.
    pub fn load_balanced_timeout_ms() -> (ms: u64)
        ensures
            ms == 30000,
    {
        30000
    }

    /// The number of tasks of a balanced run that may start now: those not
    /// started yet, as far as permits are free.
    pub fn tasks_to_start(task_count: usize, started: usize, free_permits: usize) -> (n: usize)
        ensures
            n == if started >= task_count {
                0
            } else if task_count - started <= free_permits {
                task_count - started
            } else {
                free_permits as int
            },
    {
        if started >= task_count {
            0
        } else if task_count - started <= free_permits {
            task_count - started
        } else {
            free_permits
        }
    }
}

/// Why a race cannot be run.
#[derive(Debug, Clone, Copy, PartialEq, Eq, Structural)]
pub enum RaceError {
    /// There is nothing to race.
    NoFutures,
}

/// Races tasks against each other.
pub struct FutureRacer;

impl FutureRacer {
    /// Whether a race of `count` tasks can be run: there must be one at least.
    pub fn check_race(count: usize) -> (r: Result<(), RaceError>)
        ensures
            r is Ok <==> count > 0,
    {
        if count == 0 {
            Err(RaceError::NoFutures)
        } else {
            Ok(())
        }
    }

    /// The outcome of a race of two: that of the first to finish.
    pub fn select<T1, T2>(first_done: bool, left: Option<T1>, right: Option<T2>) -> (r: Option<
        Either<T1, T2>,
    >)
        ensures
            r == if first_done {
                match left {
                    Some(value) => Some(Either::<T1, T2>::Left(value)),
                    None => None,
                }
            } else {
                match right {
                    Some(value) => Some(Either::<T1, T2>::Right(value)),
                    None => None,
                }
            },
    {
        if first_done {
            match left {
                Some(value) => Some(Either::Left(value)),
                None => None,
            }
        } else {
            match right {
                Some(value) => Some(Either::Right(value)),
                None => None,
            }
        }
    }
}

/// Moves items between tasks.
pub struct ChannelManager;

impl ChannelManager {
    /// The number of items that are taken from a stream that offers
    /// `available` when `max_items` are asked for: a stream is read until it
    /// ends or the limit is reached, and the limit is looked at after each
    /// item, so one item is taken even where none is asked for.
    pub open spec fn items_taken(available: nat, max_items: nat) -> nat {
        if available == 0 {
            0
        } else if max_items == 0 {
            1
        } else if available <= max_items {
            available
        } else {
            max_items
        }
    }

    /// Whether a stream is read on after `collected` items were taken from
    /// it, where `max_items` are asked for: as long as one more item is
    /// among those taken from a stream that offers it.
    pub fn reads_on(collected: usize, max_items: usize) -> (more: bool)
        ensures
            more == (collected < Self::items_taken((collected + 1) as nat, max_items as nat)),
    {
        if max_items == 0 {
            collected < 1
        } else {
            collected < max_items
        }
    }

    /// The items that are collected from one stream: the first
    /// `items_taken` of what it offers.
    pub fn limit_items<T>(items: Vec<T>, max_items: usize) -> (taken: Vec<T>)
        ensures
            taken@ == items@.subrange(
                0,
                Self::items_taken(items@.len(), max_items as nat) as int,
            ),
    {
        let mut taken = items;
        let limit = if max_items == 0 {
            1
        } else {
            max_items
        };
        if taken.len() > limit {
            taken.truncate(limit);
        }
        assert(taken@ =~= items@.subrange(
            0,
            Self::items_taken(items@.len(), max_items as nat) as int,
        ));
        taken
    }
}

} // verus!
