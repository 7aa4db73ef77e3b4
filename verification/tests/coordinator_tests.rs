use zk_sac_engine::async_utils::{
    AsyncTaskPool, AttemptOutcome, BackoffAction, BackoffState, BatchAction, BatchEvent,
    BatchProcessor, ChannelManager, ConsensusCoordinator, Either, FutureRacer, ParallelExecutor,
    RaceError, StreamAction, StreamingProcessor, TimeoutManager,
};

fn flushed(action: BatchAction<u32>) -> Option<(Vec<u32>, bool)> {
    match action {
        BatchAction::Wait => None,
        BatchAction::Stop => Some((vec![], true)),
        BatchAction::Flush { batch } => Some((batch, false)),
        BatchAction::FlushAndStop { batch } => Some((batch, true)),
    }
}

#[test]
fn a_pool_hands_out_no_more_permits_than_it_has() {
    let mut pool = AsyncTaskPool::new(2);
    assert_eq!(pool.available_permits(), 2);
    assert!(pool.try_acquire());
    assert!(pool.try_acquire());
    assert!(!pool.try_acquire());
    assert_eq!(pool.available_permits(), 0);
    pool.release();
    assert_eq!(pool.available_permits(), 1);
    pool.release();
    pool.release();
    assert_eq!(pool.available_permits(), 2);
    let mut none = AsyncTaskPool::new(0);
    assert!(!none.try_acquire());
}

#[test]
fn the_three_pools() {
    let mut coordinator = ConsensusCoordinator::new();
    assert_eq!(coordinator.get_pool_stats(), (2, 8, 16));
    assert!(coordinator.validation_pool.try_acquire());
    assert!(coordinator.signature_pool.try_acquire());
    assert!(coordinator.signature_pool.try_acquire());
    assert_eq!(coordinator.get_pool_stats(), (2, 7, 14));
}

#[test]
fn a_batch_is_flushed_when_full() {
    let mut processor: BatchProcessor<u32> = BatchProcessor::new(3, 1000);
    assert_eq!(processor.channel_capacity(), 6);
    assert_eq!(flushed(processor.step(BatchEvent::Item { item: 1, now_ms: 10 })), None);
    assert_eq!(flushed(processor.step(BatchEvent::Item { item: 2, now_ms: 20 })), None);
    assert_eq!(processor.pending(), 2);
    assert_eq!(
        flushed(processor.step(BatchEvent::Item { item: 3, now_ms: 30 })),
        Some((vec![1, 2, 3], false))
    );
    assert_eq!(processor.pending(), 0);
    assert_eq!(flushed(processor.step(BatchEvent::Timer { now_ms: 5000 })), None);
    assert_eq!(BatchProcessor::<u32>::new(usize::MAX, 1).channel_capacity(), usize::MAX);
    let mut eager: BatchProcessor<u32> = BatchProcessor::new(0, 1);
    assert_eq!(
        flushed(eager.step(BatchEvent::Item { item: 1, now_ms: 0 })),
        Some((vec![1], false))
    );
}

#[test]
fn a_batch_is_flushed_when_it_has_waited() {
    let mut processor: BatchProcessor<u32> = BatchProcessor::new(10, 100);
    assert_eq!(flushed(processor.step(BatchEvent::Item { item: 1, now_ms: 1000 })), None);
    assert_eq!(flushed(processor.step(BatchEvent::Timer { now_ms: 99 })), None);
    assert_eq!(
        flushed(processor.step(BatchEvent::Timer { now_ms: 100 })),
        Some((vec![1], false))
    );
    assert_eq!(flushed(processor.step(BatchEvent::Item { item: 2, now_ms: 150 })), None);
    assert_eq!(flushed(processor.step(BatchEvent::Timer { now_ms: 199 })), None);
    assert_eq!(flushed(processor.step(BatchEvent::Timer { now_ms: 50 })), None);
    assert_eq!(
        flushed(processor.step(BatchEvent::Timer { now_ms: 200 })),
        Some((vec![2], false))
    );
}

#[test]
fn closing_flushes_what_waits() {
    let mut processor: BatchProcessor<u32> = BatchProcessor::new(10, 100);
    processor.step(BatchEvent::Item { item: 1, now_ms: 0 });
    processor.step(BatchEvent::Item { item: 2, now_ms: 0 });
    assert_eq!(flushed(processor.step(BatchEvent::Closed)), Some((vec![1, 2], true)));
    assert_eq!(flushed(processor.step(BatchEvent::Closed)), Some((vec![], true)));
}

#[test]
fn timeouts_double_until_the_attempts_run_out() {
    let (mut state, action) = TimeoutManager::start(3, 100);
    assert_eq!(action, BackoffAction::Run { timeout_ms: 100, pause_ms: 0 });
    let (next, action) = TimeoutManager::next(state, AttemptOutcome::TimedOut);
    assert_eq!(action, BackoffAction::Run { timeout_ms: 200, pause_ms: 100 });
    assert_eq!(next, BackoffState { attempt: 1, max_retries: 3, current_timeout_ms: 200 });
    state = next;
    let (next, action) = TimeoutManager::next(state, AttemptOutcome::TimedOut);
    assert_eq!(action, BackoffAction::Run { timeout_ms: 400, pause_ms: 100 });
    state = next;
    let (_, action) = TimeoutManager::next(state, AttemptOutcome::TimedOut);
    assert_eq!(action, BackoffAction::GiveUp { attempts: 3 });
    assert_eq!(TimeoutManager::next(state, AttemptOutcome::Succeeded).1, BackoffAction::Done);
    assert_eq!(TimeoutManager::next(state, AttemptOutcome::Failed).1, BackoffAction::Fail);
    assert_eq!(TimeoutManager::start(0, 100).1, BackoffAction::GiveUp { attempts: 0 });
    let huge = BackoffState { attempt: 0, max_retries: 2, current_timeout_ms: u64::MAX / 2 + 1 };
    assert_eq!(
        TimeoutManager::next(huge, AttemptOutcome::TimedOut).1,
        BackoffAction::Run { timeout_ms: u64::MAX, pause_ms: 100 }
    );
}

#[test]
fn outcomes_amount_to_all_results_or_the_first_error() {
    let all: Vec<Result<u32, String>> = vec![Ok(1), Ok(2), Ok(3)];
    assert_eq!(StreamingProcessor::collect_results(all), Ok(vec![1, 2, 3]));
    let some: Vec<Result<u32, String>> =
        vec![Ok(1), Err("first".to_string()), Ok(3), Err("second".to_string())];
    assert_eq!(StreamingProcessor::collect_results(some), Err("first".to_string()));
    let none: Vec<Result<u32, String>> = vec![];
    assert_eq!(StreamingProcessor::collect_results(none), Ok(vec![]));
    assert_eq!(StreamingProcessor::on_item(2, 3), StreamAction::Start);
    assert_eq!(StreamingProcessor::on_item(3, 3), StreamAction::AwaitOneThenStart);
    assert_eq!(StreamingProcessor::on_item(0, 0), StreamAction::AwaitOneThenStart);
}

#[test]
fn races_and_limits() {
    assert_eq!(FutureRacer::check_race(0), Err(RaceError::NoFutures));
    assert_eq!(FutureRacer::check_race(2), Ok(()));
    assert_eq!(FutureRacer::select(true, Some(1u8), Some("x")), Some(Either::Left(1)));
    assert_eq!(FutureRacer::select(false, Some(1u8), Some("x")), Some(Either::Right("x")));
    assert_eq!(FutureRacer::select::<u8, u8>(true, None, Some(2)), None);
    assert_eq!(ChannelManager::limit_items(vec![1, 2, 3], 2), vec![1, 2]);
    assert_eq!(ChannelManager::limit_items(vec![1, 2, 3], 5), vec![1, 2, 3]);
    assert_eq!(ChannelManager::limit_items(vec![1, 2, 3], 0), vec![1]);
    assert_eq!(ChannelManager::limit_items(Vec::<u8>::new(), 0), Vec::<u8>::new());
    assert!(ChannelManager::reads_on(0, 0));
    assert!(!ChannelManager::reads_on(1, 0));
    assert!(ChannelManager::reads_on(1, 2));
    assert!(!ChannelManager::reads_on(2, 2));
    assert!(!ChannelManager::reads_on(3, 2));
    assert_eq!(ParallelExecutor::load_balanced_timeout_ms(), 30000);
    assert_eq!(ParallelExecutor::tasks_to_start(10, 4, 3), 3);
    assert_eq!(ParallelExecutor::tasks_to_start(10, 8, 3), 2);
    assert_eq!(ParallelExecutor::tasks_to_start(10, 10, 3), 0);
}
