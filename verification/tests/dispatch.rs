use rusty_von_humboldt::dispatch::Dispatcher;
use rusty_von_humboldt::dispatch::LaneState;
use rusty_von_humboldt::dispatch::RetryAction;
use rusty_von_humboldt::dispatch::WorkMsg;
use rusty_von_humboldt::dispatch::Worker;
use rusty_von_humboldt::dispatch::fetch_retry_step;
use rusty_von_humboldt::dispatch::upload_retry_step;

#[test]
fn backpressure_never_drops_or_duplicates() {
    // Three lanes of capacity two: submitting faster than lanes drain fills
    // the queues, refuses further work instead of dropping it, and every
    // file lands in exactly one lane.
    let mut d = Dispatcher::new(3, 2);
    let mut accepted = 0;
    let mut names: Vec<String> = Vec::new();
    for i in 0..6 {
        let name = format!("file-{}", i);
        names.push(name.clone());
        let lane = d.try_assign(WorkMsg::Work(name));
        assert!(lane.is_some());
        accepted += 1;
    }
    assert_eq!(accepted, 6);
    // All lanes are full now: the seventh submission is refused, not lost.
    assert!(d.try_assign(WorkMsg::Work("file-6".to_string())).is_none());

    // One lane drains one item; the submission then succeeds.
    let taken = d.take_from_lane(0);
    assert!(taken.is_some());
    assert!(d.try_assign(WorkMsg::Work("file-6".to_string())).is_some());
    names.push("file-6".to_string());

    // Drain everything: each submitted file appears exactly once.
    let mut delivered: Vec<String> = vec![match taken.unwrap() {
        WorkMsg::Work(f) => f,
        WorkMsg::Shutdown => panic!("no sentinel was sent"),
    }];
    for lane in 0..3 {
        while let Some(msg) = d.take_from_lane(lane) {
            match msg {
                WorkMsg::Work(f) => delivered.push(f),
                WorkMsg::Shutdown => panic!("no sentinel was sent"),
            }
        }
    }
    delivered.sort();
    names.sort();
    assert_eq!(delivered, names);
}

#[test]
fn graceful_drain_processes_pending_batch() {
    // A lane that accumulated 37 files and then sees the sentinel processes
    // exactly those 37 files, in order, and only then stops.
    let mut w = Worker::new();
    let mut sent: Vec<String> = Vec::new();
    for i in 0..37 {
        let name = format!("pending-{}", i);
        sent.push(name.clone());
        let batch = w.on_message(WorkMsg::Work(name));
        assert!(batch.is_none());
        assert_eq!(w.state, LaneState::Intake);
    }
    let batch = w.on_message(WorkMsg::Shutdown);
    assert_eq!(w.state, LaneState::Draining);
    assert_eq!(batch.unwrap(), sent);
    w.on_batch_done();
    assert_eq!(w.state, LaneState::Stopped);
}

#[test]
fn sentinel_with_nothing_pending_stops_directly() {
    let mut w = Worker::new();
    let batch = w.on_message(WorkMsg::Shutdown);
    assert!(batch.is_none());
    assert_eq!(w.state, LaneState::Stopped);
}

#[test]
fn batch_runs_at_the_accumulation_bound() {
    let mut w = Worker::new();
    for i in 0..99 {
        assert!(w.on_message(WorkMsg::Work(format!("f{}", i))).is_none());
    }
    let batch = w.on_message(WorkMsg::Work("f99".to_string()));
    assert_eq!(w.state, LaneState::Processing);
    let batch = batch.unwrap();
    assert_eq!(batch.len(), 100);
    assert_eq!(batch[0], "f0");
    assert_eq!(batch[99], "f99");
    // Intake resumes after the batch completes.
    w.on_batch_done();
    assert_eq!(w.state, LaneState::Intake);
}

#[test]
fn retry_schedules() {
    assert_eq!(fetch_retry_step(1), RetryAction::WaitMillisAndRetry(50));
    assert_eq!(fetch_retry_step(2), RetryAction::WaitMillisAndRetry(1000));
    assert_eq!(fetch_retry_step(3), RetryAction::ReplaceClientAndRetry);
    assert_eq!(fetch_retry_step(4), RetryAction::GiveUp);
    assert_eq!(upload_retry_step(1), RetryAction::WaitMillisAndRetry(100));
    assert_eq!(upload_retry_step(2), RetryAction::WaitMillisAndRetry(1000));
    assert_eq!(upload_retry_step(3), RetryAction::ReplaceClientAndRetry);
    assert_eq!(upload_retry_step(5), RetryAction::GiveUp);
}
