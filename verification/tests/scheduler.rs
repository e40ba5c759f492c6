use rexml::error::ErrorKind;
use rexml::model::Channel;
use rexml::scheduler::{
    Scheduler, SchedulerAction, SchedulerEvent, SchedulerPhase, CYCLE_INTERVAL_SECONDS,
};

fn channel(id: i64, name: &str) -> Channel {
    Channel {
        id,
        name: name.to_string(),
        upvote_threshold: 100,
        time_cutoff_seconds: 86_400,
    }
}

fn scanning_one() -> Scheduler {
    let (scheduler, _) = Scheduler::start();
    let (scheduler, _) = scheduler.step(SchedulerEvent::Channels(vec![channel(1, "rust")]));
    scheduler
}

#[test]
fn cycle_loads_scans_and_waits_for_five_minutes() {
    assert_eq!(CYCLE_INTERVAL_SECONDS, 300);
    let (scheduler, action) = Scheduler::start();
    assert!(matches!(action, SchedulerAction::LoadChannels));
    assert_eq!(scheduler.phase, SchedulerPhase::Loading);

    let channels = vec![channel(1, "rust"), channel(2, "news")];
    let (scheduler, action) = scheduler.step(SchedulerEvent::Channels(channels));
    match action {
        SchedulerAction::RunScans(channels) => {
            assert_eq!(channels.len(), 2);
            assert_eq!(channels[0].name, "rust");
            assert_eq!(channels[1].name, "news");
            assert_eq!(channels[1].id, 2);
        }
        other => panic!("unexpected action {:?}", other),
    }
    assert_eq!(scheduler.phase, SchedulerPhase::Scanning { running: 2 });

    let (scheduler, action) = scheduler.step(SchedulerEvent::ScanEnded(None));
    assert!(matches!(action, SchedulerAction::Continue));
    assert_eq!(scheduler.phase, SchedulerPhase::Scanning { running: 1 });

    let (scheduler, action) = scheduler.step(SchedulerEvent::ScanEnded(None));
    assert!(matches!(action, SchedulerAction::Wait { seconds: 300 }));
    assert_eq!(scheduler.phase, SchedulerPhase::Waiting);

    let (scheduler, action) = scheduler.step(SchedulerEvent::TimerElapsed);
    assert!(matches!(action, SchedulerAction::LoadChannels));
    assert_eq!(scheduler.phase, SchedulerPhase::Loading);
}

#[test]
fn failed_scan_does_not_stop_the_cycle() {
    let (scheduler, _) = Scheduler::start();
    let channels = vec![channel(1, "a"), channel(2, "b"), channel(3, "c")];
    let (scheduler, _) = scheduler.step(SchedulerEvent::Channels(channels));
    let (scheduler, action) =
        scheduler.step(SchedulerEvent::ScanEnded(Some(ErrorKind::UpstreamFailure)));
    assert!(matches!(action, SchedulerAction::Continue));
    assert_eq!(scheduler.phase, SchedulerPhase::Scanning { running: 2 });
    let (scheduler, action) =
        scheduler.step(SchedulerEvent::ScanEnded(Some(ErrorKind::StorageFailure)));
    assert!(matches!(action, SchedulerAction::Continue));
    let (scheduler, action) = scheduler.step(SchedulerEvent::ScanEnded(None));
    assert!(matches!(action, SchedulerAction::Wait { seconds: 300 }));
    assert_eq!(scheduler.phase, SchedulerPhase::Waiting);
}

#[test]
fn cycle_without_channels_goes_straight_to_the_wait() {
    let (scheduler, _) = Scheduler::start();
    let (scheduler, action) = scheduler.step(SchedulerEvent::Channels(Vec::new()));
    assert!(matches!(action, SchedulerAction::Wait { seconds: 300 }));
    assert_eq!(scheduler.phase, SchedulerPhase::Waiting);
}

#[test]
fn wake_cuts_the_wait_short() {
    let (scheduler, _) = scanning_one().step(SchedulerEvent::ScanEnded(None));
    let (scheduler, action) = scheduler.step(SchedulerEvent::WakeRequested);
    assert!(matches!(action, SchedulerAction::LoadChannels));
    assert_eq!(scheduler.phase, SchedulerPhase::Loading);
    assert!(!scheduler.wake_is_pending());
}

#[test]
fn two_wakes_during_a_cycle_start_one_extra_cycle() {
    let scheduler = scanning_one();
    let (scheduler, action) = scheduler.step(SchedulerEvent::WakeRequested);
    assert!(matches!(action, SchedulerAction::Continue));
    assert!(scheduler.wake_is_pending());
    let once = scheduler;
    let (scheduler, action) = scheduler.step(SchedulerEvent::WakeRequested);
    assert!(matches!(action, SchedulerAction::Continue));
    assert_eq!(scheduler, once);

    let (scheduler, action) = scheduler.step(SchedulerEvent::ScanEnded(None));
    assert!(matches!(action, SchedulerAction::LoadChannels));
    assert!(!scheduler.wake_is_pending());

    let (scheduler, action) = scheduler.step(SchedulerEvent::Channels(vec![channel(1, "rust")]));
    assert!(matches!(action, SchedulerAction::RunScans(_)));
    let (scheduler, action) = scheduler.step(SchedulerEvent::ScanEnded(None));
    assert!(matches!(action, SchedulerAction::Wait { seconds: 300 }));
    assert_eq!(scheduler.phase, SchedulerPhase::Waiting);
}

#[test]
fn wake_while_loading_is_kept_for_the_end_of_the_cycle() {
    let (scheduler, _) = Scheduler::start();
    let (scheduler, action) = scheduler.step(SchedulerEvent::WakeRequested);
    assert!(matches!(action, SchedulerAction::Continue));
    let (scheduler, action) = scheduler.step(SchedulerEvent::Channels(vec![channel(1, "rust")]));
    assert!(matches!(action, SchedulerAction::RunScans(_)));
    assert!(scheduler.wake_is_pending());
    let (scheduler, action) = scheduler.step(SchedulerEvent::ScanEnded(None));
    assert!(matches!(action, SchedulerAction::LoadChannels));
    assert!(!scheduler.wake_is_pending());
}

#[test]
fn kept_wake_restarts_a_cycle_without_channels_at_once() {
    let (scheduler, _) = Scheduler::start();
    let (scheduler, _) = scheduler.step(SchedulerEvent::WakeRequested);
    let (scheduler, action) = scheduler.step(SchedulerEvent::Channels(Vec::new()));
    assert!(matches!(action, SchedulerAction::LoadChannels));
    assert_eq!(scheduler.phase, SchedulerPhase::Loading);
    assert!(!scheduler.wake_is_pending());
}

#[test]
fn failure_to_load_the_channels_costs_the_cycle_and_no_more() {
    let (scheduler, _) = Scheduler::start();
    let (scheduler, action) = scheduler.step(SchedulerEvent::LoadFailed(ErrorKind::StorageFailure));
    assert!(matches!(action, SchedulerAction::Wait { seconds: 300 }));
    assert_eq!(scheduler.phase, SchedulerPhase::Waiting);

    let (scheduler, action) = scheduler.step(SchedulerEvent::TimerElapsed);
    assert!(matches!(action, SchedulerAction::LoadChannels));
    let (scheduler, action) = scheduler.step(SchedulerEvent::Channels(vec![channel(1, "rust")]));
    assert!(matches!(action, SchedulerAction::RunScans(_)));
    assert_eq!(scheduler.phase, SchedulerPhase::Scanning { running: 1 });
}

#[test]
fn failure_to_load_with_a_wake_kept_is_tried_again_at_once() {
    let (scheduler, _) = Scheduler::start();
    let (scheduler, _) = scheduler.step(SchedulerEvent::WakeRequested);
    let (scheduler, action) = scheduler.step(SchedulerEvent::LoadFailed(ErrorKind::StorageFailure));
    assert!(matches!(action, SchedulerAction::LoadChannels));
    assert_eq!(scheduler.phase, SchedulerPhase::Loading);
    assert!(!scheduler.wake_is_pending());
    let (scheduler, action) = scheduler.step(SchedulerEvent::LoadFailed(ErrorKind::StorageFailure));
    assert!(matches!(action, SchedulerAction::Wait { seconds: 300 }));
    assert_eq!(scheduler.phase, SchedulerPhase::Waiting);
}

#[test]
fn events_that_answer_nothing_change_nothing() {
    let scheduler = scanning_one();
    let (after, action) = scheduler.step(SchedulerEvent::TimerElapsed);
    assert!(matches!(action, SchedulerAction::Continue));
    assert_eq!(after, scheduler);
    let (after, action) = scheduler.step(SchedulerEvent::Channels(vec![channel(9, "x")]));
    assert!(matches!(action, SchedulerAction::Continue));
    assert_eq!(after, scheduler);
    let (waiting, _) = scheduler.step(SchedulerEvent::ScanEnded(None));
    let (after, action) = waiting.step(SchedulerEvent::ScanEnded(None));
    assert!(matches!(action, SchedulerAction::Continue));
    assert_eq!(after, waiting);
}
