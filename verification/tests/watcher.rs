use proxy_twister::config::watcher::{
    watch_step, ConfigWatcher, WatchAction, WatchEvent, WatchState, DEBOUNCE_MS, DRAIN_IDLE_MS,
    RETRY_PAUSE_MS, RETRY_WAIT_MS, WRITE_WAIT_MS,
};
use proxy_twister::config::{Config, Profile, Switch};
use proxy_twister::server::Policy;

fn config(default: &str) -> Config {
    Config {
        switch: Switch { default: default.to_string(), rules: vec![] },
        profiles: vec![
            ("direct".to_string(), Profile::Direct),
            ("A".to_string(), Profile::Http { host: "up".to_string(), port: 3128 }),
        ],
    }
}

#[test]
fn reference_timings() {
    assert_eq!(DEBOUNCE_MS, 200);
    assert_eq!(DRAIN_IDLE_MS, 10);
    assert_eq!(WRITE_WAIT_MS, 3000);
    assert_eq!(RETRY_PAUSE_MS, 500);
    assert_eq!(RETRY_WAIT_MS, 500);
}

#[test]
fn config_hot_swap() {
    let mut live = Policy::new(config("direct"));
    assert_eq!(live.resolve("example.com"), Ok(Profile::Direct));

    let mut watcher = ConfigWatcher::new();
    assert_eq!(watcher.advance(WatchEvent::Modified), WatchAction::Sleep(200));
    assert_eq!(watcher.advance(WatchEvent::Quiet), WatchAction::Drain(10));
    assert_eq!(watcher.advance(WatchEvent::Modified), WatchAction::Drain(10));
    assert_eq!(watcher.advance(WatchEvent::Quiet), WatchAction::Load);
    assert_eq!(
        watcher.advance(WatchEvent::Loaded(config("A"))),
        WatchAction::ResetEpochAndAcquire(3000)
    );
    match watcher.advance(WatchEvent::WriteGranted) {
        WatchAction::Install(new) => {
            assert_eq!(new, config("A"));
            live = Policy::new(new);
        }
        other => panic!("expected the new policy, got {:?}", other),
    }
    assert_eq!(
        live.resolve("example.com"),
        Ok(Profile::Http { host: "up".to_string(), port: 3128 })
    );
    assert!(!watcher.is_stopped());
    assert_eq!(watcher.advance(WatchEvent::Modified), WatchAction::Sleep(200));
}

#[test]
fn parse_failure_keeps_old_policy() {
    let mut watcher = ConfigWatcher::new();
    watcher.advance(WatchEvent::Modified);
    watcher.advance(WatchEvent::Quiet);
    assert_eq!(watcher.advance(WatchEvent::Quiet), WatchAction::Load);
    assert_eq!(watcher.advance(WatchEvent::LoadFailed), WatchAction::AwaitChange);
    // The watcher is at rest again and the next change is handled as usual.
    assert_eq!(watcher.advance(WatchEvent::WriteGranted), WatchAction::AwaitChange);
    assert_eq!(watcher.advance(WatchEvent::Modified), WatchAction::Sleep(200));
}

#[test]
fn failed_load_never_installs() {
    let states = || {
        vec![
            WatchState::Idle,
            WatchState::Debouncing,
            WatchState::Draining,
            WatchState::Loading,
            WatchState::Acquiring(config("A")),
            WatchState::Pausing(config("A")),
            WatchState::Retrying(config("A")),
            WatchState::Stopped,
        ]
    };
    for state in states() {
        let (_, action) = watch_step(state, WatchEvent::LoadFailed);
        assert!(!matches!(action, WatchAction::Install(_) | WatchAction::ResetEpochAndAcquire(_)));
    }
}

#[test]
fn write_wait_is_retried_once() {
    let (state, action) = watch_step(WatchState::Loading, WatchEvent::Loaded(config("A")));
    assert_eq!(state, WatchState::Acquiring(config("A")));
    assert_eq!(action, WatchAction::ResetEpochAndAcquire(3000));
    let (state, action) = watch_step(state, WatchEvent::WriteTimedOut);
    assert_eq!(state, WatchState::Pausing(config("A")));
    assert_eq!(action, WatchAction::Sleep(500));
    let (state, action) = watch_step(state, WatchEvent::Quiet);
    assert_eq!(state, WatchState::Retrying(config("A")));
    assert_eq!(action, WatchAction::Acquire(500));
    let (granted, action) = watch_step(WatchState::Retrying(config("A")), WatchEvent::WriteGranted);
    assert_eq!(granted, WatchState::Idle);
    assert_eq!(action, WatchAction::Install(config("A")));
    let (state, action) = watch_step(state, WatchEvent::WriteTimedOut);
    assert_eq!(state, WatchState::Idle);
    assert_eq!(action, WatchAction::AwaitChange);
}

#[test]
fn other_changes_do_not_start_a_reload_but_end_a_drain() {
    assert_eq!(
        watch_step(WatchState::Idle, WatchEvent::OtherChange),
        (WatchState::Idle, WatchAction::AwaitChange)
    );
    assert_eq!(
        watch_step(WatchState::Draining, WatchEvent::OtherChange),
        (WatchState::Loading, WatchAction::Load)
    );
}

#[test]
fn events_out_of_turn_change_nothing() {
    assert_eq!(
        watch_step(WatchState::Idle, WatchEvent::Quiet),
        (WatchState::Idle, WatchAction::AwaitChange)
    );
    assert_eq!(
        watch_step(WatchState::Idle, WatchEvent::Loaded(config("A"))),
        (WatchState::Idle, WatchAction::AwaitChange)
    );
    assert_eq!(
        watch_step(WatchState::Debouncing, WatchEvent::Modified),
        (WatchState::Debouncing, WatchAction::Sleep(200))
    );
    assert_eq!(
        watch_step(WatchState::Loading, WatchEvent::Modified),
        (WatchState::Loading, WatchAction::Load)
    );
    assert_eq!(
        watch_step(WatchState::Acquiring(config("A")), WatchEvent::Loaded(config("direct"))),
        (WatchState::Acquiring(config("A")), WatchAction::Acquire(3000))
    );
    assert_eq!(
        watch_step(WatchState::Pausing(config("A")), WatchEvent::WriteGranted),
        (WatchState::Pausing(config("A")), WatchAction::Sleep(500))
    );
    assert_eq!(
        watch_step(WatchState::Retrying(config("A")), WatchEvent::Quiet),
        (WatchState::Retrying(config("A")), WatchAction::Acquire(500))
    );
}

#[test]
fn shutdown_stops_the_watcher_for_good() {
    for state in [
        WatchState::Idle,
        WatchState::Debouncing,
        WatchState::Draining,
        WatchState::Loading,
        WatchState::Acquiring(config("A")),
        WatchState::Pausing(config("A")),
        WatchState::Retrying(config("A")),
        WatchState::Stopped,
    ] {
        assert_eq!(
            watch_step(state, WatchEvent::Shutdown),
            (WatchState::Stopped, WatchAction::Stop)
        );
    }
    let mut watcher = ConfigWatcher::new();
    assert_eq!(watcher.advance(WatchEvent::Shutdown), WatchAction::Stop);
    assert!(watcher.is_stopped());
    assert_eq!(watcher.advance(WatchEvent::Modified), WatchAction::Stop);
    assert_eq!(watcher.advance(WatchEvent::Loaded(config("A"))), WatchAction::Stop);
    assert!(watcher.is_stopped());
}
