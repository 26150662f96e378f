use radar_pipeline::actor::{ActorSystem, Liveness};

fn get_processed(sys: &mut ActorSystem<String>, a: usize) -> Vec<String> {
    let mut out = Vec::new();
    while let Some(c) = sys.process_next(a) {
        out.push(c);
    }
    out
}

#[test]
fn test_notify() {
    let mut sys: ActorSystem<String> = ActorSystem::new();
    let port = sys.spawn();
    let _ = sys.send(port, "hello".to_string());
    let _ = sys.send(port, "world".to_string());
    let strings = get_processed(&mut sys, port);
    assert_eq!(strings, vec!["hello".to_string(), "world".to_string()]);
}

#[test]
fn test_monitoring_with_clean_stop() {
    let mut sys: ActorSystem<String> = ActorSystem::new();
    let strings = sys.spawn();
    let stoppable = sys.spawn();
    sys.monitor(strings, stoppable, "it stopped".to_string());

    sys.terminate(stoppable, Liveness::Returned);

    assert_eq!(get_processed(&mut sys, strings), vec!["it stopped".to_string()]);
}

#[test]
fn test_demonitoring() {
    let mut sys: ActorSystem<String> = ActorSystem::new();
    let strings = sys.spawn();
    let stoppable = sys.spawn();
    let monitor = sys.monitor(strings, stoppable, "it stopped".to_string());
    monitor.cancel(&mut sys);

    sys.terminate(stoppable, Liveness::Returned);

    assert_eq!(get_processed(&mut sys, strings), Vec::<String>::new());
}

#[test]
fn test_monitoring_with_manual_abort() {
    let mut sys: ActorSystem<String> = ActorSystem::new();
    let strings = sys.spawn();
    let stoppable = sys.spawn();
    sys.monitor(strings, stoppable, "it stopped".to_string());

    sys.abort(stoppable);

    assert_eq!(get_processed(&mut sys, strings), vec!["it stopped".to_string()]);
}

#[test]
fn test_monitoring_with_drop() {
    let mut sys: ActorSystem<String> = ActorSystem::new();
    let strings = sys.spawn();
    let stoppable = sys.spawn();
    sys.monitor(strings, stoppable, "it stopped".to_string());

    sys.drop_port(stoppable);

    assert!(!sys.is_running(stoppable));
    assert_eq!(get_processed(&mut sys, strings), vec!["it stopped".to_string()]);
}

#[test]
fn test_monitoring_with_panic() {
    let mut sys: ActorSystem<String> = ActorSystem::new();
    let strings = sys.spawn();
    let stoppable = sys.spawn();
    sys.monitor(strings, stoppable, "it stopped".to_string());

    sys.terminate(stoppable, Liveness::Panicked);

    assert_eq!(get_processed(&mut sys, strings), vec!["it stopped".to_string()]);
}

#[test]
fn test_join() {
    let mut sys: ActorSystem<String> = ActorSystem::new();
    let port = sys.spawn();

    let _ = sys.send(port, "stop".to_string());
    let processed = sys.process_next(port);
    assert_eq!(processed, Some("stop".to_string()));
    sys.terminate(port, Liveness::Returned);

    assert!(!sys.is_running(port));
}

#[test]
fn monitor_on_dead_actor_fires_synchronously() {
    let mut sys: ActorSystem<String> = ActorSystem::new();
    let watcher = sys.spawn();
    let target = sys.spawn();
    sys.terminate(target, Liveness::Returned);

    sys.monitor(watcher, target, "already gone".to_string());

    assert_eq!(sys.process_next(watcher), Some("already gone".to_string()));
}

#[test]
fn send_to_dead_actor_returns_the_command() {
    let mut sys: ActorSystem<String> = ActorSystem::new();
    let a = sys.spawn();
    sys.terminate(a, Liveness::Returned);
    assert_eq!(sys.send(a, "late".to_string()), Err("late".to_string()));
}

#[test]
fn cloned_port_keeps_actor_alive_until_last_drop() {
    let mut sys: ActorSystem<String> = ActorSystem::new();
    let a = sys.spawn();
    sys.clone_port(a);

    sys.drop_port(a);
    assert!(sys.is_running(a));

    sys.drop_port(a);
    assert!(!sys.is_running(a));
}

#[test]
fn commands_are_processed_in_fifo_order() {
    let mut sys: ActorSystem<u32> = ActorSystem::new();
    let a = sys.spawn();
    for n in 0..10u32 {
        assert!(sys.send(a, n).is_ok());
    }
    for n in 0..10u32 {
        assert_eq!(sys.process_next(a), Some(n));
    }
    assert_eq!(sys.process_next(a), None);
}

#[test]
fn each_monitor_fires_exactly_once() {
    let mut sys: ActorSystem<String> = ActorSystem::new();
    let w1 = sys.spawn();
    let w2 = sys.spawn();
    let target = sys.spawn();
    sys.monitor(w1, target, "first".to_string());
    sys.monitor(w2, target, "second".to_string());
    sys.monitor(w1, target, "third".to_string());

    sys.terminate(target, Liveness::Aborted);

    assert_eq!(
        get_processed(&mut sys, w1),
        vec!["first".to_string(), "third".to_string()]
    );
    assert_eq!(get_processed(&mut sys, w2), vec!["second".to_string()]);
}
