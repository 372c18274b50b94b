use bluebubbles::utils::{ensure_scheme, normalize_url, spawn_async, Delivery, TaskBridge, TaskState};

#[test]
fn normalize_url_trims_and_adds_the_scheme() {
    assert_eq!(normalize_url("  myserver:1234 \n"), "https://myserver:1234");
    assert_eq!(normalize_url("http://host"), "http://host");
    assert_eq!(normalize_url("\thttps://host/ "), "https://host/");
    assert_eq!(normalize_url(""), "https://");
    assert_eq!(normalize_url(" \u{a0}\u{3000} "), "https://");
    assert_eq!(normalize_url("HTTP://host"), "https://HTTP://host");
    assert_eq!(normalize_url("a b"), "https://a b");
}

#[test]
fn ensure_scheme_leaves_whitespace_alone() {
    assert_eq!(ensure_scheme(" host"), "https:// host");
    assert_eq!(ensure_scheme("https://"), "https://");
    assert_eq!(ensure_scheme("http:/host"), "https://http:/host");
}

#[test]
fn a_task_runs_from_scheduled_to_its_end() {
    let mut bridge: TaskBridge<u32> = TaskBridge::new();
    assert_eq!(bridge.state(0), None);
    let task = spawn_async(&mut bridge);
    assert_eq!(task, 0);
    assert_eq!(bridge.state(task), Some(TaskState::Scheduled));
    assert!(!bridge.finish(task, Ok(1)));
    assert!(bridge.start(task));
    assert!(!bridge.start(task));
    assert_eq!(bridge.state(task), Some(TaskState::Running));
    assert_eq!(bridge.deliver(), None);
    assert!(bridge.finish(task, Ok(7)));
    assert_eq!(bridge.state(task), Some(TaskState::Completed));
    assert!(!bridge.finish(task, Ok(8)));
    assert_eq!(bridge.deliver(), Some(Delivery { task, outcome: Ok(7) }));
    assert_eq!(bridge.deliver(), None);
    assert_eq!(bridge.state(task), Some(TaskState::Completed));
}

#[test]
fn outcomes_are_delivered_once_and_oldest_first() {
    let mut bridge: TaskBridge<String> = TaskBridge::new();
    let first = spawn_async(&mut bridge);
    let second = spawn_async(&mut bridge);
    let third = spawn_async(&mut bridge);
    assert_eq!((first, second, third), (0, 1, 2));
    assert!(bridge.start(second));
    assert!(bridge.start(first));
    assert!(bridge.finish(second, Err("broken".to_string())));
    assert!(bridge.finish(first, Ok("done".to_string())));
    assert_eq!(bridge.state(second), Some(TaskState::Failed));
    assert_eq!(bridge.state(third), Some(TaskState::Scheduled));
    assert_eq!(bridge.deliver(), Some(Delivery { task: second, outcome: Err("broken".to_string()) }));
    assert_eq!(bridge.deliver(), Some(Delivery { task: first, outcome: Ok("done".to_string()) }));
    assert_eq!(bridge.deliver(), None);
    assert!(!bridge.start(7));
    assert!(!bridge.finish(7, Ok(String::new())));
}
