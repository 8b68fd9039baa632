use media_dedup::engine::AnalysisError;
use media_dedup::service::{copy_groups, poll_reply, register_task, registry_failure, PollReply, TaskResult};
use media_dedup::tasks::{RegistryError, TaskRegistry, TaskState};

fn running(r: Option<&TaskState<u32>>) -> Option<usize> {
    match r {
        Some(TaskState::Running(p)) => Some(*p),
        _ => None,
    }
}

fn completed(r: Option<&TaskState<u32>>) -> Option<u32> {
    match r {
        Some(TaskState::Completed(v)) => Some(*v),
        _ => None,
    }
}

#[test]
fn unknown_id_is_not_found() {
    let t: TaskRegistry<u32> = TaskRegistry::new();
    assert!(t.poll(42).is_none());
    assert!(!t.contains(42));
    let s: TaskRegistry<TaskResult> = TaskRegistry::new();
    assert!(poll_reply(&s, 42).is_none());
}

#[test]
fn submit_starts_running_at_zero() {
    let mut t: TaskRegistry<u32> = TaskRegistry::new();
    assert_eq!(t.submit(7), Ok(()));
    assert!(t.contains(7));
    assert_eq!(running(t.poll(7)), Some(0));
}

#[test]
fn duplicate_id_is_refused() {
    let mut t: TaskRegistry<u32> = TaskRegistry::new();
    t.submit(7).unwrap();
    t.report_progress(7, 3);
    assert_eq!(t.submit(7), Err(RegistryError::DuplicateId));
    assert_eq!(running(t.poll(7)), Some(3));
}

#[test]
fn progress_never_goes_down() {
    let mut t: TaskRegistry<u32> = TaskRegistry::new();
    t.submit(1).unwrap();
    t.report_progress(1, 4);
    t.report_progress(1, 2);
    assert_eq!(running(t.poll(1)), Some(4));
    t.report_progress(1, 9);
    assert_eq!(running(t.poll(1)), Some(9));
    t.report_progress(5, 9);
    assert!(t.poll(5).is_none());
}

#[test]
fn completed_result_stays() {
    let mut t: TaskRegistry<u32> = TaskRegistry::new();
    t.submit(1).unwrap();
    assert_eq!(t.complete(1, 10), Ok(()));
    assert_eq!(completed(t.poll(1)), Some(10));
    assert_eq!(t.complete(1, 11), Err(RegistryError::AlreadyCompleted));
    t.report_progress(1, 5);
    t.submit(2).unwrap();
    assert_eq!(completed(t.poll(1)), Some(10));
    assert_eq!(completed(t.poll(1)), Some(10));
    assert_eq!(t.complete(3, 1), Err(RegistryError::UnknownId));
}

#[test]
fn registered_ids_are_fresh_version_four() {
    let mut t: TaskRegistry<u32> = TaskRegistry::new();
    let a = register_task(&mut t).unwrap();
    let b = register_task(&mut t).unwrap();
    assert_ne!(a, b);
    assert_eq!((a >> 76) & 0xf, 4);
    assert_eq!(running(t.poll(a)), Some(0));
    assert_eq!(running(t.poll(b)), Some(0));
}

#[test]
fn poll_reply_tells_each_state() {
    let mut t: TaskRegistry<TaskResult> = TaskRegistry::new();
    t.submit(1).unwrap();
    t.submit(2).unwrap();
    t.submit(3).unwrap();
    t.report_progress(1, 2);
    assert!(matches!(poll_reply(&t, 1), Some(PollReply::Pending(2))));
    let groups = vec![vec!["a".to_string(), "b".to_string()], vec!["c".to_string()]];
    t.complete(2, Ok(groups.clone())).unwrap();
    match poll_reply(&t, 2) {
        Some(PollReply::Completed(g)) => assert_eq!(g, groups),
        other => panic!("unexpected reply {:?}", other),
    }
    t.complete(3, Err(AnalysisError::Io("no such directory: /nope".to_string()))).unwrap();
    for _ in 0..2 {
        match poll_reply(&t, 3) {
            Some(PollReply::Failed(msg)) => assert_eq!(msg, "no such directory: /nope"),
            other => panic!("unexpected reply {:?}", other),
        }
    }
}

#[test]
fn copy_keeps_groups() {
    let g = vec![vec!["x".to_string()], vec![], vec!["y".to_string(), "z".to_string()]];
    assert_eq!(copy_groups(&g), g);
}

#[test]
fn registry_failures_are_internal() {
    for e in [RegistryError::DuplicateId, RegistryError::UnknownId, RegistryError::AlreadyCompleted] {
        assert!(matches!(registry_failure(e), AnalysisError::Internal(_)));
    }
}

#[test]
fn failed_task_does_not_block_new_ones() {
    let mut t: TaskRegistry<TaskResult> = TaskRegistry::new();
    let id = register_task(&mut t).unwrap();
    t.complete(id, Err(AnalysisError::Io("/missing: No such file or directory".to_string()))).unwrap();
    let next = register_task(&mut t).unwrap();
    assert_ne!(id, next);
    assert_eq!((next >> 62) & 3, 2);
    match poll_reply(&t, id) {
        Some(PollReply::Failed(msg)) => assert!(!msg.is_empty()),
        other => panic!("unexpected reply {:?}", other),
    }
    assert!(matches!(poll_reply(&t, next), Some(PollReply::Pending(0))));
}
