use crab_code::job::{BackgroundJob, JobRegistry, JobStatus, JobType};


#[test]
fn job_status_terminal() {
    assert!(!JobStatus::Pending.is_terminal());
    assert!(!JobStatus::Running.is_terminal());
    assert!(JobStatus::Completed.is_terminal());
    assert!(JobStatus::Failed.is_terminal());
    assert!(JobStatus::Killed.is_terminal());
}

#[test]
fn register_and_lookup() {
    let mut reg = JobRegistry::new();
    let entry = BackgroundJob::new("b12345678".into(), JobType::LocalBash, "git push".into());
    assert!(reg.register(entry));
    assert_eq!(reg.get("b12345678").unwrap().description, "git push");
    assert_eq!(reg.len(), 1);
}

#[test]
fn register_duplicate_returns_false() {
    let mut reg = JobRegistry::new();
    let e1 = BackgroundJob::new("b1".into(), JobType::LocalBash, "cmd1".into());
    let e2 = BackgroundJob::new("b1".into(), JobType::LocalBash, "cmd2".into());
    assert!(reg.register(e1));
    assert!(!reg.register(e2));
}

#[test]
fn set_status_transitions() {
    let mut reg = JobRegistry::new();
    reg.register(BackgroundJob::new(
        "a1".into(),
        JobType::LocalAgent,
        "review".into(),
    ));

    reg.set_status("a1", JobStatus::Running);
    assert_eq!(reg.get("a1").unwrap().status, JobStatus::Running);

    reg.set_status("a1", JobStatus::Completed);
    let entry = reg.get("a1").unwrap();
    assert_eq!(entry.status, JobStatus::Completed);
    assert!(entry.ended_at.is_some());
}

#[test]
fn set_exit_code_marks_terminal() {
    let mut reg = JobRegistry::new();
    reg.register(BackgroundJob::new(
        "b1".into(),
        JobType::LocalBash,
        "ls".into(),
    ));
    reg.set_status("b1", JobStatus::Running);

    reg.set_exit_code("b1", 0);
    assert_eq!(reg.get("b1").unwrap().status, JobStatus::Completed);

    let mut reg = JobRegistry::new();
    reg.register(BackgroundJob::new(
        "b2".into(),
        JobType::LocalBash,
        "bad".into(),
    ));
    reg.set_exit_code("b2", 1);
    assert_eq!(reg.get("b2").unwrap().status, JobStatus::Failed);
}

#[test]
fn evict_terminal() {
    let mut reg = JobRegistry::new();
    reg.register(BackgroundJob::new(
        "a1".into(),
        JobType::LocalAgent,
        "done".into(),
    ));
    reg.register(BackgroundJob::new(
        "a2".into(),
        JobType::LocalAgent,
        "running".into(),
    ));
    reg.set_status("a1", JobStatus::Completed);
    reg.set_status("a2", JobStatus::Running);

    let evicted = reg.evict_terminal();
    assert_eq!(evicted, vec!["a1".to_string()]);
    assert_eq!(reg.len(), 1);
    assert!(reg.get("a1").is_none());
}

#[test]
fn list_running() {
    let mut reg = JobRegistry::new();
    reg.register(BackgroundJob::new(
        "a1".into(),
        JobType::LocalAgent,
        "r1".into(),
    ));
    reg.register(BackgroundJob::new(
        "a2".into(),
        JobType::LocalAgent,
        "r2".into(),
    ));
    reg.register(BackgroundJob::new(
        "a3".into(),
        JobType::LocalAgent,
        "done".into(),
    ));
    reg.set_status("a1", JobStatus::Running);
    reg.set_status("a2", JobStatus::Running);
    reg.set_status("a3", JobStatus::Completed);

    let running = reg.list_running();
    assert_eq!(running.len(), 2);
}




#[test]
fn registry_keeps_the_registered_id() {
    let mut reg = JobRegistry::new();
    assert!(reg.register(BackgroundJob::new("b1".into(), JobType::LocalBash, "cmd".into())));
    reg.get_mut("b1").unwrap().id = "renamed".into();
    assert_eq!(reg.get("b1").unwrap().id, "renamed");
    assert!(reg.get("renamed").is_none());
    assert!(!reg.register(BackgroundJob::new("b1".into(), JobType::LocalAgent, "other".into())));
    reg.set_status("b1", JobStatus::Completed);
    assert_eq!(reg.evict_terminal(), vec!["b1".to_string()]);
    assert!(reg.is_empty());
}
