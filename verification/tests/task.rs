use crab_code::task::{Task, TaskList, TaskStatus};


#[test]
fn create_assigns_incrementing_ids() {
    let mut list = TaskList::new();
    let id1 = list.create("First".into(), "desc".into());
    let id2 = list.create("Second".into(), "desc".into());
    assert_eq!(id1, "1");
    assert_eq!(id2, "2");
}

#[test]
fn get_returns_task() {
    let mut list = TaskList::new();
    let id = list.create("Test".into(), "desc".into());
    let task = list.get(&id).unwrap();
    assert_eq!(task.subject, "Test");
    assert_eq!(task.status, TaskStatus::Pending);
}

#[test]
fn get_deleted_returns_none() {
    let mut list = TaskList::new();
    let id = list.create("Test".into(), "desc".into());
    list.delete(&id);
    assert!(list.get(&id).is_none());
}

#[test]
fn list_excludes_deleted() {
    let mut list = TaskList::new();
    list.create("Keep".into(), "desc".into());
    let id2 = list.create("Delete".into(), "desc".into());
    list.delete(&id2);
    let visible = list.list();
    assert_eq!(visible.len(), 1);
    assert_eq!(visible[0].subject, "Keep");
}

#[test]
fn update_changes_fields() {
    let mut list = TaskList::new();
    let id = list.create("Old".into(), "old desc".into());
    list.update(
        &id,
        Some(TaskStatus::InProgress),
        Some("New".into()),
        None,
        Some("alice".into()),
        None,
        None,
    );
    let task = list.get(&id).unwrap();
    assert_eq!(task.subject, "New");
    assert_eq!(task.status, TaskStatus::InProgress);
    assert_eq!(task.owner.as_deref(), Some("alice"));
    assert_eq!(task.description, "old desc");
}

#[test]
fn update_nonexistent_returns_false() {
    let mut list = TaskList::new();
    assert!(!list.update("999", None, None, None, None, None, None));
}

#[test]
fn update_with_deleted_status_deletes() {
    let mut list = TaskList::new();
    let id = list.create("Doomed".into(), String::new());
    assert!(list.update(&id, Some(TaskStatus::Deleted), None, None, None, None, None));
    assert!(list.get(&id).is_none());
}

#[test]
fn update_adds_dependencies_both_ways() {
    let mut list = TaskList::new();
    let upstream = list.create("Blocker".into(), String::new());
    let downstream = list.create("Blocked".into(), String::new());
    list.update(
        &downstream,
        None,
        None,
        None,
        None,
        Some(vec![upstream.clone()]),
        None,
    );
    assert!(
        list.get(&downstream)
            .unwrap()
            .blocked_by
            .contains(&upstream)
    );
    assert!(list.get(&upstream).unwrap().blocks.contains(&downstream));
}

#[test]
fn available_tasks_filters_correctly() {
    let mut list = TaskList::new();
    let id1 = list.create("Available".into(), String::new());
    let id2 = list.create("Blocked".into(), String::new());
    let id3 = list.create("Owned".into(), String::new());
    list.create("In progress".into(), String::new());

    list.add_blocked_by(&id2, &id1);
    list.update(&id3, None, None, None, Some("bob".into()), None, None);
    list.update(
        "4",
        Some(TaskStatus::InProgress),
        None,
        None,
        None,
        None,
        None,
    );

    let available = list.available_tasks();
    assert_eq!(available.len(), 1);
    assert_eq!(available[0].id, id1);
}

#[test]
fn unblocked_after_completion() {
    let mut list = TaskList::new();
    let id1 = list.create("Blocker".into(), String::new());
    let id2 = list.create("Blocked".into(), String::new());
    list.add_blocked_by(&id2, &id1);

    assert!(list.available_tasks().iter().all(|t| t.id != id2));

    list.update(
        &id1,
        Some(TaskStatus::Completed),
        None,
        None,
        None,
        None,
        None,
    );
    assert!(list.available_tasks().iter().any(|t| t.id == id2));
}

#[test]
fn add_blocks_creates_bidirectional_dependency() {
    let mut list = TaskList::new();
    let id1 = list.create("Blocker".into(), String::new());
    let id2 = list.create("Blocked".into(), String::new());
    list.add_blocks(&id1, &id2);

    assert!(list.get(&id1).unwrap().blocks.contains(&id2));
    assert!(list.get(&id2).unwrap().blocked_by.contains(&id1));
}

#[test]
fn claim_takes_an_available_task() {
    let mut list = TaskList::new();
    let id = list.create("Work".into(), String::new());

    assert!(list.claim(&id, "alice"));
    let task = list.get(&id).unwrap();
    assert_eq!(task.owner.as_deref(), Some("alice"));
    assert_eq!(task.status, TaskStatus::InProgress);
}

#[test]
fn a_task_can_only_be_claimed_once() {
    let mut list = TaskList::new();
    let id = list.create("Work".into(), String::new());

    assert!(list.claim(&id, "alice"));
    assert!(
        !list.claim(&id, "bob"),
        "a claimed task is no longer available"
    );
    assert_eq!(list.get(&id).unwrap().owner.as_deref(), Some("alice"));
}

#[test]
fn a_blocked_task_cannot_be_claimed() {
    let mut list = TaskList::new();
    let upstream = list.create("Blocker".into(), String::new());
    let downstream = list.create("Blocked".into(), String::new());
    list.add_blocked_by(&downstream, &upstream);

    assert!(!list.claim(&downstream, "alice"));

    list.update(
        &upstream,
        Some(TaskStatus::Completed),
        None,
        None,
        None,
        None,
        None,
    );
    assert!(list.claim(&downstream, "alice"));
}

#[test]
fn claiming_a_missing_task_fails() {
    let mut list = TaskList::new();
    assert!(!list.claim("999", "alice"));
}

#[test]
fn claim_next_hands_out_each_task_once() {
    let mut list = TaskList::new();
    let first = list.create("First".into(), String::new());
    let second = list.create("Second".into(), String::new());

    let a = list.claim_next("alice").unwrap();
    let b = list.claim_next("bob").unwrap();
    assert_eq!(a.id, first);
    assert_eq!(b.id, second);
    assert_eq!(a.owner.as_deref(), Some("alice"));
    assert_eq!(b.owner.as_deref(), Some("bob"));

    assert!(list.claim_next("carol").is_none(), "the queue is drained");
}

#[test]
fn claim_next_skips_blocked_tasks() {
    let mut list = TaskList::new();
    let upstream = list.create("Blocker".into(), String::new());
    let downstream = list.create("Blocked".into(), String::new());
    list.add_blocked_by(&downstream, &upstream);

    assert_eq!(list.claim_next("alice").unwrap().id, upstream);
    assert!(list.claim_next("bob").is_none());
}

#[test]
fn task_status_display() {
    assert_eq!(TaskStatus::Pending.to_string(), "pending");
    assert_eq!(TaskStatus::InProgress.to_string(), "in_progress");
    assert_eq!(TaskStatus::Completed.to_string(), "completed");
    assert_eq!(TaskStatus::Deleted.to_string(), "deleted");
}




#[test]
fn default_task_list_is_empty() {
    let list = TaskList::default();
    assert!(list.list().is_empty());
}

#[test]
fn delete_nonexistent_returns_false() {
    let mut list = TaskList::new();
    assert!(!list.delete("999"));
}

#[test]
fn update_description() {
    let mut list = TaskList::new();
    let id = list.create("Task".into(), "old".into());
    list.update(&id, None, None, Some("new desc".into()), None, None, None);
    assert_eq!(list.get(&id).unwrap().description, "new desc");
}

#[test]
fn add_blocked_by_nonexistent_returns_false() {
    let mut list = TaskList::new();
    assert!(!list.add_blocked_by("999", "888"));
}

#[test]
fn add_blocked_by_duplicate_is_idempotent() {
    let mut list = TaskList::new();
    let id1 = list.create("A".into(), String::new());
    let id2 = list.create("B".into(), String::new());
    list.add_blocked_by(&id2, &id1);
    list.add_blocked_by(&id2, &id1);
    assert_eq!(list.get(&id2).unwrap().blocked_by.len(), 1);
}


#[test]
fn available_tasks_excludes_completed() {
    let mut list = TaskList::new();
    let id = list.create("Done".into(), String::new());
    list.update(
        &id,
        Some(TaskStatus::Completed),
        None,
        None,
        None,
        None,
        None,
    );
    assert!(list.available_tasks().is_empty());
}

#[test]
fn available_tasks_excludes_in_progress() {
    let mut list = TaskList::new();
    let id = list.create("Working".into(), String::new());
    list.update(
        &id,
        Some(TaskStatus::InProgress),
        None,
        None,
        None,
        None,
        None,
    );
    assert!(list.available_tasks().is_empty());
}

#[test]
fn multiple_dependencies() {
    let mut list = TaskList::new();
    let id1 = list.create("Dep 1".into(), String::new());
    let id2 = list.create("Dep 2".into(), String::new());
    let id3 = list.create("Blocked".into(), String::new());
    list.add_blocked_by(&id3, &id1);
    list.add_blocked_by(&id3, &id2);

    assert!(list.available_tasks().iter().all(|t| t.id != id3));

    list.update(
        &id1,
        Some(TaskStatus::Completed),
        None,
        None,
        None,
        None,
        None,
    );
    assert!(list.available_tasks().iter().all(|t| t.id != id3));

    list.update(
        &id2,
        Some(TaskStatus::Completed),
        None,
        None,
        None,
        None,
        None,
    );
    assert!(list.available_tasks().iter().any(|t| t.id == id3));
}

#[test]
fn get_mut_modifies_task() {
    let mut list = TaskList::new();
    let id = list.create("Mutable".into(), String::new());
    list.get_mut(&id).unwrap().subject = "Modified".into();
    assert_eq!(list.get(&id).unwrap().subject, "Modified");
}

