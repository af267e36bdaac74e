use rshell::jobs::{continued_message, not_found_message, Job, JobManager, JobStatus};

fn ids(m: &JobManager) -> Vec<u32> {
    m.list_jobs().iter().map(|j| j.id).collect()
}

#[test]
fn identifiers_start_at_one_and_ascend() {
    let mut m = JobManager::new();
    assert!(m.list_jobs().is_empty());
    assert!(m.has_room());
    assert_eq!(m.add_job(500, "sleep 1".to_string()), 1);
    assert_eq!(m.add_job(400, "sleep 2".to_string()), 2);
    assert_eq!(m.add_job(300, "sleep 3".to_string()), 3);
    assert_eq!(ids(&m), vec![1, 2, 3]);
}

#[test]
fn an_identifier_is_never_given_twice() {
    let mut m = JobManager::new();
    assert_eq!(m.add_job(10, "a".to_string()), 1);
    assert_eq!(m.add_job(11, "b".to_string()), 2);
    assert!(m.remove_job(2).is_some());
    assert!(m.remove_job(1).is_some());
    assert_eq!(m.add_job(12, "c".to_string()), 3);
    assert_eq!(m.update_jobs(&vec![3]).len(), 1);
    assert_eq!(m.add_job(13, "d".to_string()), 4);
    assert_eq!(ids(&m), vec![4]);
}

#[test]
fn a_new_job_is_running() {
    let mut m = JobManager::new();
    let id = m.add_job(77, "sleep 9 ".to_string());
    let job = m.get_job(id).unwrap();
    assert_eq!(job.id, 1);
    assert_eq!(job.pid, 77);
    assert_eq!(job.command, "sleep 9 ");
    assert_eq!(job.status, JobStatus::Running);
    assert!(m.get_job(2).is_none());
    assert!(m.get_job(0).is_none());
}

#[test]
fn an_ended_job_leaves_the_table_exactly_once() {
    let mut m = JobManager::new();
    m.add_job(10, "a".to_string());
    m.add_job(11, "b".to_string());
    m.add_job(12, "c".to_string());
    assert!(m.update_jobs(&vec![]).is_empty());
    assert_eq!(ids(&m), vec![1, 2, 3]);
    let ended = m.update_jobs(&vec![2]);
    assert_eq!(ended.len(), 1);
    assert_eq!(ended[0].id, 2);
    assert_eq!(ended[0].pid, 11);
    assert_eq!(ended[0].command, "b");
    assert_eq!(ended[0].status, JobStatus::Done);
    assert_eq!(ids(&m), vec![1, 3]);
    assert!(m.update_jobs(&vec![2]).is_empty());
    assert_eq!(ids(&m), vec![1, 3]);
}

#[test]
fn ended_jobs_come_back_in_the_order_of_the_table() {
    let mut m = JobManager::new();
    for pid in 0..5 {
        m.add_job(100 + pid, format!("job{}", pid));
    }
    let ended: Vec<u32> = m.update_jobs(&vec![5, 9, 1, 3, 3]).iter().map(|j| j.id).collect();
    assert_eq!(ended, vec![1, 3, 5]);
    assert_eq!(ids(&m), vec![2, 4]);
    assert_eq!(m.list_jobs()[0].status, JobStatus::Running);
}

#[test]
fn removing_hands_the_job_over() {
    let mut m = JobManager::new();
    m.add_job(10, "a".to_string());
    m.add_job(11, "b".to_string());
    let job = m.remove_job(1).unwrap();
    assert_eq!((job.id, job.pid, job.command.as_str()), (1, 10, "a"));
    assert!(m.remove_job(1).is_none());
    assert!(m.get_job(1).is_none());
    assert_eq!(ids(&m), vec![2]);
    assert!(m.remove_job(7).is_none());
    assert_eq!(ids(&m), vec![2]);
}

#[test]
fn the_foreground_process_is_remembered() {
    let mut m = JobManager::new();
    assert_eq!(m.get_foreground_pid(), None);
    m.set_foreground_pid(Some(42));
    assert_eq!(m.get_foreground_pid(), Some(42));
    m.add_job(1, "x".to_string());
    assert_eq!(m.get_foreground_pid(), Some(42));
    m.set_foreground_pid(None);
    assert_eq!(m.get_foreground_pid(), None);
    assert_eq!(ids(&m), vec![1]);
}

#[test]
fn the_lines_about_jobs_are_worded_exactly() {
    let job = Job { id: 3, pid: 4711, command: "sleep 10".to_string(), status: JobStatus::Running };
    assert_eq!(job.started(), "[3] 4711");
    assert_eq!(job.listing(), "[3] Running 4711 sleep 10");
    assert_eq!(job.completion("exit status: 0"), "\n[3] Done sleep 10 (exit: exit status: 0)");
    assert_eq!(job.foreground_done("exit status: 1"), "[3] Done (exit: exit status: 1)");
    let stopped = Job { id: 10, pid: 0, command: String::new(), status: JobStatus::Stopped };
    assert_eq!(stopped.listing(), "[10] Stopped 0 ");
    let done = Job { id: u32::MAX, pid: u32::MAX, command: "x".to_string(), status: JobStatus::Done };
    assert_eq!(done.listing(), "[4294967295] Done 4294967295 x");
    assert_eq!(continued_message(2), "[2] continued in background");
    assert_eq!(not_found_message("fg", 5), "fg: job 5 not found");
    assert_eq!(not_found_message("bg", 120), "bg: job 120 not found");
}
