use cryptotrace::jobs::{default_jobs_dir_components, start_id_for_files, highest_job_id, restore_on_restart, Job, JobQueue, JobStatus};

fn test_queue() -> JobQueue {
    JobQueue::with_start_id(4, 1)
}

fn submit(queue: &mut JobQueue, input: &str) -> u64 {
    queue.submit(input.to_string(), "string".to_string(), "forensics".to_string(), false, false, false)
}

#[test]
fn test_submit_and_get() {
    let mut queue = test_queue();
    let id = queue.submit(
        "test".to_string(),
        "string".to_string(),
        "forensics".to_string(),
        false,
        false,
        false,
    );
    let job = queue.get(id).unwrap();
    assert_eq!(job.status, JobStatus::Pending);
    assert_eq!(job.input, "test");
}

#[test]
fn test_cancel_pending() {
    let mut queue = test_queue();
    let id = queue.submit("data".to_string(), "string".to_string(), "forensics".to_string(), false, false, false);
    let cancelled = queue.cancel(id).unwrap();
    assert_eq!(cancelled.status, JobStatus::Cancelled);
}

#[test]
fn test_remove() {
    let mut queue = test_queue();
    let id = queue.submit("data".to_string(), "string".to_string(), "forensics".to_string(), false, false, false);
    assert!(queue.remove(id));
    assert!(queue.get(id).is_none());
}

#[test]
fn test_in_memory_mode() {
    let mut queue = JobQueue::in_memory(4);
    let id = queue.submit("mem-only".to_string(), "string".to_string(), "forensics".to_string(), false, false, false);
    let job = queue.get(id).unwrap();
    assert_eq!(job.input, "mem-only");
}

#[test]
fn submissions_get_consecutive_ids_and_timestamps() {
    let mut queue = JobQueue::with_start_id(2, 40);
    let a = submit(&mut queue, "a");
    let b = submit(&mut queue, "b");
    assert_eq!((a, b), (40, 41));
    let job = queue.get(b).unwrap();
    assert_eq!(job.id, 41);
    assert_eq!(job.created_at, job.updated_at);
    assert!(job.created_at.contains('.'));
    assert_eq!(job.result, None);
    assert_eq!(job.context, "forensics");
}

#[test]
fn id_counter_wraps_like_an_atomic() {
    let mut queue = JobQueue::with_start_id(1, u64::MAX);
    assert_eq!(submit(&mut queue, "last"), u64::MAX);
    assert_eq!(submit(&mut queue, "first"), 0);
}

#[test]
fn cancel_leaves_finished_jobs_alone() {
    let mut queue = test_queue();
    let id = submit(&mut queue, "x");
    queue.complete_job(id, Ok("{\"detected_type\":\"hash\"}".to_string()));
    let job = queue.cancel(id).unwrap();
    assert_eq!(job.status, JobStatus::Completed);
    assert_eq!(job.result.as_deref(), Some("{\"detected_type\":\"hash\"}"));
    assert!(queue.cancel(999).is_none());
}

#[test]
fn remove_unknown_job_reports_false() {
    let mut queue = test_queue();
    assert!(!queue.remove(3));
}

#[test]
fn dispatch_respects_concurrency_limit() {
    let mut queue = JobQueue::with_start_id(1, 1);
    let a = submit(&mut queue, "a");
    let b = submit(&mut queue, "b");
    let started = queue.dispatch_one().unwrap();
    assert_eq!(started.status, JobStatus::Running);
    assert!(started.id == a || started.id == b);
    assert_eq!(queue.get(started.id).unwrap().status, JobStatus::Running);
    // the single slot is taken
    assert!(queue.dispatch_one().is_none());
    queue.complete_job(started.id, Err("boom".to_string()));
    queue.release_slot();
    assert_eq!(queue.get(started.id).unwrap().status, JobStatus::Failed("boom".to_string()));
    let second = queue.dispatch_one().unwrap();
    assert_ne!(second.id, started.id);
    assert!(queue.dispatch_one().is_none());
}

#[test]
fn dispatch_without_pending_jobs_does_nothing() {
    let mut queue = test_queue();
    assert!(queue.dispatch_one().is_none());
    let id = submit(&mut queue, "x");
    queue.cancel(id);
    assert!(queue.dispatch_one().is_none());
}

#[test]
fn cancelling_running_job() {
    let mut queue = test_queue();
    let id = submit(&mut queue, "x");
    queue.dispatch_one().unwrap();
    assert_eq!(queue.cancel(id).unwrap().status, JobStatus::Cancelled);
}

fn job(id: u64, status: JobStatus, updated_at: &str) -> Job {
    Job {
        id,
        status,
        input: format!("input-{}", id),
        input_type: "string".to_string(),
        context: "forensics".to_string(),
        deep: false,
        ai: false,
        sandbox: false,
        created_at: "100.000".to_string(),
        updated_at: updated_at.to_string(),
        result: None,
    }
}

#[test]
fn expiry_selects_old_finished_jobs() {
    let mut queue = test_queue();
    let restored = vec![
        job(1, JobStatus::Pending, "100.000"),
        job(2, JobStatus::Failed("x".to_string()), "100.000"),
        job(3, JobStatus::Failed("y".to_string()), "200000.500"),
    ];
    queue.absorb_restored(restored, 3);
    let id = submit(&mut queue, "done");
    queue.complete_job(id, Ok("{}".to_string()));
    let mut expired = queue.expired_job_ids_at(100 + 86400 + 1);
    expired.sort();
    assert_eq!(expired, vec![2]);
    let mut expired = queue.expired_job_ids_at(200000 + 86400 + 1);
    expired.sort();
    assert_eq!(expired, vec![2, 3]);
    assert!(queue.expired_job_ids_at(1000).is_empty());
    let mut now_expired = queue.expired_job_ids();
    now_expired.sort();
    assert_eq!(now_expired, vec![2, 3]);
}

#[test]
fn restart_keeps_unfinished_jobs() {
    assert!(restore_on_restart(job(1, JobStatus::Completed, "1.000")).is_none());
    assert!(restore_on_restart(job(2, JobStatus::Cancelled, "1.000")).is_none());
    assert!(restore_on_restart(job(3, JobStatus::Failed(String::new()), "1.000")).is_none());
    let failed = restore_on_restart(job(4, JobStatus::Failed("oops".to_string()), "1.000")).unwrap();
    assert_eq!(failed.status, JobStatus::Failed("oops".to_string()));
    let pending = restore_on_restart(job(5, JobStatus::Pending, "1.000")).unwrap();
    assert_eq!(pending.updated_at, "1.000");
    let running = restore_on_restart(job(6, JobStatus::Running, "1.000")).unwrap();
    assert_eq!(running.status, JobStatus::Pending);
    assert_ne!(running.updated_at, "1.000");
    assert_eq!(running.input, "input-6");
}

#[test]
fn restart_absorbs_without_overwriting() {
    let mut queue = JobQueue::with_start_id(4, 1);
    let live = submit(&mut queue, "persist-test");
    assert_eq!(live, 1);
    let parsed = vec![
        job(1, JobStatus::Pending, "5.000"),
        job(7, JobStatus::Pending, "5.000"),
        job(7, JobStatus::Running, "6.000"),
        job(9, JobStatus::Completed, "6.000"),
    ];
    let highest = highest_job_id(&parsed);
    assert_eq!(highest, 9);
    let restored: Vec<Job> = parsed.into_iter().filter_map(restore_on_restart).collect();
    assert_eq!(restored.len(), 3);
    queue.absorb_restored(restored, highest);
    // the job already in memory wins over the one read back
    assert_eq!(queue.get(1).unwrap().input, "persist-test");
    // the later of two records with one id wins, reset to pending
    let seven = queue.get(7).unwrap();
    assert_eq!(seven.status, JobStatus::Pending);
    assert_ne!(seven.updated_at, "5.000");
    assert!(queue.get(9).is_none());
    // numbering continues after the highest id seen on disk
    assert_eq!(submit(&mut queue, "next"), 10);
}

#[test]
fn restart_with_nothing_on_disk_keeps_numbering() {
    let mut queue = JobQueue::with_start_id(4, 5);
    queue.absorb_restored(Vec::new(), 0);
    assert_eq!(submit(&mut queue, "x"), 5);
    let mut queue = JobQueue::with_start_id(4, 5);
    queue.absorb_restored(Vec::new(), 3);
    assert_eq!(submit(&mut queue, "x"), 5);
}

#[test]
fn numbering_starts_above_job_files() {
    let names = vec!["job_3.json".to_string(), "job_11.json".to_string(), "other.json".to_string()];
    assert_eq!(start_id_for_files(&names), Some(12));
    assert_eq!(start_id_for_files(&Vec::new()), Some(1));
    assert_eq!(start_id_for_files(&vec![format!("job_{}.json", u64::MAX)]), None);
    let mut queue = JobQueue::with_start_id(4, start_id_for_files(&names).unwrap());
    let a = submit(&mut queue, "a");
    let b = submit(&mut queue, "b");
    assert!(a > 11 && b > a);
}

#[test]
fn default_jobs_directory() {
    let s = |v: &[&str]| v.iter().map(|p| p.to_string()).collect::<Vec<String>>();
    assert_eq!(
        default_jobs_dir_components(true, Some("C:\\Users\\me\\AppData".to_string()), None, None),
        s(&["C:\\Users\\me\\AppData", "cryptotrace", "jobs"])
    );
    assert_eq!(default_jobs_dir_components(true, None, Some("x".to_string()), None), s(&[".", "cryptotrace", "jobs"]));
    assert_eq!(
        default_jobs_dir_components(false, None, Some("/data".to_string()), Some("/home/me".to_string())),
        s(&["/data", "cryptotrace", "jobs"])
    );
    assert_eq!(
        default_jobs_dir_components(false, None, None, Some("/home/me".to_string())),
        s(&["/home/me", ".local", "share", "cryptotrace", "jobs"])
    );
    assert_eq!(default_jobs_dir_components(false, None, None, None), s(&[".", "cryptotrace", "jobs"]));
}
