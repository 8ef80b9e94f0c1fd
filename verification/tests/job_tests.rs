use rsh::os::ProcessPoll;
use rsh::job::{
    add_pipeline_job, add_single_job, clean_jobs, find_job, job_line, kill_job, list_jobs,
    retain_jobs, poll_jobs, clean_with_reports, list_with_reports, Job, JobState, JobTable,
};

// A process id above the kernel's pid limit: no process has it, so the
// calls below reach the operating system without touching any process.
const NO_SUCH_PID: u32 = 2_147_483_647;

#[test]
fn new_table_is_empty() {
    let t = JobTable::new();
    assert!(t.jobs().is_empty());
    assert_eq!(t.upcoming_id(), 1);
}

#[test]
fn ids_count_up_from_one() {
    let mut t = JobTable::new();
    let a = add_pipeline_job(&mut t, vec![10, 11], "a | b &".to_string());
    let b = add_single_job(&mut t, 12, "c &".to_string());
    assert_eq!(a, 1);
    assert_eq!(b, 2);
    assert_eq!(t.upcoming_id(), 3);
    let jobs = t.jobs();
    assert_eq!(jobs.len(), 2);
    assert_eq!(jobs[0].id, 1);
    assert_eq!(jobs[0].pids, vec![10, 11]);
    assert_eq!(jobs[0].cmdline, "a | b &");
    assert_eq!(jobs[0].state, JobState::Running);
    assert_eq!(jobs[1].id, 2);
    assert_eq!(jobs[1].pids, vec![12]);
}

#[test]
fn find_job_by_id() {
    let mut t = JobTable::new();
    add_single_job(&mut t, 10, "x".to_string());
    add_single_job(&mut t, 11, "y".to_string());
    assert_eq!(find_job(&t, 2), Some(1));
    assert_eq!(find_job(&t, 1), Some(0));
    assert_eq!(find_job(&t, 3), None);
}

#[test]
fn kill_unknown_job() {
    let mut t = JobTable::new();
    add_single_job(&mut t, NO_SUCH_PID, "x".to_string());
    assert!(kill_job(&t, 5).is_none());
    assert!(kill_job(&t, 1).is_some());
}

#[test]
fn retain_keeps_order_and_ids() {
    let mut t = JobTable::new();
    for i in 0..4u32 {
        add_single_job(&mut t, 100 + i, format!("job{}", i));
    }
    retain_jobs(&mut t, &vec![true, false, true, false]);
    let ids: Vec<usize> = t.jobs().iter().map(|j| j.id).collect();
    assert_eq!(ids, vec![1, 3]);
    assert_eq!(t.jobs()[1].cmdline, "job2");
    assert_eq!(t.upcoming_id(), 5);
    // ids are not reused after removal
    assert_eq!(add_single_job(&mut t, 200, "z".to_string()), 5);
}

#[test]
fn clean_removes_jobs_without_live_processes() {
    let mut t = JobTable::new();
    add_pipeline_job(&mut t, vec![NO_SUCH_PID, NO_SUCH_PID - 1], "gone".to_string());
    clean_jobs(&mut t);
    assert!(t.jobs().is_empty());
    assert_eq!(t.upcoming_id(), 2);
}

#[test]
fn ended_jobs_are_listed_as_done_then_removed() {
    let mut t = JobTable::new();
    add_single_job(&mut t, NO_SUCH_PID, "gone".to_string());
    add_pipeline_job(&mut t, vec![], "empty".to_string());
    let (lines, reports) = list_jobs(&mut t);
    assert_eq!(reports.len(), 2);
    assert_eq!(reports[0].len(), 1);
    assert_eq!(reports[0][0].pid(), NO_SUCH_PID);
    assert_eq!(reports[0][0].outcome(), ProcessPoll::Failed);
    assert!(reports[1].is_empty());
    assert_eq!(lines, vec!["[1] Done   gone".to_string(), "[2] Done   empty".to_string()]);
    assert!(t.jobs().is_empty());
    assert!(list_jobs(&mut t).0.is_empty());
}

#[test]
fn kill_reports_each_process() {
    let mut t = JobTable::new();
    add_pipeline_job(&mut t, vec![NO_SUCH_PID, NO_SUCH_PID - 1], "a | b &".to_string());
    let receipts = kill_job(&t, 1).unwrap();
    let pids: Vec<u32> = receipts.iter().map(|r| r.pid()).collect();
    assert_eq!(pids, vec![NO_SUCH_PID, NO_SUCH_PID - 1]);
    assert_eq!(t.jobs().len(), 1);
}

#[test]
fn job_line_format() {
    let j = Job { id: 12, pids: vec![1], cmdline: "sleep 3 &".to_string(), state: JobState::Running };
    assert_eq!(job_line(&j), "[12] Running   sleep 3 &");
    let j = Job { id: 1, pids: vec![], cmdline: "x".to_string(), state: JobState::Done };
    assert_eq!(job_line(&j), "[1] Done   x");
}

#[test]
fn clean_removes_job_without_processes() {
    let mut t = JobTable::new();
    add_pipeline_job(&mut t, vec![], "nothing".to_string());
    clean_jobs(&mut t);
    assert!(t.jobs().is_empty());
}

#[test]
fn next_id_takes_an_id() {
    let mut t = JobTable::new();
    assert_eq!(t.next_id(), 1);
    assert_eq!(t.next_id(), 2);
    assert_eq!(t.upcoming_id(), 3);
    assert!(t.jobs().is_empty());
    assert_eq!(add_single_job(&mut t, 1, "x".to_string()), 3);
}



#[test]
fn polls_name_each_process_in_order() {
    let mut t = JobTable::new();
    add_pipeline_job(&mut t, vec![NO_SUCH_PID, NO_SUCH_PID - 1], "a | b &".to_string());
    add_single_job(&mut t, NO_SUCH_PID - 2, "c &".to_string());
    let reports = poll_jobs(&t);
    let pids: Vec<Vec<u32>> = reports.iter().map(|r| r.iter().map(|p| p.pid()).collect()).collect();
    assert_eq!(pids, vec![vec![NO_SUCH_PID, NO_SUCH_PID - 1], vec![NO_SUCH_PID - 2]]);
    clean_with_reports(&mut t, &reports);
    assert!(t.jobs().is_empty());
}

#[test]
fn clean_returns_the_reports_it_acted_on() {
    let mut t = JobTable::new();
    add_single_job(&mut t, NO_SUCH_PID, "x".to_string());
    let reports = clean_jobs(&mut t);
    assert_eq!(reports.len(), 1);
    assert_eq!(reports[0][0].pid(), NO_SUCH_PID);
    assert!(t.jobs().is_empty());
}

#[test]
fn listing_from_reports() {
    let mut t = JobTable::new();
    add_single_job(&mut t, NO_SUCH_PID, "x &".to_string());
    let reports = poll_jobs(&t);
    let lines = list_with_reports(&mut t, &reports);
    assert_eq!(lines, vec!["[1] Done   x".to_string() + " &"]);
    assert!(t.jobs().is_empty());
}
