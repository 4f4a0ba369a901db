use cricket::jobs::{JobTable, NOT_RUNNING};
use cricket::service::{job_view, ALREADY_RUNNING, CLOSING, TOO_MANY_JOBS};

#[test]
fn the_job_table_holds_ten_jobs_one_per_delivery() {
    let mut jobs: JobTable<u32> = JobTable::new();
    for n in 0..10u32 {
        let view = job_view("k#1", &format!("user{n}"), true);
        assert_eq!(jobs.check(&view.id), Ok(()));
        assert_eq!(jobs.start(view, n, false), Ok(()));
    }
    assert_eq!(jobs.len(), 10);
    let extra = job_view("k#1", "other", true);
    assert_eq!(jobs.check(&extra.id), Err(TOO_MANY_JOBS.to_string()));
    assert_eq!(jobs.start(extra, 99, false), Err(TOO_MANY_JOBS.to_string()));
    let again = job_view("k#1", "USER3", false);
    assert_eq!(jobs.start(again, 98, false), Err(ALREADY_RUNNING.to_string()));
    jobs.remove("k#1:user3");
    assert_eq!(jobs.len(), 9);
    assert!(!jobs.contains("k#1:user3"));
    assert_eq!(jobs.start(job_view("k#2", "bob", true), 7, true), Err(CLOSING.to_string()));
    assert_eq!(jobs.len(), 9);
}

#[test]
fn cancelling_takes_each_handle_once() {
    let mut jobs: JobTable<&str> = JobTable::new();
    jobs.start(job_view("k#1", "bob", true), "a", false).unwrap();
    jobs.start(job_view("k#1", "carol", true), "b", false).unwrap();
    assert_eq!(jobs.cancel("k#1:bob"), Ok(Some("a")));
    assert_eq!(jobs.cancel("k#1:bob"), Ok(None));
    assert_eq!(jobs.cancel("k#9:x"), Err(NOT_RUNNING.to_string()));
    assert_eq!(jobs.cancel_all(), vec!["b"]);
    assert!(jobs.cancel_all().is_empty());
    let views = jobs.view_list();
    assert_eq!(views.len(), 2);
    assert_eq!(views[1].recipient, "carol");
}
