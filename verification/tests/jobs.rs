use p2p_nube::jobs::MAX_JOBS;
use p2p_nube::Jobs;

#[test]
fn jobs_resumen_y_no_evicta_running() {
    let mut jobs = Jobs::default();
    let id = jobs.create(2);
    let s = jobs.summary(&id).expect("debe existir");
    assert_eq!(
        (s.done, s.total, s.added_count, s.errors_count),
        (0, 2, 0, 0)
    );
    jobs.progress(&id, Some("a.mkv".into()), None);
    let s = jobs.summary(&id).expect("debe existir");
    assert_eq!((s.done, s.added_count), (1, 1));
    // More than MAX_JOBS that have ended: the one at work survives.
    for _ in 0..MAX_JOBS {
        jobs.create(0);
    }
    assert_eq!(jobs.summary(&id).expect("running no evictado").done, 1);
}

#[test]
fn jobs_are_numbered_and_end() {
    let mut jobs = Jobs::default();
    assert!(jobs.has_number());
    assert_eq!(jobs.create(0), "0");
    assert_eq!(jobs.get("0").unwrap().status, "done");
    assert_eq!(jobs.create(2), "1");
    assert_eq!(jobs.get("1").unwrap().status, "running");
    assert!(jobs.can_progress("1") && jobs.can_progress("nope"));
    jobs.progress("1", Some("a".into()), None);
    assert_eq!(jobs.get("1").unwrap().status, "running");
    jobs.progress("1", None, Some("b: mal".into()));
    let j = jobs.get("1").unwrap();
    assert_eq!((j.status.as_str(), j.done), ("done_with_errors", 2));
    assert_eq!((j.added, j.errors), (vec!["a".to_string()], vec!["b: mal".to_string()]));
    jobs.create(1);
    jobs.progress("2", Some("c".into()), None);
    assert_eq!(jobs.get("2").unwrap().status, "done");
    jobs.fail("2", "roto".into());
    let j = jobs.get("2").unwrap();
    assert_eq!((j.status.as_str(), j.errors), ("error", vec!["roto".to_string()]));
    jobs.progress("nope", None, None);
    jobs.fail("nope", "x".into());
    assert!(jobs.get("nope").is_none());
    assert!(jobs.summary("nope").is_none());
}

#[test]
fn the_oldest_ended_jobs_make_room() {
    let mut jobs = Jobs::default();
    for i in 0..MAX_JOBS {
        jobs.create(i % 2);
    }
    // 0 has ended, 1 is at work.
    jobs.create(0);
    assert!(jobs.get("0").is_none());
    assert!(jobs.get("1").is_some() && jobs.get("2").is_some());
    jobs.create(0);
    assert!(jobs.get("2").is_none() && jobs.get("4").is_some());
}

#[test]
fn jobs_at_work_may_exceed_the_limit() {
    let mut jobs = Jobs::default();
    for _ in 0..MAX_JOBS + 2 {
        jobs.create(1);
    }
    assert!(jobs.get("0").is_some());
    // Three have to go, as far as they have ended.
    jobs.progress("5", None, None);
    jobs.progress("6", None, None);
    jobs.create(1);
    assert!(jobs.get("5").is_none() && jobs.get("6").is_none());
    assert!(jobs.get("0").is_some() && jobs.get("51").is_some() && jobs.get("52").is_some());
}

#[test]
fn ids_grow_and_kept_jobs_stay_as_they_were() {
    let mut jobs = Jobs::default();
    let ids: Vec<u64> = (0..MAX_JOBS).map(|_| jobs.create(0).parse().unwrap()).collect();
    assert!(ids.windows(2).all(|w| w[0] < w[1]));
    // Below the limit all of them are there.
    assert!(ids.iter().all(|i| jobs.get(&i.to_string()).is_some()));
    let kept = jobs.get("7").unwrap();
    let next: u64 = jobs.create(3).parse().unwrap();
    assert!(next > *ids.last().unwrap());
    assert!(jobs.get("0").is_none() && jobs.get("1").is_some());
    let still = jobs.get("7").unwrap();
    assert_eq!((still.status, still.total, still.done), (kept.status, kept.total, kept.done));
}

#[test]
fn a_job_runs_until_its_last_file() {
    for n in 1..4usize {
        for bad in [None, Some(0), Some(n - 1)] {
            let mut jobs = Jobs::default();
            let other = jobs.create(1);
            let id = jobs.create(n);
            for k in 0..n {
                assert_eq!(jobs.get(&id).unwrap().status, "running");
                let error = if bad == Some(k) { Some("mal".to_string()) } else { None };
                jobs.progress(&id, None, error);
                assert_eq!(jobs.get(&id).unwrap().done, k + 1);
            }
            let end = if bad.is_some() { "done_with_errors" } else { "done" };
            assert_eq!(jobs.get(&id).unwrap().status, end);
            assert_eq!(jobs.get(&other).unwrap().done, 0);
        }
    }
}
