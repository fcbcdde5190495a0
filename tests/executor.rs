use tiny_shell::executor::{ForegroundStep, JobReport, Request, ShellError};
use tiny_shell::path::join_dir;
use tiny_shell::TaskManager;

fn words(ws: &[&str]) -> Vec<String> {
    ws.iter().map(|w| w.to_string()).collect()
}

fn manager() -> TaskManager<u32> {
    TaskManager::new("/home/u".to_string())
}

#[test]
fn empty_command_does_nothing() {
    let mut tm = manager();
    assert!(matches!(tm.execute(vec![]), Request::Nothing));
    assert_eq!(tm.job_count(), 0);
}

#[test]
fn foreground_command_is_launched_in_current_dir() {
    let mut tm = manager();
    match tm.execute(words(&["ls", "-l", "x"])) {
        Request::Run(l) => {
            assert_eq!(l.program, "ls");
            assert_eq!(l.args, words(&["-l", "x"]));
            assert_eq!(l.dir, "/home/u");
            assert!(!l.background);
        }
        _ => panic!("expected a launch"),
    }
    assert_eq!(tm.job_count(), 0);
}

#[test]
fn background_job_lifecycle() {
    let mut tm = manager();
    match tm.execute(words(&["sleep", "5", "&"])) {
        Request::Run(l) => {
            assert_eq!(l.program, "sleep");
            assert_eq!(l.args, words(&["5"]));
            assert!(l.background);
        }
        _ => panic!("expected a launch"),
    }
    assert_eq!(tm.add_job(7), Ok(1));
    assert_eq!(tm.job_count(), 1);

    let polled = match tm.execute(words(&["jobs"])) {
        Request::Poll(v) => v,
        _ => panic!("expected a poll"),
    };
    assert_eq!(polled, vec![(1, 7)]);
    assert_eq!(tm.job_count(), 0);
    let reports = tm.settle_jobs(polled.into_iter().map(|(id, h)| (id, h, None)).collect());
    assert_eq!(reports, vec![JobReport::Running(1)]);
    assert_eq!(tm.job_count(), 1);

    let polled = match tm.execute(words(&["jobs"])) {
        Request::Poll(v) => v,
        _ => panic!("expected a poll"),
    };
    let reports = tm.settle_jobs(polled.into_iter().map(|(id, h)| (id, h, Some(0))).collect());
    assert_eq!(reports, vec![JobReport::Exited(1, 0)]);
    assert_eq!(tm.job_count(), 0);
}

#[test]
fn jobs_keeps_only_running_ones() {
    let mut tm = manager();
    assert_eq!(tm.add_job(10), Ok(1));
    assert_eq!(tm.add_job(20), Ok(2));
    assert_eq!(tm.add_job(30), Ok(3));
    let polled = match tm.execute(words(&["jobs", "ignored"])) {
        Request::Poll(v) => v,
        _ => panic!("expected a poll"),
    };
    let outcomes = [Some(1), None, Some(-1)];
    let handed: Vec<(i64, u32, Option<i32>)> = polled
        .into_iter()
        .zip(outcomes)
        .map(|((id, h), o)| (id, h, o))
        .collect();
    let reports = tm.settle_jobs(handed);
    assert_eq!(
        reports,
        vec![JobReport::Exited(1, 1), JobReport::Running(2), JobReport::Exited(3, -1)]
    );
    assert_eq!(tm.job_count(), 1);
    // the id counter goes on from the last id handed out
    assert_eq!(tm.add_job(40), Ok(4));
}

#[test]
fn trailing_ampersand_alone_is_stripped_once() {
    let mut tm = manager();
    match tm.execute(words(&["echo", "&", "&"])) {
        Request::Run(l) => {
            assert_eq!(l.args, words(&["&"]));
            assert!(l.background);
        }
        _ => panic!("expected a launch"),
    }
}

#[test]
fn bare_ampersand_is_refused() {
    let mut tm = manager();
    assert!(matches!(
        tm.execute(words(&["&"])),
        Request::Refused(ShellError::MissingProgram)
    ));
    assert_eq!(tm.job_count(), 0);
}

#[test]
fn fg_unknown_job_leaves_table() {
    let mut tm = manager();
    assert_eq!(tm.add_job(5), Ok(1));
    assert!(matches!(
        tm.execute(words(&["fg", "3"])),
        Request::Refused(ShellError::UnknownJob(3))
    ));
    assert_eq!(tm.job_count(), 1);
}

#[test]
fn fg_bad_or_missing_id() {
    let mut tm = manager();
    assert_eq!(tm.add_job(5), Ok(1));
    assert!(matches!(tm.execute(words(&["fg", "x1"])), Request::Refused(ShellError::BadJobId)));
    assert!(matches!(
        tm.execute(words(&["fg", "99999999999999999999"])),
        Request::Refused(ShellError::BadJobId)
    ));
    assert!(matches!(tm.execute(words(&["fg"])), Request::Refused(ShellError::MissingArgument)));
    assert_eq!(tm.job_count(), 1);
}

#[test]
fn fg_takes_job_out() {
    let mut tm = manager();
    assert_eq!(tm.add_job(5), Ok(1));
    assert_eq!(tm.add_job(6), Ok(2));
    assert!(matches!(tm.execute(words(&["fg", "+2"])), Request::Resume(6)));
    assert_eq!(tm.job_count(), 1);
    assert!(matches!(tm.execute(words(&["fg", "1"])), Request::Resume(5)));
    assert_eq!(tm.job_count(), 0);
}

#[test]
fn foreground_steps() {
    let mut tm = manager();
    assert!(matches!(tm.foreground_step(9, false, false), ForegroundStep::Waiting(9)));
    assert!(matches!(tm.foreground_step(9, false, true), ForegroundStep::Finished));
    assert_eq!(tm.job_count(), 0);
    assert!(matches!(tm.foreground_step(9, true, false), ForegroundStep::Demoted(1)));
    assert_eq!(tm.job_count(), 1);
    assert!(matches!(tm.foreground_step(8, true, true), ForegroundStep::Demoted(2)));
    assert!(matches!(tm.execute(words(&["fg", "1"])), Request::Resume(9)));
}

#[test]
fn cd_relative_then_spawn() {
    let mut tm = manager();
    assert!(matches!(tm.execute(words(&["cd", "sub"])), Request::Done));
    assert_eq!(tm.current_dir(), "/home/u/sub");
    match tm.execute(words(&["pwd"])) {
        Request::Run(l) => assert_eq!(l.dir, "/home/u/sub"),
        _ => panic!("expected a launch"),
    }
}

#[test]
fn cd_absolute_and_missing() {
    let mut tm = manager();
    assert!(matches!(tm.execute(words(&["cd", "/tmp"])), Request::Done));
    assert_eq!(tm.current_dir(), "/tmp");
    assert!(matches!(tm.execute(words(&["cd"])), Request::Refused(ShellError::MissingArgument)));
    assert_eq!(tm.current_dir(), "/tmp");
}

#[test]
fn join_dir_separators() {
    assert_eq!(join_dir(&"/".to_string(), &"etc".to_string()), "/etc");
    assert_eq!(join_dir(&"/a".to_string(), &"b/c".to_string()), "/a/b/c");
    assert_eq!(join_dir(&"/a/".to_string(), &"b".to_string()), "/a/b");
    assert_eq!(join_dir(&"/a".to_string(), &"/b".to_string()), "/b");
}
