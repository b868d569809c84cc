use nix::sys::signal::Signal;
use rsh::job::ProccessState;
use rsh::reaper::{handle_signal, reap, waitpid, ChildStatus, Reaction, SignalClass};
use rsh::shell::Shell;
use rsh::wait::{waitfg, Wait};

fn shell_with(jobs: &[(i32, ProccessState)]) -> Shell {
    let mut shell = Shell::new();
    for (pid, state) in jobs {
        shell.jobs.addjob(*pid, *pid, *state, "cmd\n");
    }
    shell
}

fn pids(shell: &Shell) -> Vec<i32> {
    shell.jobs.iter().map(|job| job.pid).collect()
}

#[test]
fn foreground_job_is_created_and_removed_on_exit() {
    let mut shell = Shell::new();
    shell.jobs.addjob(100, 100, ProccessState::FG, "echo hello\n");
    assert_eq!(shell.jobs.job_by_pid(100).unwrap().state, ProccessState::FG);
    assert_eq!(waitfg(&shell, 100), Wait::Park);
    assert_eq!(handle_signal(&mut shell, SignalClass::ChildStatus), Reaction::Drain);
    let reaped = waitpid(&mut shell, ChildStatus::Exited { pid: 100, status: 0 });
    assert!(reaped.more);
    assert!(reaped.notice.is_none());
    let reaped = waitpid(&mut shell, ChildStatus::NothingPending);
    assert!(!reaped.more);
    assert_eq!(shell.jobs.len(), 0);
    assert_eq!(waitfg(&shell, 100), Wait::Resume(Some(0)));
}

#[test]
fn interrupt_removes_the_foreground_job_and_the_loop_goes_on() {
    let mut shell = shell_with(&[(10, ProccessState::BG), (20, ProccessState::FG), (30, ProccessState::ST)]);
    assert_eq!(waitfg(&shell, 20), Wait::Park);
    assert_eq!(handle_signal(&mut shell, SignalClass::Interrupt), Reaction::Forward { target: -20 });
    assert_eq!(pids(&shell), vec![10, 30]);
    assert_eq!(waitfg(&shell, 20), Wait::Resume(None));
    assert_eq!(handle_signal(&mut shell, SignalClass::Interrupt), Reaction::Nothing);
    assert_eq!(pids(&shell), vec![10, 30]);
}

#[test]
fn interrupt_targets_the_process_group_not_the_pid() {
    let mut shell = Shell::new();
    shell.jobs.addjob(21, 20, ProccessState::FG, "a | b\n");
    assert_eq!(handle_signal(&mut shell, SignalClass::Interrupt), Reaction::Forward { target: -20 });
    assert_eq!(shell.jobs.len(), 0);
}

#[test]
fn terminal_stop_is_forwarded_and_changes_nothing() {
    let mut shell = shell_with(&[(10, ProccessState::BG), (20, ProccessState::FG)]);
    assert_eq!(handle_signal(&mut shell, SignalClass::TerminalStop), Reaction::Forward { target: -20 });
    assert_eq!(pids(&shell), vec![10, 20]);
    assert_eq!(shell.jobs.job_by_pid(20).unwrap().state, ProccessState::FG);
    let mut idle = shell_with(&[(10, ProccessState::BG)]);
    assert_eq!(handle_signal(&mut idle, SignalClass::TerminalStop), Reaction::Nothing);
}

#[test]
fn stop_status_marks_the_job_stopped_and_keeps_it() {
    let mut shell = shell_with(&[(10, ProccessState::BG), (20, ProccessState::FG)]);
    let reaped = reap(&mut shell, ChildStatus::Stopped { pid: 20, signal: 20 }, Some("SIGTSTP".to_string()));
    assert!(reaped.more);
    assert_eq!(reaped.notice.as_deref(), Some("Job [2] (20) stopped by signal SIGTSTP"));
    assert_eq!(shell.jobs.job_by_pid(20).unwrap().state, ProccessState::ST);
    assert_eq!(pids(&shell), vec![10, 20]);
    assert_eq!(waitfg(&shell, 20), Wait::Resume(None));
}

#[test]
fn kill_status_removes_the_job_and_clears_the_exit_status() {
    let mut shell = shell_with(&[(10, ProccessState::BG), (20, ProccessState::BG)]);
    shell.exit_status = Some(3);
    let reaped = reap(&mut shell, ChildStatus::Signaled { pid: 10, signal: 9 }, None);
    assert_eq!(reaped.notice.as_deref(), Some("Job [1] (10) terminated by signal 9"));
    assert_eq!(shell.exit_status, None);
    assert_eq!(pids(&shell), vec![20]);
}

#[test]
fn exit_status_is_recorded_even_without_a_job() {
    let mut shell = shell_with(&[(10, ProccessState::BG)]);
    let reaped = reap(&mut shell, ChildStatus::Exited { pid: 11, status: 7 }, None);
    assert!(reaped.more);
    assert!(reaped.notice.is_none());
    assert_eq!(shell.exit_status, Some(7));
    assert_eq!(pids(&shell), vec![10]);
}

#[test]
fn status_of_an_unknown_process_gives_no_notice() {
    let mut shell = shell_with(&[(10, ProccessState::BG)]);
    assert!(reap(&mut shell, ChildStatus::Signaled { pid: 11, signal: 9 }, None).notice.is_none());
    assert!(reap(&mut shell, ChildStatus::Stopped { pid: 11, signal: 19 }, None).notice.is_none());
    assert_eq!(pids(&shell), vec![10]);
    assert_eq!(shell.jobs.job_by_pid(10).unwrap().state, ProccessState::BG);
}

#[test]
fn other_status_changes_nothing_and_drain_goes_on() {
    let mut shell = shell_with(&[(10, ProccessState::BG)]);
    shell.exit_status = Some(1);
    let reaped = reap(&mut shell, ChildStatus::Other, None);
    assert!(reaped.more);
    assert_eq!(shell.exit_status, Some(1));
    assert_eq!(pids(&shell), vec![10]);
}

#[test]
fn notice_names_the_signal_as_nix_does() {
    let mut shell = shell_with(&[(10, ProccessState::BG), (20, ProccessState::FG)]);
    let reaped = waitpid(&mut shell, ChildStatus::Signaled { pid: 10, signal: Signal::SIGINT as i32 });
    assert_eq!(reaped.notice, Some(format!("Job [1] (10) terminated by signal {}", Signal::SIGINT.as_str())));
    let reaped = waitpid(&mut shell, ChildStatus::Stopped { pid: 20, signal: Signal::SIGTSTP as i32 });
    assert_eq!(reaped.notice, Some(format!("Job [2] (20) stopped by signal {}", Signal::SIGTSTP)));
}

#[test]
fn notice_shows_the_number_of_a_signal_that_nix_does_not_know() {
    let mut shell = shell_with(&[(10, ProccessState::BG)]);
    let reaped = waitpid(&mut shell, ChildStatus::Signaled { pid: 10, signal: 0 });
    assert_eq!(reaped.notice.as_deref(), Some("Job [1] (10) terminated by signal 0"));
}

#[test]
fn background_job_is_listed_as_running() {
    let mut shell = Shell::new();
    shell.jobs.addjob(4242, 4242, ProccessState::BG, "sleep 5 &\n");
    assert_eq!(shell.jobs.to_string(), "[1] (4242) Running sleep 5 &\n");
}
