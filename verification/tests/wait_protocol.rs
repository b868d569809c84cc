use rsh::builtin::bgfg_error_text;
use rsh::job::ProccessState;
use rsh::shell::Shell;
use rsh::token::{parseline, Token};
use rsh::wait::{do_bgfg, wait_conditional, waitfg, BgFgError, Resumed, Wait};

fn tokens(line: &str) -> Vec<Token> {
    parseline(line).unwrap().1
}

fn shell() -> Shell {
    let mut shell = Shell::new();
    shell.jobs.addjob(100, 100, ProccessState::BG, "a\n");
    shell.jobs.addjob(200, 200, ProccessState::ST, "b\n");
    shell.jobs.addjob(300, 301, ProccessState::ST, "c\n");
    shell.jobs.delete_job(100).unwrap();
    shell
}

#[test]
fn waitfg_parks_only_for_a_foreground_job() {
    let mut shell = Shell::new();
    shell.exit_status = Some(5);
    assert_eq!(waitfg(&shell, 1), Wait::Resume(Some(5)));
    shell.jobs.addjob(1, 1, ProccessState::FG, "x\n");
    shell.jobs.addjob(2, 2, ProccessState::BG, "y\n");
    assert_eq!(waitfg(&shell, 1), Wait::Park);
    assert_eq!(waitfg(&shell, 2), Wait::Resume(Some(5)));
    shell.jobs.get_job_pid(1).unwrap().state = ProccessState::ST;
    assert_eq!(waitfg(&shell, 1), Wait::Resume(Some(5)));
}

#[test]
fn wait_conditional_parks_until_the_job_is_gone_or_stopped() {
    let mut shell = Shell::new();
    shell.jobs.addjob(1, 1, ProccessState::FG, "x\n");
    shell.jobs.addjob(2, 2, ProccessState::BG, "y\n");
    shell.jobs.addjob(3, 3, ProccessState::ST, "z\n");
    assert_eq!(wait_conditional(&shell, 1), Wait::Park);
    assert_eq!(wait_conditional(&shell, 2), Wait::Park);
    assert_eq!(wait_conditional(&shell, 3), Wait::Resume(None));
    assert_eq!(wait_conditional(&shell, 4), Wait::Resume(None));
}

#[test]
fn fg_by_jid_resumes_and_waits() {
    let mut shell = shell();
    let res = do_bgfg(&mut shell, &tokens("fg %2\n"));
    assert_eq!(res, Ok(Resumed { target: -200, wait_for: Some(200) }));
    assert_eq!(shell.jobs.job_by_pid(200).unwrap().state, ProccessState::FG);
    assert_eq!(shell.jobs.job_by_pid(300).unwrap().state, ProccessState::ST);
}

#[test]
fn bg_by_pid_resumes_without_wait_and_signals_the_group() {
    let mut shell = shell();
    let res = do_bgfg(&mut shell, &tokens("bg 300\n"));
    assert_eq!(res, Ok(Resumed { target: -301, wait_for: None }));
    assert_eq!(shell.jobs.job_by_pid(300).unwrap().state, ProccessState::BG);
}

#[test]
fn jid_lookup_searches_instead_of_indexing() {
    let mut shell = shell();
    assert_eq!(do_bgfg(&mut shell, &tokens("bg %3\n")), Ok(Resumed { target: -301, wait_for: None }));
    assert_eq!(do_bgfg(&mut shell, &tokens("bg %1\n")), Err(BgFgError::NoSuchJob(1)));
}

#[test]
fn unknown_job_or_process_changes_nothing() {
    let mut shell = shell();
    assert_eq!(do_bgfg(&mut shell, &tokens("fg %7\n")), Err(BgFgError::NoSuchJob(7)));
    assert_eq!(do_bgfg(&mut shell, &tokens("fg 7\n")), Err(BgFgError::NoSuchProcess(7)));
    assert_eq!(do_bgfg(&mut shell, &tokens("fg 4294967295\n")), Err(BgFgError::NoSuchProcess(4294967295)));
    assert_eq!(shell.jobs.job_by_pid(200).unwrap().state, ProccessState::ST);
    assert_eq!(shell.jobs.job_by_pid(300).unwrap().state, ProccessState::ST);
}

#[test]
fn bad_requests_are_told_apart() {
    let mut shell = shell();
    assert_eq!(do_bgfg(&mut shell, &tokens("fg\n")), Err(BgFgError::MissingArgument));
    assert_eq!(do_bgfg(&mut shell, &tokens("bg abc\n")), Err(BgFgError::BadArgument));
    assert_eq!(do_bgfg(&mut shell, &tokens("bg %\n")), Err(BgFgError::BadArgument));
    assert_eq!(do_bgfg(&mut shell, &tokens("bg 12x\n")), Err(BgFgError::BadArgument));
    assert_eq!(do_bgfg(&mut shell, &tokens("bg 4294967296\n")), Err(BgFgError::BadArgument));
    assert_eq!(do_bgfg(&mut shell, &tokens("bg |\n")), Err(BgFgError::BadArgument));
    assert_eq!(do_bgfg(&mut shell, &tokens("jobs %2\n")), Err(BgFgError::NotJobControl));
    assert_eq!(do_bgfg(&mut shell, &tokens("'fg' %2\n")), Err(BgFgError::NotJobControl));
    assert_eq!(do_bgfg(&mut shell, &tokens("\n")), Err(BgFgError::NotJobControl));
}

#[test]
fn number_may_carry_a_plus_sign_and_leading_zeros() {
    let mut shell = shell();
    assert_eq!(do_bgfg(&mut shell, &tokens("bg +200\n")), Ok(Resumed { target: -200, wait_for: None }));
    assert_eq!(do_bgfg(&mut shell, &tokens("bg %+003\n")), Ok(Resumed { target: -301, wait_for: None }));
    assert_eq!(do_bgfg(&mut shell, &tokens("bg +\n")), Err(BgFgError::BadArgument));
}

#[test]
fn error_texts() {
    assert_eq!(bgfg_error_text(BgFgError::MissingArgument, "fg"), "fg command requires PID or %jobid argument");
    assert_eq!(bgfg_error_text(BgFgError::BadArgument, "bg"), "bg: argument must be a PID or %jobid");
    assert_eq!(bgfg_error_text(BgFgError::NoSuchJob(12), "fg"), "%12: No such job");
    assert_eq!(bgfg_error_text(BgFgError::NoSuchProcess(4096), "fg"), "(4096): No such process");
    assert_eq!(bgfg_error_text(BgFgError::NotJobControl, "ls"), "ls: not a job control command");
}
