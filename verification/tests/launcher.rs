use rsh::compile::{parseargs, CommandLine, Condition};
use rsh::job::ProccessState;
use rsh::launch::{condition_permits, create_subproccesses, Cursor, LaunchAction, LaunchEvent};
use rsh::shell::Shell;
use rsh::store::{Aliases, Variables};
use rsh::token::parseline;

fn compile(line: &str) -> (bool, CommandLine) {
    let (bg, tokens) = parseline(line).unwrap();
    (bg, parseargs(&tokens, &Aliases::new(), &Variables::new(), &Variables::new()).unwrap())
}

struct Run {
    shell: Shell,
    line: CommandLine,
    bg: bool,
    text: String,
    cursor: Cursor,
}

impl Run {
    fn new(text: &str) -> Run {
        let (bg, line) = compile(text);
        Run { shell: Shell::new(), line, bg, text: text.to_string(), cursor: Cursor::Before { group: 0 } }
    }

    fn step(&mut self, event: LaunchEvent) -> LaunchAction {
        create_subproccesses(&mut self.shell, &self.line, self.bg, &self.text, &mut self.cursor, event)
    }
}

#[test]
fn conditions() {
    assert!(condition_permits(Condition::Always, None));
    assert!(condition_permits(Condition::Always, Some(1)));
    assert!(condition_permits(Condition::IfZero, Some(0)));
    assert!(!condition_permits(Condition::IfZero, Some(1)));
    assert!(!condition_permits(Condition::IfZero, Some(-1)));
    assert!(!condition_permits(Condition::IfZero, None));
    assert!(!condition_permits(Condition::IfNonZero, Some(0)));
    assert!(condition_permits(Condition::IfNonZero, Some(2)));
    assert!(condition_permits(Condition::IfNonZero, None));
}

#[test]
fn single_foreground_command() {
    let mut run = Run::new("echo hello\n");
    assert_eq!(run.step(LaunchEvent::Go), LaunchAction::Spawn { group: 0, stage: 0, pgid: 0 });
    assert_eq!(run.shell.jobs.len(), 0);
    assert_eq!(run.step(LaunchEvent::Started { pid: 500 }), LaunchAction::WaitForeground { pid: 500 });
    let job = run.shell.jobs.job_by_pid(500).unwrap();
    assert_eq!((job.pid, job.pgid, job.jid, job.state), (500, 500, 1, ProccessState::FG));
    assert_eq!(job.cmdline, "echo hello\n");
    run.shell.jobs.delete_job(500).unwrap();
    assert_eq!(run.step(LaunchEvent::Go), LaunchAction::Done);
    assert_eq!(run.cursor, Cursor::Finished);
}

#[test]
fn background_command_is_registered_and_not_waited_for() {
    let mut run = Run::new("sleep 5 &\n");
    assert_eq!(run.step(LaunchEvent::Go), LaunchAction::Spawn { group: 0, stage: 0, pgid: 0 });
    assert_eq!(run.step(LaunchEvent::Started { pid: 77 }), LaunchAction::Done);
    assert_eq!(run.cursor, Cursor::Finished);
    assert_eq!(run.shell.jobs.job_by_pid(77).unwrap().state, ProccessState::BG);
    assert_eq!(run.shell.jobs.to_string(), "[1] (77) Running sleep 5 &\n");
}

#[test]
fn pipeline_shares_the_process_group_of_its_first_process() {
    let mut run = Run::new("a | b | c\n");
    assert_eq!(run.step(LaunchEvent::Go), LaunchAction::Spawn { group: 0, stage: 0, pgid: 0 });
    assert_eq!(run.step(LaunchEvent::Started { pid: 40 }), LaunchAction::Spawn { group: 0, stage: 1, pgid: 40 });
    assert_eq!(run.step(LaunchEvent::Started { pid: 41 }), LaunchAction::Spawn { group: 0, stage: 2, pgid: 40 });
    assert_eq!(run.shell.jobs.len(), 0);
    assert_eq!(run.step(LaunchEvent::Started { pid: 42 }), LaunchAction::WaitForeground { pid: 40 });
    assert_eq!(run.shell.jobs.len(), 1);
    let job = run.shell.jobs.job_by_pid(40).unwrap();
    assert_eq!((job.pid, job.pgid), (40, 40));
}

#[test]
fn and_skips_the_second_group_after_a_failure() {
    let mut run = Run::new("false && echo a\n");
    assert_eq!(run.step(LaunchEvent::Go), LaunchAction::Spawn { group: 0, stage: 0, pgid: 0 });
    assert_eq!(run.step(LaunchEvent::Started { pid: 9 }), LaunchAction::WaitConditional { pid: 9 });
    run.shell.jobs.delete_job(9).unwrap();
    run.shell.exit_status = Some(1);
    assert_eq!(run.step(LaunchEvent::Go), LaunchAction::Done);
    assert_eq!(run.cursor, Cursor::Finished);
    assert_eq!(run.step(LaunchEvent::Go), LaunchAction::Done);
    assert_eq!(run.step(LaunchEvent::Started { pid: 10 }), LaunchAction::Done);
    assert_eq!(run.shell.jobs.len(), 0);
}

#[test]
fn and_runs_the_second_group_after_success() {
    let mut run = Run::new("true && echo a\n");
    run.step(LaunchEvent::Go);
    assert_eq!(run.step(LaunchEvent::Started { pid: 9 }), LaunchAction::WaitConditional { pid: 9 });
    run.shell.jobs.delete_job(9).unwrap();
    run.shell.exit_status = Some(0);
    assert_eq!(run.step(LaunchEvent::Go), LaunchAction::Spawn { group: 1, stage: 0, pgid: 0 });
    assert_eq!(run.step(LaunchEvent::Started { pid: 10 }), LaunchAction::WaitForeground { pid: 10 });
}

#[test]
fn or_skips_after_success_and_runs_after_failure_or_kill() {
    for (status, runs) in [(Some(0), false), (Some(3), true), (None, true)] {
        let mut run = Run::new("a || b\n");
        run.step(LaunchEvent::Go);
        run.step(LaunchEvent::Started { pid: 9 });
        run.shell.jobs.delete_job(9).unwrap();
        run.shell.exit_status = status;
        let action = run.step(LaunchEvent::Go);
        if runs {
            assert_eq!(action, LaunchAction::Spawn { group: 1, stage: 0, pgid: 0 });
        } else {
            assert_eq!(action, LaunchAction::Done);
        }
    }
}

#[test]
fn unmet_condition_ends_the_whole_chain() {
    let mut run = Run::new("a && b || c\n");
    run.step(LaunchEvent::Go);
    run.step(LaunchEvent::Started { pid: 9 });
    run.shell.jobs.delete_job(9).unwrap();
    run.shell.exit_status = Some(1);
    assert_eq!(run.step(LaunchEvent::Go), LaunchAction::Done);
    assert_eq!(run.step(LaunchEvent::Go), LaunchAction::Done);
}

#[test]
fn program_not_found_ends_the_line_without_a_job() {
    let mut run = Run::new("a | nosuch | c && d\n");
    run.step(LaunchEvent::Go);
    assert_eq!(run.step(LaunchEvent::Started { pid: 40 }), LaunchAction::Spawn { group: 0, stage: 1, pgid: 40 });
    assert_eq!(run.step(LaunchEvent::NotFound), LaunchAction::Done);
    assert_eq!(run.cursor, Cursor::Finished);
    assert_eq!(run.shell.jobs.len(), 0);
}

#[test]
fn bad_redirection_ends_the_group_with_status_one() {
    let mut run = Run::new("cat < missing || echo fallback\n");
    run.step(LaunchEvent::Go);
    assert_eq!(run.step(LaunchEvent::BadRedirection), LaunchAction::Spawn { group: 1, stage: 0, pgid: 0 });
    assert_eq!(run.shell.exit_status, Some(1));
    assert_eq!(run.shell.jobs.len(), 0);
    let mut run = Run::new("cat < missing && echo next\n");
    run.step(LaunchEvent::Go);
    assert_eq!(run.step(LaunchEvent::BadRedirection), LaunchAction::Done);
    assert_eq!(run.shell.exit_status, Some(1));
}

#[test]
fn job_that_the_table_cannot_take_is_refused() {
    let mut run = Run::new("a\n");
    run.shell.jobs.addjob(5, 5, ProccessState::BG, "old\n");
    run.step(LaunchEvent::Go);
    assert_eq!(run.step(LaunchEvent::Started { pid: 5 }), LaunchAction::Refused { pid: 5 });
    assert_eq!(run.shell.jobs.len(), 1);
    let mut run = Run::new("a\n");
    run.shell.jobs.addjob(5, 5, ProccessState::FG, "front\n");
    run.step(LaunchEvent::Go);
    assert_eq!(run.step(LaunchEvent::Started { pid: 6 }), LaunchAction::Refused { pid: 6 });
    let mut run = Run::new("a\n");
    run.step(LaunchEvent::Go);
    assert_eq!(run.step(LaunchEvent::Started { pid: 0 }), LaunchAction::Refused { pid: 0 });
}

#[test]
fn empty_line_has_nothing_to_launch() {
    let mut run = Run::new("\n");
    assert_eq!(run.step(LaunchEvent::Go), LaunchAction::Done);
    assert_eq!(run.cursor, Cursor::Finished);
}

#[test]
fn second_foreground_job_waits_for_the_first_to_leave() {
    let mut run = Run::new("a && b\n");
    run.step(LaunchEvent::Go);
    run.step(LaunchEvent::Started { pid: 9 });
    run.shell.exit_status = Some(0);
    assert_eq!(run.step(LaunchEvent::Go), LaunchAction::Spawn { group: 1, stage: 0, pgid: 0 });
    assert_eq!(run.step(LaunchEvent::Started { pid: 10 }), LaunchAction::Refused { pid: 10 });
    let fronts = run.shell.jobs.iter().filter(|job| job.state == ProccessState::FG).count();
    assert_eq!(fronts, 1);
}
