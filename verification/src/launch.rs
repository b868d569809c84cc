//! The launcher's decisions: which stage to spawn next and into which
//! process group, when a group's job enters the table, and when a chain
//! stops.

use crate::compile::{CommandLine, CommandLineView, Condition};
use crate::job::{can_add, JobView, ProccessState};
use crate::shell::Shell;
use vstd::prelude::*;

verus! {

/// Where the launcher stands in a compiled line.
#[derive(Clone, Copy, Debug, PartialEq, Eq, Structural)]
pub enum Cursor {
    /// The group at this position is the next to be considered.
    Before { group: usize },
    /// The stage was handed out to be spawned. `leader` is the process id
    /// of the group's first process, once that one runs.
    Spawning { group: usize, stage: usize, leader: i32 },
    /// The group's job is in the table and the command loop waits for it.
    Waiting { group: usize },
    /// Nothing of the line is left to do.
    Finished,
}

/// What the command loop reports to the launcher.
#[derive(Clone, Copy, Debug, PartialEq, Eq, Structural)]
pub enum LaunchEvent {
    /// Go on: at the start of a line and when a wait is over.
    Go,
    /// The stage that was handed out runs as the process `pid`.
    Started { pid: i32 },
    /// The program of the stage that was handed out was not found.
    NotFound,
    /// A file of the stage that was handed out could not be opened.
    BadRedirection,
}

/// What the command loop does next.
#[derive(Clone, Copy, Debug, PartialEq, Eq, Structural)]
pub enum LaunchAction {
    /// Spawn this stage into the process group `pgid`; 0 asks for a new
    /// group whose id is the process id of the child.
    Spawn { group: usize, stage: usize, pgid: i32 },
    /// The pipeline runs in the foreground: wait with `waitfg`.
    WaitForeground { pid: i32 },
    /// The pipeline runs and a group follows: wait with `wait_conditional`.
    WaitConditional { pid: i32 },
    /// The job table cannot take a job for the process `pid`.
    Refused { pid: i32 },
    /// Read the next line.
    Done,
}

/// Whether a group with this condition is launched after the exit status
/// `status` was recorded: `&&` asks for a recorded zero, `||` for anything
/// but a recorded zero.
pub open spec fn permits(condition: Condition, status: Option<i32>) -> bool {
    match condition {
        Condition::Always => true,
        Condition::IfZero => status == Some(0i32),
        Condition::IfNonZero => status != Some(0i32),
    }
}

/// The state that the job of a pipeline is inserted with.
pub open spec fn launch_state(bg: bool) -> ProccessState {
    if bg {
        ProccessState::BG
    } else {
        ProccessState::FG
    }
}

/// What one step of the launcher comes to.
pub struct Outcome {
    pub cursor: Cursor,
    pub action: LaunchAction,
    /// The recorded exit status after the step.
    pub status: Option<i32>,
    /// The process id of the job that the step inserts, if it inserts one.
    pub register: Option<i32>,
}

/// The launcher turns to the group at position `g`: it spawns the first
/// stage if the group exists, has a stage and its condition permits it,
/// and is finished with the line otherwise.
pub open spec fn enter(line: CommandLineView, g: int, status: Option<i32>) -> Outcome {
    if 0 <= g < line.groups.len() && line.groups[g].stages.len() > 0 && permits(line.groups[g].condition, status) {
        Outcome {
            cursor: Cursor::Spawning { group: g as usize, stage: 0, leader: 0 },
            action: LaunchAction::Spawn { group: g as usize, stage: 0, pgid: 0 },
            status,
            register: None,
        }
    } else {
        Outcome { cursor: Cursor::Finished, action: LaunchAction::Done, status, register: None }
    }
}

/// The step of the launcher from `cursor` on `event`.
///
/// - Before a group, and after the wait for a group, the next group is
///   entered as `enter` says.
/// - A stage that started is followed by the next stage of its group,
///   spawned into the process group of the group's first process. After
///   the last stage the job enters the table, with the first process's id
///   as process id and as group id, if `takes` holds; the command loop then
///   waits, unless the line's last group runs in the background.
/// - A program that was not found ends the line.
/// - A file that could not be opened ends the group, records the exit
///   status 1 and lets the next group be entered.
/// - An event that does not fit the cursor ends the line.
///
/// `takes` tells whether the job table can take the job of a group whose
/// first process has a given id.
pub open spec fn launch_next(
    line: CommandLineView,
    bg: bool,
    cursor: Cursor,
    event: LaunchEvent,
    status: Option<i32>,
    takes: spec_fn(i32) -> bool,
) -> Outcome {
    let finished = Outcome { cursor: Cursor::Finished, action: LaunchAction::Done, status, register: None };
    match cursor {
        Cursor::Before { group } => enter(line, group as int, status),
        Cursor::Waiting { group } => enter(line, group + 1, status),
        Cursor::Finished => finished,
        Cursor::Spawning { group, stage, leader } => match event {
            LaunchEvent::Started { pid } => {
                let first = if stage == 0 {
                    pid
                } else {
                    leader
                };
                if !(group < line.groups.len() && stage < line.groups[group as int].stages.len()) {
                    finished
                } else if stage + 1 < line.groups[group as int].stages.len() {
                    Outcome {
                        cursor: Cursor::Spawning { group, stage: (stage + 1) as usize, leader: first },
                        action: LaunchAction::Spawn { group, stage: (stage + 1) as usize, pgid: first },
                        status,
                        register: None,
                    }
                } else if !takes(first) {
                    Outcome {
                        cursor: Cursor::Finished,
                        action: LaunchAction::Refused { pid: first },
                        status,
                        register: None,
                    }
                } else if group + 1 < line.groups.len() {
                    Outcome {
                        cursor: Cursor::Waiting { group },
                        action: LaunchAction::WaitConditional { pid: first },
                        status,
                        register: Some(first),
                    }
                } else if bg {
                    Outcome {
                        cursor: Cursor::Finished,
                        action: LaunchAction::Done,
                        status,
                        register: Some(first),
                    }
                } else {
                    Outcome {
                        cursor: Cursor::Waiting { group },
                        action: LaunchAction::WaitForeground { pid: first },
                        status,
                        register: Some(first),
                    }
                }
            },
            LaunchEvent::BadRedirection => enter(line, group + 1, Some(1i32)),
            _ => finished,
        },
    }
}

/// Whether a group with this condition is launched after `status`.
pub fn condition_permits(condition: Condition, status: Option<i32>) -> (launch: bool)
    ensures
        launch == permits(condition, status),
{
    match condition {
        Condition::Always => true,
        Condition::IfZero => match status {
            Some(code) => code == 0,
            None => false,
        },
        Condition::IfNonZero => match status {
            Some(code) => code != 0,
            None => true,
        },
    }
}

/// Turns to the group at position `g`.
fn enter_group(line: &CommandLine, g: usize, status: Option<i32>) -> (next: (Cursor, LaunchAction))
    ensures
        next.0 == enter(line@, g as int, status).cursor,
        next.1 == enter(line@, g as int, status).action,
{
    if g < line.groups.len() {
        assert(line@.groups[g as int] == line.groups@[g as int]@);
        assert(line@.groups[g as int].stages.len() == line.groups@[g as int].stages@.len());
        if line.groups[g].stages.len() > 0 && condition_permits(line.groups[g].condition, status) {
            return (
                Cursor::Spawning { group: g, stage: 0, leader: 0 },
                LaunchAction::Spawn { group: g, stage: 0, pgid: 0 },
            );
        }
    }
    (Cursor::Finished, LaunchAction::Done)
}

/// Takes the launcher one step further through a compiled line: from the
/// cursor and what the command loop reports to the next cursor and what
/// the command loop does next. Where the last stage of a pipeline has
/// started, the pipeline's job enters the table under the id of its first
/// process, in the foreground or, with `bg`, in the background.
pub fn create_subproccesses(
    shell: &mut Shell,
    line: &CommandLine,
    bg: bool,
    cmdline: &str,
    cursor: &mut Cursor,
    event: LaunchEvent,
) -> (action: LaunchAction)
    requires
        old(shell).wf(),
    ensures
        final(shell).wf(),
        ({
            let table = old(shell).jobs@;
            let next_jid = old(shell).jobs.spec_next_jid();
            let out = launch_next(
                line@,
                bg,
                *old(cursor),
                event,
                old(shell).exit_status,
                |pid: i32| can_add(table, next_jid, pid, pid, launch_state(bg)),
            );
            &&& *final(cursor) == out.cursor
            &&& action == out.action
            &&& final(shell).exit_status == out.status
            &&& final(shell).jobs@ == match out.register {
                Some(pid) => table.push(
                    JobView { pid, pgid: pid, jid: next_jid, state: launch_state(bg), cmdline: cmdline@ },
                ),
                None => table,
            }
        }),
{
    let ghost table = shell.jobs@;
    let ghost next_jid = shell.jobs.spec_next_jid();
    let ghost takes = |pid: i32| can_add(table, next_jid, pid, pid, launch_state(bg));
    let state = if bg {
        ProccessState::BG
    } else {
        ProccessState::FG
    };
    match *cursor {
        Cursor::Before { group } => {
            let next = enter_group(line, group, shell.exit_status);
            *cursor = next.0;
            next.1
        },
        Cursor::Waiting { group } => {
            if group < line.groups.len() {
                let next = enter_group(line, group + 1, shell.exit_status);
                *cursor = next.0;
                next.1
            } else {
                *cursor = Cursor::Finished;
                LaunchAction::Done
            }
        },
        Cursor::Finished => LaunchAction::Done,
        Cursor::Spawning { group, stage, leader } => match event {
            LaunchEvent::Started { pid } => {
                let first = if stage == 0 {
                    pid
                } else {
                    leader
                };
                if !(group < line.groups.len() && stage < line.groups[group].stages.len()) {
                    proof {
                        if group < line.groups.len() {
                            assert(line@.groups[group as int] == line.groups@[group as int]@);
                            assert(line@.groups[group as int].stages.len() == line.groups@[group as int].stages@.len());
                        }
                    }
                    *cursor = Cursor::Finished;
                    return LaunchAction::Done;
                }
                assert(line@.groups[group as int] == line.groups@[group as int]@);
                assert(line@.groups[group as int].stages.len() == line.groups@[group as int].stages@.len());
                if stage + 1 < line.groups[group].stages.len() {
                    *cursor = Cursor::Spawning { group, stage: stage + 1, leader: first };
                    return LaunchAction::Spawn { group, stage: stage + 1, pgid: first };
                }
                if !shell.jobs.accepts(first, first, state) {
                    assert(!takes(first));
                    *cursor = Cursor::Finished;
                    return LaunchAction::Refused { pid: first };
                }
                assert(takes(first));
                shell.jobs.addjob(first, first, state, cmdline);
                if group + 1 < line.groups.len() {
                    *cursor = Cursor::Waiting { group };
                    LaunchAction::WaitConditional { pid: first }
                } else if bg {
                    *cursor = Cursor::Finished;
                    LaunchAction::Done
                } else {
                    *cursor = Cursor::Waiting { group };
                    LaunchAction::WaitForeground { pid: first }
                }
            },
            LaunchEvent::BadRedirection => {
                shell.exit_status = Some(1);
                if group < line.groups.len() {
                    let next = enter_group(line, group + 1, shell.exit_status);
                    *cursor = next.0;
                    next.1
                } else {
                    *cursor = Cursor::Finished;
                    LaunchAction::Done
                }
            },
            _ => {
                *cursor = Cursor::Finished;
                LaunchAction::Done
            },
        },
    }
}

/// The cursor after each of a sequence of steps, and the action of the
/// last one. Each step has its own event, its own recorded exit status and
/// its own answer of the job table.
pub struct Report {
    pub event: LaunchEvent,
    pub status: Option<i32>,
    pub takes: spec_fn(i32) -> bool,
}

/// The cursor that a sequence of steps from `cursor` ends at.
pub open spec fn cursor_after(line: CommandLineView, bg: bool, cursor: Cursor, reports: Seq<Report>) -> Cursor
    decreases reports.len(),
{
    if reports.len() == 0 {
        cursor
    } else {
        let before = cursor_after(line, bg, cursor, reports.drop_last());
        launch_next(line, bg, before, reports.last().event, reports.last().status, reports.last().takes).cursor
    }
}

/// The action of the last of a sequence of steps from `cursor`; `Done` for
/// no step.
pub open spec fn last_action(line: CommandLineView, bg: bool, cursor: Cursor, reports: Seq<Report>) -> LaunchAction {
    if reports.len() == 0 {
        LaunchAction::Done
    } else {
        let before = cursor_after(line, bg, cursor, reports.drop_last());
        launch_next(line, bg, before, reports.last().event, reports.last().status, reports.last().takes).action
    }
}

/// A group whose condition the recorded exit status does not permit is
/// never spawned: the launcher is finished when it turns to such a group,
/// and whatever is reported afterwards, it hands out no stage and inserts
/// no job. So after `A && B` with a status of `A` other than a recorded
/// zero, and after `A || B` with a recorded zero, nothing of `B` runs.
pub proof fn lemma_short_circuit(
    line: CommandLineView,
    bg: bool,
    cursor: Cursor,
    first: Report,
    later: Seq<Report>,
)
    requires
        cursor matches Cursor::Before { group } ==> group < line.groups.len() && !permits(
            line.groups[group as int].condition,
            first.status,
        ),
        cursor matches Cursor::Waiting { group } ==> group + 1 < line.groups.len() && !permits(
            line.groups[group + 1].condition,
            first.status,
        ),
        cursor is Before || cursor is Waiting,
    ensures
        launch_next(line, bg, cursor, first.event, first.status, first.takes).action == LaunchAction::Done,
        launch_next(line, bg, cursor, first.event, first.status, first.takes).register is None,
        cursor_after(line, bg, cursor, seq![first] + later) == Cursor::Finished,
        later.len() > 0 ==> last_action(line, bg, cursor, seq![first] + later) == LaunchAction::Done,
    decreases later.len(),
{
    let all = seq![first] + later;
    if later.len() == 0 {
        assert(all.drop_last() =~= Seq::<Report>::empty());
        assert(all.last() == first);
    } else {
        lemma_short_circuit(line, bg, cursor, first, later.drop_last());
        assert(all.drop_last() =~= seq![first] + later.drop_last());
        assert(all.last() == later.last());
    }
}

/// Once the launcher is finished it stays finished: no event makes it hand
/// out a stage or insert a job.
pub proof fn lemma_finished_stays(line: CommandLineView, bg: bool, reports: Seq<Report>)
    ensures
        cursor_after(line, bg, Cursor::Finished, reports) == Cursor::Finished,
        last_action(line, bg, Cursor::Finished, reports) == LaunchAction::Done,
    decreases reports.len(),
{
    if reports.len() > 0 {
        lemma_finished_stays(line, bg, reports.drop_last());
    }
}

/// The stages of a pipeline share one process group, whose id is the
/// process id of the pipeline's first process: after the first stage of a
/// group has started as `pid` and `later.len()` further stages have
/// started, whatever their own process ids, the next stage is spawned into
/// the group `pid`, and the job that enters the table after the last stage
/// has `pid` as process id.
pub proof fn lemma_one_process_group(
    line: CommandLineView,
    bg: bool,
    group: usize,
    pid: i32,
    status: Option<i32>,
    takes: spec_fn(i32) -> bool,
    later: Seq<i32>,
)
    requires
        group < line.groups.len(),
        later.len() < line.groups[group as int].stages.len(),
        later.len() < usize::MAX,
    ensures
        ({
            let out = started_all(line, bg, group, pid, status, takes, later);
            &&& later.len() + 1 < line.groups[group as int].stages.len() ==> out.action == (LaunchAction::Spawn {
                group,
                stage: (later.len() + 1) as usize,
                pgid: pid,
            }) && out.register is None
            &&& later.len() + 1 == line.groups[group as int].stages.len() ==> (out.register matches Some(first)
                ==> first == pid) && (takes(pid) ==> out.register == Some(pid)) && (out.action matches LaunchAction::Spawn {
                ..
            } ==> false)
        }),
    decreases later.len(),
{
    if later.len() > 0 {
        lemma_one_process_group(line, bg, group, pid, status, takes, later.drop_last());
    }
}

/// What the step comes to in which the stage at position `later.len()` of
/// a group reports that it has started, where the first stage started as
/// `pid` and the stages after it as the process ids of `later`.
pub open spec fn started_all(
    line: CommandLineView,
    bg: bool,
    group: usize,
    pid: i32,
    status: Option<i32>,
    takes: spec_fn(i32) -> bool,
    later: Seq<i32>,
) -> Outcome
    decreases later.len(),
{
    if later.len() == 0 {
        launch_next(
            line,
            bg,
            Cursor::Spawning { group, stage: 0, leader: 0 },
            LaunchEvent::Started { pid },
            status,
            takes,
        )
    } else {
        let before = started_all(line, bg, group, pid, status, takes, later.drop_last());
        launch_next(line, bg, before.cursor, LaunchEvent::Started { pid: later.last() }, status, takes)
    }
}

} // verus!
