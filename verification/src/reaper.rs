//! The reaper's decisions: what a signal and what a child's change of
//! status do to the job table.

use crate::job::{
    fg_index, has_foreground, has_pid, lemma_fg_index, lemma_pid_index, lemma_pid_index_first, lemma_set_state,
    pid_index, JobView, ProccessState,
};
use crate::shell::Shell;
use crate::text::{decimal, push_decimal, push_signed_decimal, push_text, signed_decimal};
use vstd::prelude::*;

verus! {

/// The signals that the reaper reacts to.
#[derive(Clone, Copy, Debug, PartialEq, Eq, Structural)]
pub enum SignalClass {
    /// The interactive interrupt.
    Interrupt,
    /// The stop request from the terminal.
    TerminalStop,
    /// A child has changed its status.
    ChildStatus,
}

/// What the reaper does after a signal.
#[derive(Clone, Copy, Debug, PartialEq, Eq, Structural)]
pub enum Reaction {
    /// Send the signal on to `target`, the negative of a process group's
    /// id: every process of the group receives it.
    Forward { target: i32 },
    /// Ask for the pending changes of status until none is left, and hand
    /// each to `waitpid`.
    Drain,
    /// Nothing.
    Nothing,
}

/// What a non-blocking wait reports.
#[derive(Clone, Copy, Debug, PartialEq, Eq, Structural)]
pub enum ChildStatus {
    /// The process exited with this status.
    Exited { pid: i32, status: i32 },
    /// The process was killed by this signal.
    Signaled { pid: i32, signal: i32 },
    /// The process was stopped by this signal.
    Stopped { pid: i32, signal: i32 },
    /// A change that the job table takes no note of.
    Other,
    /// No change is pending.
    NothingPending,
}

/// What became of one change of status.
#[derive(Debug)]
pub struct Reaped {
    /// Whether to ask for the next change.
    pub more: bool,
    /// The line to print, if the change calls for one.
    pub notice: Option<String>,
}

/// The job table after a change of status: a job whose process exited or
/// was killed leaves the table, a job whose process was stopped becomes
/// `ST`, and a change of a process that owns no job changes nothing.
pub open spec fn jobs_after(s: Seq<JobView>, status: ChildStatus) -> Seq<JobView> {
    match status {
        ChildStatus::Exited { pid, .. } | ChildStatus::Signaled { pid, .. } => if has_pid(s, pid) {
            s.remove(pid_index(s, pid))
        } else {
            s
        },
        ChildStatus::Stopped { pid, .. } => if has_pid(s, pid) {
            s.update(pid_index(s, pid), JobView { state: ProccessState::ST, ..s[pid_index(s, pid)] })
        } else {
            s
        },
        _ => s,
    }
}

/// The recorded exit status after a change of status: an exit records its
/// status, a kill clears the record, anything else leaves it.
pub open spec fn exit_status_after(recorded: Option<i32>, status: ChildStatus) -> Option<i32> {
    match status {
        ChildStatus::Exited { status: code, .. } => Some(code),
        ChildStatus::Signaled { .. } => None,
        _ => recorded,
    }
}

/// How a notice names a signal: by the name handed in, or by its number
/// where there is none.
pub open spec fn signal_text(signal: i32, name: Option<Seq<char>>) -> Seq<char> {
    match name {
        Some(text) => text,
        None => signed_decimal(signal as int),
    }
}

/// The notice `Job [jid] (pid) <what> by signal <signal>`.
pub open spec fn notice_text(jid: u32, pid: i32, what: Seq<char>, signal: Seq<char>) -> Seq<char> {
    "Job ["@ + decimal(jid as nat) + "] ("@ + signed_decimal(pid as int) + ") "@ + what + " by signal "@ + signal
}

/// The notice that a change of status calls for: one for a kill and one
/// for a stop, where the process owns a job.
pub open spec fn notice_after(s: Seq<JobView>, status: ChildStatus, name: Option<Seq<char>>) -> Option<Seq<char>> {
    match status {
        ChildStatus::Signaled { pid, signal } => if has_pid(s, pid) {
            Some(notice_text(s[pid_index(s, pid)].jid, pid, "terminated"@, signal_text(signal, name)))
        } else {
            None
        },
        ChildStatus::Stopped { pid, signal } => if has_pid(s, pid) {
            Some(notice_text(s[pid_index(s, pid)].jid, pid, "stopped"@, signal_text(signal, name)))
        } else {
            None
        },
        _ => None,
    }
}

/// The view of an optional string.
pub open spec fn text_of(text: Option<String>) -> Option<Seq<char>> {
    match text {
        Some(t) => Some(t@),
        None => None,
    }
}

/// The name that nix has for the signal with this number on the machine
/// that runs the shell, through `Signal::try_from` and `Signal::as_str`.
/// None where nix knows no signal of that number. Nothing is claimed of
/// the name: the numbers of the signals differ between platforms.
#[verifier::external_body]
fn signal_name(signal: i32) -> (name: Option<String>) {
    match nix::sys::signal::Signal::try_from(signal) {
        Ok(known) => Some(known.as_str().to_string()),
        Err(_) => None,
    }
}

/// Builds the notice for job `jid` with process `pid`.
fn notice(jid: u32, pid: i32, what: &str, signal: i32, name: &Option<String>) -> (text: String)
    ensures
        text@ == notice_text(jid, pid, what@, signal_text(signal, text_of(*name))),
{
    let mut text = String::new();
    push_text(&mut text, "Job [");
    push_decimal(&mut text, jid as u64);
    push_text(&mut text, "] (");
    push_signed_decimal(&mut text, pid);
    push_text(&mut text, ") ");
    push_text(&mut text, what);
    push_text(&mut text, " by signal ");
    match name {
        Some(n) => push_text(&mut text, n.as_str()),
        None => push_signed_decimal(&mut text, signal),
    }
    assert(text@ =~= notice_text(jid, pid, what@, signal_text(signal, text_of(*name))));
    text
}

/// Decides what a signal does. An interrupt takes the foreground job out
/// of the table at once and is sent on to its process group; a stop
/// request is sent on to the foreground job's process group and leaves the
/// table as it is, since the stop comes back as a change of status; a
/// child signal starts the drain.
pub fn handle_signal(shell: &mut Shell, class: SignalClass) -> (reaction: Reaction)
    requires
        old(shell).wf(),
    ensures
        final(shell).wf(),
        final(shell).exit_status == old(shell).exit_status,
        class == SignalClass::ChildStatus ==> reaction == Reaction::Drain,
        class != SignalClass::ChildStatus && !has_foreground(old(shell).jobs@) ==> reaction == Reaction::Nothing,
        class != SignalClass::ChildStatus && has_foreground(old(shell).jobs@) ==> reaction == (Reaction::Forward {
            target: (-old(shell).jobs@[fg_index(old(shell).jobs@)].pgid) as i32,
        }),
        class == SignalClass::Interrupt && has_foreground(old(shell).jobs@) ==> final(shell).jobs@ == old(
            shell,
        ).jobs@.remove(fg_index(old(shell).jobs@)),
        !(class == SignalClass::Interrupt && has_foreground(old(shell).jobs@)) ==> final(shell).jobs@ == old(
            shell,
        ).jobs@,
{
    match class {
        SignalClass::ChildStatus => Reaction::Drain,
        SignalClass::TerminalStop => {
            proof {
                lemma_fg_index(shell.jobs@);
            }
            match shell.jobs.foreground() {
                Some(job) => Reaction::Forward { target: -job.pgid },
                None => Reaction::Nothing,
            }
        },
        SignalClass::Interrupt => {
            proof {
                lemma_fg_index(shell.jobs@);
            }
            let front = match shell.jobs.foreground() {
                Some(job) => Some((job.pid, job.pgid)),
                None => None,
            };
            match front {
                Some((pid, pgid)) => {
                    proof {
                        let s = shell.jobs@;
                        let i = fg_index(s);
                        assert forall|k: int| 0 <= k < i implies (#[trigger] s[k]).pid != pid by {
                            assert(s[k].pid != s[i].pid);
                        }
                        lemma_pid_index_first(s, pid, i);
                    }
                    let _ = shell.jobs.delete_job(pid);
                    Reaction::Forward { target: -pgid }
                },
                None => Reaction::Nothing,
            }
        },
    }
}

/// Takes one change of status into the job table and the recorded exit
/// status, and builds the notice that it calls for. `name` is the name to
/// print for the signal of a kill or a stop; without one the notice shows
/// the signal's number.
pub fn reap(shell: &mut Shell, status: ChildStatus, name: Option<String>) -> (reaped: Reaped)
    requires
        old(shell).wf(),
    ensures
        final(shell).wf(),
        final(shell).jobs@ == jobs_after(old(shell).jobs@, status),
        final(shell).exit_status == exit_status_after(old(shell).exit_status, status),
        reaped.more == (status != ChildStatus::NothingPending),
        text_of(reaped.notice) == notice_after(old(shell).jobs@, status, text_of(name)),
{
    match status {
        ChildStatus::Exited { pid, status: code } => {
            shell.exit_status = Some(code);
            let _ = shell.jobs.delete_job(pid);
            Reaped { more: true, notice: None }
        },
        ChildStatus::Signaled { pid, signal } => {
            let text = match shell.jobs.job_by_pid(pid) {
                Some(job) => Some(notice(job.jid, pid, "terminated", signal, &name)),
                None => None,
            };
            shell.exit_status = None;
            let _ = shell.jobs.delete_job(pid);
            Reaped { more: true, notice: text }
        },
        ChildStatus::Stopped { pid, signal } => {
            proof {
                lemma_pid_index(shell.jobs@, pid);
                if has_pid(shell.jobs@, pid) {
                    lemma_set_state(shell.jobs@, pid_index(shell.jobs@, pid), ProccessState::ST);
                }
            }
            let text = match shell.jobs.get_job_pid(pid) {
                Some(job) => {
                    job.state = ProccessState::ST;
                    Some(notice(job.jid, pid, "stopped", signal, &name))
                },
                None => None,
            };
            Reaped { more: true, notice: text }
        },
        ChildStatus::Other => Reaped { more: true, notice: None },
        ChildStatus::NothingPending => Reaped { more: false, notice: None },
    }
}

/// Takes one change of status into the job table and the recorded exit
/// status, as `reap` does, and names the signal in the notice as nix names
/// it on this machine.
pub fn waitpid(shell: &mut Shell, status: ChildStatus) -> (reaped: Reaped)
    requires
        old(shell).wf(),
    ensures
        final(shell).wf(),
        final(shell).jobs@ == jobs_after(old(shell).jobs@, status),
        final(shell).exit_status == exit_status_after(old(shell).exit_status, status),
        reaped.more == (status != ChildStatus::NothingPending),
        exists|name: Option<Seq<char>>| text_of(reaped.notice) == notice_after(old(shell).jobs@, status, name),
{
    let name = match status {
        ChildStatus::Signaled { signal, .. } => signal_name(signal),
        ChildStatus::Stopped { signal, .. } => signal_name(signal),
        _ => None,
    };
    let ghost shown = text_of(name);
    let reaped = reap(shell, status, name);
    assert(text_of(reaped.notice) == notice_after(old(shell).jobs@, status, shown));
    reaped
}

} // verus!
