//! The wait protocol: when the command loop may go on, and the `fg` and
//! `bg` requests.

use crate::compile::{is_word, word_text};
use crate::job::{
    has_foreground, has_jid, has_pid, jid_index, lemma_jid_index, lemma_pid_index, lemma_set_state, pid_index,
    JobView, ProccessState,
};
use crate::shell::Shell;
use crate::text::{chars_of, parse_number, read_number, same_text};
use crate::token::{tokens_view, Token, TokenView};
use vstd::prelude::*;

verus! {

/// What a waiting command loop does next.
#[derive(Clone, Copy, Debug, PartialEq, Eq, Structural)]
pub enum Wait {
    /// Sleep until the reaper has changed the job table, then ask again.
    Park,
    /// Go on, with the exit status that was recorded last.
    Resume(Option<i32>),
}

/// A live job has process id `pid` and is in the foreground.
pub open spec fn in_foreground(s: Seq<JobView>, pid: i32) -> bool {
    has_pid(s, pid) && s[pid_index(s, pid)].state == ProccessState::FG
}

/// A live job has process id `pid` and is not stopped.
pub open spec fn is_running(s: Seq<JobView>, pid: i32) -> bool {
    has_pid(s, pid) && s[pid_index(s, pid)].state != ProccessState::ST
}

/// Tells the command loop, which waits for the foreground job with process
/// id `pid`, whether to go on: it does as soon as no live job with that
/// process id is in the foreground, because the job has left the table,
/// was stopped or was put into the background. A job that never was in the
/// table lets it go on at once.
pub fn waitfg(shell: &Shell, pid: i32) -> (wait: Wait)
    ensures
        wait == if in_foreground(shell.jobs@, pid) {
            Wait::Park
        } else {
            Wait::Resume(shell.exit_status)
        },
{
    match shell.jobs.job_by_pid(pid) {
        Some(job) => match job.state {
            ProccessState::FG => Wait::Park,
            _ => Wait::Resume(shell.exit_status),
        },
        None => Wait::Resume(shell.exit_status),
    }
}

/// Tells the command loop, which waits for the job with process id `pid`
/// before it considers the next group of a chain, whether to go on: it
/// does as soon as the job has left the table or was stopped.
pub fn wait_conditional(shell: &Shell, pid: i32) -> (wait: Wait)
    ensures
        wait == if is_running(shell.jobs@, pid) {
            Wait::Park
        } else {
            Wait::Resume(shell.exit_status)
        },
{
    match shell.jobs.job_by_pid(pid) {
        Some(job) => match job.state {
            ProccessState::ST => Wait::Resume(shell.exit_status),
            _ => Wait::Park,
        },
        None => Wait::Resume(shell.exit_status),
    }
}

/// Why an `fg` or `bg` request changes nothing.
#[derive(Clone, Copy, Debug, PartialEq, Eq, Structural)]
pub enum BgFgError {
    /// The first word is neither `fg` nor `bg`.
    NotJobControl,
    /// No argument follows the command.
    MissingArgument,
    /// The argument is neither a process id nor `%` and a job id.
    BadArgument,
    /// No live job has this job id.
    NoSuchJob(u32),
    /// No live job has this process id.
    NoSuchProcess(u32),
}

/// What the command loop does after a request that found its job.
#[derive(Clone, Copy, Debug, PartialEq, Eq, Structural)]
pub struct Resumed {
    /// Where to send the continue signal: the negative of the job's
    /// process group id, which stands for every process of the group.
    pub target: i32,
    /// The process id to wait for with `waitfg`, after `fg`.
    pub wait_for: Option<i32>,
}

/// The state that a request asks for, where its first token is the bare
/// word `fg` or `bg`.
pub open spec fn requested_state(argv: Seq<TokenView>) -> Option<ProccessState> {
    if argv.len() > 0 && argv[0] == TokenView::Word("fg"@) {
        Some(ProccessState::FG)
    } else if argv.len() > 0 && argv[0] == TokenView::Word("bg"@) {
        Some(ProccessState::BG)
    } else {
        None
    }
}

/// The job that an argument names: by job id after `%`, else by process
/// id. `None` where the argument is no number.
pub open spec fn job_reference(arg: Seq<char>) -> Option<(bool, u32)> {
    if arg.len() > 0 && arg[0] == '%' {
        match parse_number(arg.skip(1)) {
            Some(jid) => Some((true, jid)),
            None => None,
        }
    } else {
        match parse_number(arg) {
            Some(pid) => Some((false, pid)),
            None => None,
        }
    }
}

/// The position of the job that a request is about and the state that it
/// asks for, or why the request changes nothing.
pub open spec fn request(s: Seq<JobView>, argv: Seq<TokenView>) -> Result<(int, ProccessState), BgFgError> {
    match requested_state(argv) {
        None => Err(BgFgError::NotJobControl),
        Some(state) => if argv.len() < 2 {
            Err(BgFgError::MissingArgument)
        } else if !is_word(argv[1]) {
            Err(BgFgError::BadArgument)
        } else {
            match job_reference(word_text(argv[1])) {
                None => Err(BgFgError::BadArgument),
                Some((true, jid)) => if has_jid(s, jid) {
                    Ok((jid_index(s, jid), state))
                } else {
                    Err(BgFgError::NoSuchJob(jid))
                },
                Some((false, pid)) => if pid <= i32::MAX && has_pid(s, pid as i32) {
                    Ok((pid_index(s, pid as i32), state))
                } else {
                    Err(BgFgError::NoSuchProcess(pid))
                },
            }
        },
    }
}

/// Carries out an `fg` or `bg` request: finds the job that the argument
/// names, by process id or by `%` and job id, and puts it into the
/// foreground or the background. The caller then sends the continue signal
/// to `target` and, after `fg`, waits for `wait_for`. A request that finds
/// no job changes nothing.
pub fn do_bgfg(shell: &mut Shell, argv: &Vec<Token>) -> (res: Result<Resumed, BgFgError>)
    requires
        old(shell).wf(),
        !has_foreground(old(shell).jobs@),
    ensures
        final(shell).wf(),
        final(shell).exit_status == old(shell).exit_status,
        match request(old(shell).jobs@, tokens_view(argv@)) {
            Ok((i, state)) => {
                let job = old(shell).jobs@[i];
                &&& final(shell).jobs@ == old(shell).jobs@.update(i, JobView { state, ..job })
                &&& res == Ok::<Resumed, BgFgError>(
                    Resumed {
                        target: (-job.pgid) as i32,
                        wait_for: if state == ProccessState::FG {
                            Some(job.pid)
                        } else {
                            None
                        },
                    },
                )
            },
            Err(e) => final(shell).jobs@ == old(shell).jobs@ && res == Err::<Resumed, BgFgError>(e),
        },
{
    let ghost s = shell.jobs@;
    let ghost tv = tokens_view(argv@);
    if argv.len() == 0 {
        return Err(BgFgError::NotJobControl);
    }
    assert(tv[0] == argv@[0]@);
    let state = match &argv[0] {
        Token::Word(command) => {
            if same_text(command.as_str(), "fg") {
                ProccessState::FG
            } else if same_text(command.as_str(), "bg") {
                ProccessState::BG
            } else {
                return Err(BgFgError::NotJobControl);
            }
        },
        _ => {
            return Err(BgFgError::NotJobControl);
        },
    };
    if argv.len() < 2 {
        return Err(BgFgError::MissingArgument);
    }
    assert(tv[1] == argv@[1]@);
    let chars = match &argv[1] {
        Token::Word(text) => chars_of(text.as_str()),
        Token::Quoted(text) => chars_of(text.as_str()),
        _ => {
            return Err(BgFgError::BadArgument);
        },
    };
    let by_jid = chars.len() > 0 && chars[0] == '%';
    assert(chars@.skip(0) =~= chars@);
    let number = match read_number(&chars, if by_jid {
        1
    } else {
        0
    }) {
        Some(n) => n,
        None => {
            return Err(BgFgError::BadArgument);
        },
    };
    proof {
        lemma_jid_index(s, number);
        if number <= i32::MAX {
            lemma_pid_index(s, number as i32);
        }
    }
    let found = if by_jid {
        shell.jobs.get_job_jid(number)
    } else if number <= 0x7fff_ffff {
        shell.jobs.get_job_pid(number as i32)
    } else {
        None
    };
    match found {
        Some(job) => {
            proof {
                let i = if by_jid {
                    jid_index(s, number)
                } else {
                    pid_index(s, number as i32)
                };
                lemma_set_state(s, i, state);
                assert(s[i].pgid >= 1);
            }
            job.state = state;
            let wait_for = match state {
                ProccessState::FG => Some(job.pid),
                _ => None,
            };
            Ok(Resumed { target: -job.pgid, wait_for })
        },
        None => {
            if by_jid {
                Err(BgFgError::NoSuchJob(number))
            } else {
                Err(BgFgError::NoSuchProcess(number))
            }
        },
    }
}

} // verus!
