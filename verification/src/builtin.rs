//! The commands that the shell carries out itself: which one a line asks
//! for, and what its arguments say.

use crate::compile::{is_word, word_text};
use crate::text::{chars_of, push_decimal, push_text, same_text, split_spaces, split_words, decimal};
use crate::token::{tokens_view, Token, TokenView};
use crate::wait::BgFgError;
use vstd::prelude::*;

verus! {

/// What a line asks the shell itself to do.
#[derive(Clone, Copy, Debug, PartialEq, Eq, Structural)]
pub enum Builtin {
    /// The line has no token: nothing.
    Nothing,
    /// `quit` or `exit`: leave the shell.
    Quit,
    /// `jobs`: list the jobs.
    Jobs,
    /// `fg`: put a job into the foreground.
    Fg,
    /// `bg`: let a stopped job run in the background.
    Bg,
    /// `cd`: change the working directory.
    Cd,
    /// `alias`: list the aliases or define one.
    Alias,
    /// `export`: set a variable of the environment.
    Export,
    /// `vars`: list the shell variables.
    Vars,
    /// `NAME = value` and nothing else: set a shell variable.
    Assign,
    /// Not a command of the shell: compile the line and launch it.
    External,
}

/// The first token is the bare word `name`.
pub open spec fn names_command(argv: Seq<TokenView>, name: Seq<char>) -> bool {
    argv.len() > 0 && argv[0] == TokenView::Word(name)
}

/// The command of the shell that the tokens of a line ask for. Only a
/// bare first word names a command; three tokens with `=` in the middle
/// set a shell variable.
pub open spec fn builtin_of(argv: Seq<TokenView>) -> Builtin {
    if argv.len() == 0 {
        Builtin::Nothing
    } else if names_command(argv, "quit"@) || names_command(argv, "exit"@) {
        Builtin::Quit
    } else if names_command(argv, "jobs"@) {
        Builtin::Jobs
    } else if names_command(argv, "fg"@) {
        Builtin::Fg
    } else if names_command(argv, "bg"@) {
        Builtin::Bg
    } else if names_command(argv, "cd"@) {
        Builtin::Cd
    } else if names_command(argv, "alias"@) {
        Builtin::Alias
    } else if names_command(argv, "export"@) {
        Builtin::Export
    } else if names_command(argv, "vars"@) {
        Builtin::Vars
    } else if argv.len() == 3 && is_word(argv[0]) && argv[1] is Assign && is_word(argv[2]) {
        Builtin::Assign
    } else {
        Builtin::External
    }
}

/// Whether the token is a word.
fn is_word_token(token: &Token) -> (b: bool)
    ensures
        b == is_word(token@),
{
    match token {
        Token::Word(_) => true,
        Token::Quoted(_) => true,
        _ => false,
    }
}

/// Whether the token is `=`.
fn is_assign_token(token: &Token) -> (b: bool)
    ensures
        b == (token@ is Assign),
{
    match token {
        Token::Assign => true,
        _ => false,
    }
}

/// The text of a word token.
fn text_of_word(token: &Token) -> (text: String)
    requires
        is_word(token@),
    ensures
        text@ == word_text(token@),
{
    match token {
        Token::Word(text) => text.clone(),
        Token::Quoted(text) => text.clone(),
        _ => String::new(),
    }
}

/// Tells which command of the shell the tokens of a line ask for.
pub fn builtin_cmd(argv: &Vec<Token>) -> (builtin: Builtin)
    ensures
        builtin == builtin_of(tokens_view(argv@)),
{
    let ghost tv = tokens_view(argv@);
    if argv.len() == 0 {
        return Builtin::Nothing;
    }
    assert(tv[0] == argv@[0]@);
    match &argv[0] {
        Token::Word(name) => {
            let name = name.as_str();
            if same_text(name, "quit") || same_text(name, "exit") {
                return Builtin::Quit;
            } else if same_text(name, "jobs") {
                return Builtin::Jobs;
            } else if same_text(name, "fg") {
                return Builtin::Fg;
            } else if same_text(name, "bg") {
                return Builtin::Bg;
            } else if same_text(name, "cd") {
                return Builtin::Cd;
            } else if same_text(name, "alias") {
                return Builtin::Alias;
            } else if same_text(name, "export") {
                return Builtin::Export;
            } else if same_text(name, "vars") {
                return Builtin::Vars;
            }
        },
        _ => {},
    }
    if argv.len() == 3 {
        assert(tv[1] == argv@[1]@);
        assert(tv[2] == argv@[2]@);
        if is_word_token(&argv[0]) && is_assign_token(&argv[1]) && is_word_token(&argv[2]) {
            return Builtin::Assign;
        }
    }
    Builtin::External
}

/// A name and the value that it is given.
#[derive(Debug, Clone, PartialEq, Eq)]
pub struct Assignment {
    pub name: String,
    pub value: String,
}

/// The assignment that the three tokens `NAME = value` make.
pub open spec fn assignment_of(argv: Seq<TokenView>) -> Option<(Seq<char>, Seq<char>)> {
    if argv.len() == 3 && is_word(argv[0]) && argv[1] is Assign && is_word(argv[2]) {
        Some((word_text(argv[0]), word_text(argv[2])))
    } else {
        None
    }
}

/// The view of an optional assignment.
pub open spec fn assignment_view(a: Option<Assignment>) -> Option<(Seq<char>, Seq<char>)> {
    match a {
        Some(a) => Some((a.name@, a.value@)),
        None => None,
    }
}

/// Reads the line `NAME = value`, which sets a shell variable.
pub fn variable(argv: &Vec<Token>) -> (assignment: Option<Assignment>)
    ensures
        assignment_view(assignment) == assignment_of(tokens_view(argv@)),
{
    let ghost tv = tokens_view(argv@);
    if argv.len() != 3 {
        return None;
    }
    assert(tv[0] == argv@[0]@);
    assert(tv[1] == argv@[1]@);
    assert(tv[2] == argv@[2]@);
    if is_word_token(&argv[0]) && is_assign_token(&argv[1]) && is_word_token(&argv[2]) {
        Some(Assignment { name: text_of_word(&argv[0]), value: text_of_word(&argv[2]) })
    } else {
        None
    }
}

/// Why an `alias` or `export` line defines nothing.
#[derive(Clone, Copy, Debug, PartialEq, Eq, Structural)]
pub enum DefineError {
    /// The line is shorter than `command NAME = value`.
    NotEnoughArguments,
    /// The token after the name is not `=`.
    MissingEqualSign,
    /// The name or the value is not a word.
    NotAWord,
}

/// What holds of the tokens `command NAME = value`, where `command` is
/// the first token whatever it is: the name and the value, or what is
/// wrong with the line.
pub open spec fn definition_of(argv: Seq<TokenView>) -> Result<(Seq<char>, Seq<char>), DefineError> {
    if argv.len() < 4 {
        Err(DefineError::NotEnoughArguments)
    } else if !(argv[2] is Assign) {
        Err(DefineError::MissingEqualSign)
    } else if !is_word(argv[1]) || !is_word(argv[3]) {
        Err(DefineError::NotAWord)
    } else {
        Ok((word_text(argv[1]), word_text(argv[3])))
    }
}

/// Reads the name and the value off the tokens `command NAME = value`.
fn definition(argv: &Vec<Token>) -> (res: Result<Assignment, DefineError>)
    ensures
        match definition_of(tokens_view(argv@)) {
            Ok((name, value)) => res matches Ok(a) && a.name@ == name && a.value@ == value,
            Err(e) => res matches Err(f) && e == f,
        },
{
    let ghost tv = tokens_view(argv@);
    if argv.len() < 4 {
        return Err(DefineError::NotEnoughArguments);
    }
    assert(tv[1] == argv@[1]@);
    assert(tv[2] == argv@[2]@);
    assert(tv[3] == argv@[3]@);
    if !is_assign_token(&argv[2]) {
        return Err(DefineError::MissingEqualSign);
    }
    if !is_word_token(&argv[1]) || !is_word_token(&argv[3]) {
        return Err(DefineError::NotAWord);
    }
    Ok(Assignment { name: text_of_word(&argv[1]), value: text_of_word(&argv[3]) })
}

/// Reads the line `export NAME = value`, which sets a variable of the
/// environment.
pub fn export(argv: &Vec<Token>) -> (res: Result<Assignment, DefineError>)
    ensures
        match definition_of(tokens_view(argv@)) {
            Ok((name, value)) => res matches Ok(a) && a.name@ == name && a.value@ == value,
            Err(e) => res matches Err(f) && e == f,
        },
{
    definition(argv)
}

/// What an `alias` line asks for.
#[derive(Debug, Clone, PartialEq, Eq)]
pub enum AliasRequest {
    /// `alias` alone: list the aliases.
    List,
    /// `alias NAME = value`: let `name` stand for `program` with `args`,
    /// the pieces of the value between its spaces.
    Define { name: String, program: String, args: Vec<String> },
}

/// Reads an `alias` line. The value of a definition is cut at its spaces:
/// the first piece is the program, the others are its fixed arguments.
pub fn alias(argv: &Vec<Token>) -> (res: Result<AliasRequest, DefineError>)
    ensures
        argv@.len() == 1 ==> res matches Ok(AliasRequest::List),
        argv@.len() != 1 ==> match definition_of(tokens_view(argv@)) {
            Ok((name, value)) => res matches Ok(AliasRequest::Define { name: n, program, args }) && n@ == name
                && program@ == split_spaces(value)[0] && crate::text::texts(args@) == split_spaces(value).skip(1),
            Err(e) => res matches Err(f) && e == f,
        },
{
    if argv.len() == 1 {
        return Ok(AliasRequest::List);
    }
    match definition(argv) {
        Ok(assignment) => {
            proof {
                crate::text::lemma_split_spaces(assignment.value@);
            }
            let mut words = split_words(&chars_of(assignment.value.as_str()));
            let ghost all = crate::text::texts(words@);
            assert(words@.len() == all.len());
            let program = words.remove(0);
            assert(crate::text::texts(words@) =~= all.skip(1));
            Ok(AliasRequest::Define { name: assignment.name, program, args: words })
        },
        Err(e) => Err(e),
    }
}

/// What the shell prints for a `fg` or `bg` request that changed nothing,
/// where `command` is the request's first word.
pub open spec fn bgfg_message(error: BgFgError, command: Seq<char>) -> Seq<char> {
    match error {
        BgFgError::NotJobControl => command + ": not a job control command"@,
        BgFgError::MissingArgument => command + " command requires PID or %jobid argument"@,
        BgFgError::BadArgument => command + ": argument must be a PID or %jobid"@,
        BgFgError::NoSuchJob(jid) => "%"@ + decimal(jid as nat) + ": No such job"@,
        BgFgError::NoSuchProcess(pid) => "("@ + decimal(pid as nat) + "): No such process"@,
    }
}

/// Builds the line to print for a `fg` or `bg` request that changed
/// nothing.
pub fn bgfg_error_text(error: BgFgError, command: &str) -> (text: String)
    ensures
        text@ == bgfg_message(error, command@),
{
    let mut text = String::new();
    match error {
        BgFgError::NotJobControl => {
            push_text(&mut text, command);
            push_text(&mut text, ": not a job control command");
        },
        BgFgError::MissingArgument => {
            push_text(&mut text, command);
            push_text(&mut text, " command requires PID or %jobid argument");
        },
        BgFgError::BadArgument => {
            push_text(&mut text, command);
            push_text(&mut text, ": argument must be a PID or %jobid");
        },
        BgFgError::NoSuchJob(jid) => {
            push_text(&mut text, "%");
            push_decimal(&mut text, jid as u64);
            push_text(&mut text, ": No such job");
        },
        BgFgError::NoSuchProcess(pid) => {
            push_text(&mut text, "(");
            push_decimal(&mut text, pid as u64);
            push_text(&mut text, "): No such process");
        },
    }
    assert(text@ =~= bgfg_message(error, command@));
    text
}

} // verus!
