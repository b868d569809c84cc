//! The pipeline compiler: tokens become groups of stages.

use crate::store::{Aliases, Binding, Variables};
use crate::text::{chars_of, split_spaces, split_words, string_of, texts};
use crate::token::{CompileError, Token, TokenView};
use vstd::prelude::*;

verus! {

/// Where a stage reads its standard input from.
#[derive(Debug, Clone, PartialEq, Eq)]
pub enum Source {
    /// The shell's own standard input.
    Inherit,
    /// The standard output of the stage before.
    Pipe,
    /// The file at this path.
    File(String),
}

/// Where a stage writes its standard output to.
#[derive(Debug, Clone, PartialEq, Eq)]
pub enum Sink {
    /// The shell's own standard output.
    Inherit,
    /// The standard input of the next stage.
    Pipe,
    /// The file at `path`, written from its start or, with `append`, from
    /// its end.
    File { path: String, append: bool },
}

/// One program invocation within a pipeline.
#[derive(Debug, Clone, PartialEq, Eq)]
pub struct Stage {
    pub program: String,
    pub argv: Vec<String>,
    pub stdin: Source,
    pub stdout: Sink,
}

/// When a group is launched, by the exit status of the group before it.
#[derive(Debug, Clone, Copy, PartialEq, Eq, Structural)]
pub enum Condition {
    /// The first group of a line: always.
    Always,
    /// After `&&`: when the status is zero.
    IfZero,
    /// After `||`: when the status is not zero.
    IfNonZero,
}

/// The stages of one pipeline, launched as one job.
#[derive(Debug, Clone, PartialEq, Eq)]
pub struct Group {
    pub condition: Condition,
    pub stages: Vec<Stage>,
}

/// A compiled line: its groups in order, and the environment assignments
/// that its processes are started with.
#[derive(Debug)]
pub struct CommandLine {
    pub groups: Vec<Group>,
    pub env: Vec<Binding>,
}

pub enum SourceView {
    Inherit,
    Pipe,
    File(Seq<char>),
}

pub enum SinkView {
    Inherit,
    Pipe,
    File { path: Seq<char>, append: bool },
}

pub struct StageView {
    pub program: Seq<char>,
    pub argv: Seq<Seq<char>>,
    pub stdin: SourceView,
    pub stdout: SinkView,
}

pub struct GroupView {
    pub condition: Condition,
    pub stages: Seq<StageView>,
}

pub struct CommandLineView {
    pub groups: Seq<GroupView>,
    pub env: Seq<(Seq<char>, Seq<char>)>,
}

impl View for Source {
    type V = SourceView;

    open spec fn view(&self) -> SourceView {
        match self {
            Source::Inherit => SourceView::Inherit,
            Source::Pipe => SourceView::Pipe,
            Source::File(path) => SourceView::File(path@),
        }
    }
}

impl View for Sink {
    type V = SinkView;

    open spec fn view(&self) -> SinkView {
        match self {
            Sink::Inherit => SinkView::Inherit,
            Sink::Pipe => SinkView::Pipe,
            Sink::File { path, append } => SinkView::File { path: path@, append: *append },
        }
    }
}

impl View for Stage {
    type V = StageView;

    open spec fn view(&self) -> StageView {
        StageView { program: self.program@, argv: texts(self.argv@), stdin: self.stdin@, stdout: self.stdout@ }
    }
}

/// The views of a sequence of stages.
pub open spec fn stages_view(stages: Seq<Stage>) -> Seq<StageView> {
    stages.map_values(|s: Stage| s@)
}

impl View for Group {
    type V = GroupView;

    open spec fn view(&self) -> GroupView {
        GroupView { condition: self.condition, stages: stages_view(self.stages@) }
    }
}

/// The views of a sequence of groups.
pub open spec fn groups_view(groups: Seq<Group>) -> Seq<GroupView> {
    groups.map_values(|g: Group| g@)
}

/// The names and values of a sequence of bindings.
pub open spec fn env_view(env: Seq<Binding>) -> Seq<(Seq<char>, Seq<char>)> {
    env.map_values(|b: Binding| (b.name@, b.value@))
}

impl View for CommandLine {
    type V = CommandLineView;

    open spec fn view(&self) -> CommandLineView {
        CommandLineView { groups: groups_view(self.groups@), env: env_view(self.env@) }
    }
}

/// What the compiler looks names up in.
pub struct Lookups {
    pub aliases: Map<Seq<char>, (Seq<char>, Seq<Seq<char>>)>,
    pub environment: Map<Seq<char>, Seq<char>>,
    pub variables: Map<Seq<char>, Seq<char>>,
}

/// The token is a word: bare or quoted.
pub open spec fn is_word(t: TokenView) -> bool {
    t is Word || t is Quoted
}

/// The characters of a word.
pub open spec fn word_text(t: TokenView) -> Seq<char> {
    match t {
        TokenView::Word(text) => text,
        TokenView::Quoted(text) => text,
        _ => Seq::<char>::empty(),
    }
}

/// The token is `<`, `>` or `>>`.
pub open spec fn is_redirection(t: TokenView) -> bool {
    t is Less || t is Greater || t is Append
}

/// Some redirection operator is not followed by a word to name the file.
pub open spec fn dangling(tokens: Seq<TokenView>) -> bool {
    exists|i: int|
        0 <= i < tokens.len() && is_redirection(#[trigger] tokens[i]) && !(i + 1 < tokens.len() && is_word(
            tokens[i + 1],
        ))
}

/// The value that `$NAME` stands for, where `word` has that form and the
/// name has a value: the one of the environment, else the one of the
/// shell variables.
pub open spec fn value_of(word: Seq<char>, names: Lookups) -> Option<Seq<char>> {
    if word.len() > 0 && word[0] == '$' {
        let name = word.skip(1);
        if names.environment.contains_key(name) {
            Some(names.environment[name])
        } else if names.variables.contains_key(name) {
            Some(names.variables[name])
        } else {
            None
        }
    } else {
        None
    }
}

/// The words that a word token stands for: a quoted literal stands for
/// itself; a bare `$NAME` whose name has a value stands for the pieces of
/// the value between its spaces; any other bare word stands for itself.
pub open spec fn expand(t: TokenView, names: Lookups) -> Seq<Seq<char>> {
    match t {
        TokenView::Word(text) => match value_of(text, names) {
            Some(value) => split_spaces(value),
            None => seq![text],
        },
        _ => seq![word_text(t)],
    }
}

/// The state of the compiler between two tokens.
pub struct Draft {
    /// The groups that are complete.
    pub groups: Seq<GroupView>,
    /// The condition of the group under construction.
    pub condition: Condition,
    /// The complete stages of the group under construction.
    pub stages: Seq<StageView>,
    /// The stage under construction.
    pub stage: StageView,
    pub env: Seq<(Seq<char>, Seq<char>)>,
}

/// A stage without a program, reading from `stdin`.
pub open spec fn empty_stage(stdin: SourceView) -> StageView {
    StageView { program: Seq::empty(), argv: Seq::empty(), stdin, stdout: SinkView::Inherit }
}

/// The state before the first token.
pub open spec fn first_draft() -> Draft {
    Draft {
        groups: Seq::empty(),
        condition: Condition::Always,
        stages: Seq::empty(),
        stage: empty_stage(SourceView::Inherit),
        env: Seq::empty(),
    }
}

/// The token at `i` is a name that an assignment gives a value to: a bare
/// word, then `=`, then a word.
pub open spec fn assigns(tokens: Seq<TokenView>, i: int) -> bool {
    &&& i + 2 < tokens.len()
    &&& tokens[i] is Word
    &&& tokens[i + 1] is Assign
    &&& is_word(tokens[i + 2])
}

/// The stage with the word token `t` taken in: as its program while it has
/// none, as further arguments after that. Only a bare first word is looked
/// up among the aliases.
pub open spec fn with_word(stage: StageView, t: TokenView, names: Lookups) -> StageView {
    if stage.program.len() == 0 {
        if t is Word && names.aliases.contains_key(word_text(t)) {
            let alias = names.aliases[word_text(t)];
            StageView { program: alias.0, argv: alias.1, ..stage }
        } else {
            let words = expand(t, names);
            StageView { program: words[0], argv: stage.argv + words.skip(1), ..stage }
        }
    } else {
        StageView { argv: stage.argv + expand(t, names), ..stage }
    }
}

/// The group under construction, closed with the stage under construction
/// as its last.
pub open spec fn closed_group(d: Draft) -> GroupView {
    GroupView { condition: d.condition, stages: d.stages.push(d.stage) }
}

/// The state after the token at `i` and the tokens that it takes with it,
/// and the position of the next token.
pub open spec fn accept(d: Draft, tokens: Seq<TokenView>, i: int, names: Lookups) -> (Draft, int) {
    let t = tokens[i];
    let next_is_word = i + 1 < tokens.len() && is_word(tokens[i + 1]);
    match t {
        TokenView::Word(_) | TokenView::Quoted(_) => {
            if d.stage.program.len() == 0 && assigns(tokens, i) {
                (Draft { env: d.env.push((word_text(t), word_text(tokens[i + 2]))), ..d }, i + 3)
            } else {
                (Draft { stage: with_word(d.stage, t, names), ..d }, i + 1)
            }
        },
        TokenView::Pipe => (
            Draft {
                stages: d.stages.push(StageView { stdout: SinkView::Pipe, ..d.stage }),
                stage: empty_stage(SourceView::Pipe),
                ..d
            },
            i + 1,
        ),
        TokenView::Less => if next_is_word {
            (Draft { stage: StageView { stdin: SourceView::File(word_text(tokens[i + 1])), ..d.stage }, ..d }, i + 2)
        } else {
            (d, i + 1)
        },
        TokenView::Greater => if next_is_word {
            (
                Draft {
                    stage: StageView {
                        stdout: SinkView::File { path: word_text(tokens[i + 1]), append: false },
                        ..d.stage
                    },
                    ..d
                },
                i + 2,
            )
        } else {
            (d, i + 1)
        },
        TokenView::Append => if next_is_word {
            (
                Draft {
                    stage: StageView {
                        stdout: SinkView::File { path: word_text(tokens[i + 1]), append: true },
                        ..d.stage
                    },
                    ..d
                },
                i + 2,
            )
        } else {
            (d, i + 1)
        },
        TokenView::And => (
            Draft {
                groups: d.groups.push(closed_group(d)),
                condition: Condition::IfZero,
                stages: Seq::empty(),
                stage: empty_stage(SourceView::Inherit),
                ..d
            },
            i + 1,
        ),
        TokenView::Or => (
            Draft {
                groups: d.groups.push(closed_group(d)),
                condition: Condition::IfNonZero,
                stages: Seq::empty(),
                stage: empty_stage(SourceView::Inherit),
                ..d
            },
            i + 1,
        ),
        TokenView::Assign => (d, if next_is_word {
            i + 2
        } else {
            i + 1
        }),
    }
}

/// The line that the state `d` before the token at `i` leads to.
pub open spec fn compile_from(d: Draft, tokens: Seq<TokenView>, i: int, names: Lookups) -> CommandLineView
    decreases tokens.len() - i,
{
    if 0 <= i < tokens.len() {
        let (after, next) = accept(d, tokens, i, names);
        compile_from(after, tokens, next, names)
    } else {
        CommandLineView { groups: d.groups.push(closed_group(d)), env: d.env }
    }
}

/// The compiled line of a token sequence, or the error that it has.
///
/// No tokens give no group. Otherwise the tokens are taken in from left to
/// right:
/// - a bare word followed by `=` and a word, before its stage has a
///   program, is an environment assignment;
/// - any other word is the program of its stage or one of its arguments,
///   as `with_word` says;
/// - `|` ends the stage, whose output feeds the next one;
/// - `<`, `>` and `>>` take the next word as the file that the stage reads
///   or writes;
/// - `&&` and `||` end the group and give the next one its condition;
/// - `=` anywhere else is dropped, with the word behind it.
pub open spec fn compile(tokens: Seq<TokenView>, names: Lookups) -> Result<CommandLineView, CompileError> {
    if dangling(tokens) {
        Err(CompileError::DanglingRedirection)
    } else if tokens.len() == 0 {
        Ok(CommandLineView { groups: Seq::empty(), env: Seq::empty() })
    } else {
        Ok(compile_from(first_draft(), tokens, 0, names))
    }
}

/// The stages of a group are piped one into the next: the group has a
/// stage, each stage but the last writes into a pipe and the last does
/// not, and only a stage with one before it reads from a pipe.
pub open spec fn group_wf(g: GroupView) -> bool {
    &&& g.stages.len() >= 1
    &&& forall|k: int|
        0 <= k < g.stages.len() ==> ((#[trigger] g.stages[k]).stdout is Pipe <==> k + 1 < g.stages.len())
    &&& forall|k: int| 0 <= k < g.stages.len() && (#[trigger] g.stages[k]).stdin is Pipe ==> k > 0
}

/// Every group of the line is well formed, and the first group is the one
/// that is launched whatever the status.
pub open spec fn line_wf(line: CommandLineView) -> bool {
    forall|g: int|
        0 <= g < line.groups.len() ==> group_wf(#[trigger] line.groups[g]) && (line.groups[g].condition is Always
            <==> g == 0)
}

/// What holds of the compiler's state between any two tokens.
pub open spec fn draft_wf(d: Draft) -> bool {
    &&& forall|g: int|
        0 <= g < d.groups.len() ==> group_wf(#[trigger] d.groups[g]) && (d.groups[g].condition is Always <==> g == 0)
    &&& d.condition is Always <==> d.groups.len() == 0
    &&& forall|k: int| 0 <= k < d.stages.len() ==> (#[trigger] d.stages[k]).stdout is Pipe
    &&& forall|k: int| 0 <= k < d.stages.len() && (#[trigger] d.stages[k]).stdin is Pipe ==> k > 0
    &&& !(d.stage.stdout is Pipe)
    &&& d.stage.stdin is Pipe ==> d.stages.len() > 0
}

/// Closing the group under construction gives a well-formed group.
pub proof fn lemma_closed_group_wf(d: Draft)
    requires
        draft_wf(d),
    ensures
        group_wf(closed_group(d)),
{
    let g = closed_group(d);
    assert forall|k: int| 0 <= k < g.stages.len() implies ((#[trigger] g.stages[k]).stdout is Pipe <==> k + 1
        < g.stages.len()) by {
        if k < d.stages.len() {
            assert(g.stages[k] == d.stages[k]);
        }
    }
    assert forall|k: int| 0 <= k < g.stages.len() && (#[trigger] g.stages[k]).stdin is Pipe implies k > 0 by {
        if k < d.stages.len() {
            assert(g.stages[k] == d.stages[k]);
        }
    }
}

/// Taking a token in keeps the compiler's state well formed.
pub proof fn lemma_accept_wf(d: Draft, tokens: Seq<TokenView>, i: int, names: Lookups)
    requires
        draft_wf(d),
        0 <= i < tokens.len(),
    ensures
        draft_wf(accept(d, tokens, i, names).0),
        i < accept(d, tokens, i, names).1 <= tokens.len(),
{
    let after = accept(d, tokens, i, names).0;
    match tokens[i] {
        TokenView::Pipe => {
            assert forall|k: int| 0 <= k < after.stages.len() implies (#[trigger] after.stages[k]).stdout is Pipe by {
                if k < d.stages.len() {
                    assert(after.stages[k] == d.stages[k]);
                }
            }
            assert forall|k: int| 0 <= k < after.stages.len() && (#[trigger] after.stages[k]).stdin is Pipe implies k
                > 0 by {
                if k < d.stages.len() {
                    assert(after.stages[k] == d.stages[k]);
                }
            }
        },
        TokenView::And | TokenView::Or => {
            lemma_closed_group_wf(d);
            assert forall|g: int| 0 <= g < after.groups.len() implies group_wf(#[trigger] after.groups[g]) && (
            after.groups[g].condition is Always <==> g == 0) by {
                if g < d.groups.len() {
                    assert(after.groups[g] == d.groups[g]);
                }
            }
        },
        _ => {},
    }
}

/// Whatever state the compiler is in, if it is well formed then so is the
/// line that it leads to.
pub proof fn lemma_compile_from_wf(d: Draft, tokens: Seq<TokenView>, i: int, names: Lookups)
    requires
        draft_wf(d),
    ensures
        line_wf(compile_from(d, tokens, i, names)),
    decreases tokens.len() - i,
{
    if 0 <= i < tokens.len() {
        lemma_accept_wf(d, tokens, i, names);
        let (after, next) = accept(d, tokens, i, names);
        lemma_compile_from_wf(after, tokens, next, names);
    } else {
        lemma_closed_group_wf(d);
        let line = compile_from(d, tokens, i, names);
        assert forall|g: int| 0 <= g < line.groups.len() implies group_wf(#[trigger] line.groups[g]) && (
        line.groups[g].condition is Always <==> g == 0) by {
            if g < d.groups.len() {
                assert(line.groups[g] == d.groups[g]);
            }
        }
    }
}

/// Every line that compiles is well formed: in each group the stages are
/// piped one into the next, and only the first group is unconditional.
pub proof fn lemma_compile_wf(tokens: Seq<TokenView>, names: Lookups)
    ensures
        compile(tokens, names) matches Ok(line) ==> line_wf(line),
        tokens.len() == 0 ==> (compile(tokens, names) matches Ok(line) && line.groups.len() == 0),
{
    if !dangling(tokens) && tokens.len() > 0 {
        lemma_compile_from_wf(first_draft(), tokens, 0, names);
    }
}

/// The number of `&&` and `||` among the tokens from position `i` on.
pub open spec fn chain_operators(tokens: Seq<TokenView>, i: int) -> int
    decreases tokens.len() - i,
{
    if 0 <= i < tokens.len() {
        (if tokens[i] is And || tokens[i] is Or {
            1int
        } else {
            0int
        }) + chain_operators(tokens, i + 1)
    } else {
        0
    }
}

/// From any state the compiler adds one group for the group under
/// construction and one for each `&&` and `||` that is still to come.
pub proof fn lemma_group_count_from(d: Draft, tokens: Seq<TokenView>, i: int, names: Lookups)
    requires
        0 <= i,
    ensures
        compile_from(d, tokens, i, names).groups.len() == d.groups.len() + 1 + chain_operators(tokens, i),
    decreases tokens.len() - i,
{
    if i < tokens.len() {
        let (after, next) = accept(d, tokens, i, names);
        lemma_group_count_from(after, tokens, next, names);
        if next >= i + 2 {
            assert(chain_operators(tokens, i + 1) == chain_operators(tokens, i + 2));
        }
        if next == i + 3 {
            assert(chain_operators(tokens, i + 2) == chain_operators(tokens, i + 3));
        }
    }
}

/// A line with tokens compiles to one group more than it has `&&` and
/// `||`.
pub proof fn lemma_group_count(tokens: Seq<TokenView>, names: Lookups)
    ensures
        tokens.len() > 0 ==> (compile(tokens, names) matches Ok(line) ==> line.groups.len() == 1 + chain_operators(
            tokens,
            0,
        )),
{
    lemma_group_count_from(first_draft(), tokens, 0, names);
}

/// The lookups that three stores stand for.
pub open spec fn lookups_of(aliases: &Aliases, variables: &Variables, environment: &Variables) -> Lookups {
    Lookups { aliases: aliases@, environment: environment@, variables: variables@ }
}

/// The compiler's state, from the values that the compiler holds.
pub open spec fn draft_of(
    groups: Seq<Group>,
    condition: Condition,
    stages: Seq<Stage>,
    stage: Stage,
    env: Seq<Binding>,
) -> Draft {
    Draft {
        groups: groups_view(groups),
        condition,
        stages: stages_view(stages),
        stage: stage@,
        env: env_view(env),
    }
}

/// A copy of `words`.
fn copy_words(words: &Vec<String>) -> (copy: Vec<String>)
    ensures
        texts(copy@) == texts(words@),
{
    let mut copy: Vec<String> = Vec::new();
    let mut i: usize = 0;
    while i < words.len()
        invariant
            i <= words@.len(),
            texts(copy@) == texts(words@).take(i as int),
        decreases words@.len() - i,
    {
        let word = words[i].clone();
        let ghost before = texts(copy@);
        copy.push(word);
        assert(texts(copy@) =~= before.push(word@));
        i += 1;
        assert(texts(copy@) =~= texts(words@).take(i as int));
    }
    assert(texts(words@).take(i as int) =~= texts(words@));
    copy
}

/// The words that a word token stands for.
fn expand_token(token: &Token, variables: &Variables, environment: &Variables, Ghost(names): Ghost<Lookups>) -> (words:
    Vec<String>)
    requires
        is_word(token@),
        names.environment == environment@,
        names.variables == variables@,
    ensures
        texts(words@) == expand(token@, names),
        words@.len() >= 1,
{
    let mut words: Vec<String> = Vec::new();
    match token {
        Token::Word(text) => {
            let chars = chars_of(text.as_str());
            if chars.len() > 0 && chars[0] == '$' {
                let name = string_of(&chars, 1, chars.len());
                assert(name@ =~= text@.skip(1));
                let value = match environment.lookup(name.as_str()) {
                    Some(v) => Some(v),
                    None => variables.lookup(name.as_str()),
                };
                match value {
                    Some(v) => {
                        proof {
                            crate::text::lemma_split_spaces(v@);
                        }
                        let pieces = split_words(&chars_of(v.as_str()));
                        assert(pieces@.len() == texts(pieces@).len());
                        return pieces;
                    },
                    None => {},
                }
            }
            words.push(text.clone());
            assert(texts(words@) =~= seq![text@]);
        },
        Token::Quoted(text) => {
            words.push(text.clone());
            assert(texts(words@) =~= seq![text@]);
        },
        _ => {
            assert(false);
        },
    }
    words
}

/// Takes a word token into the stage: as its program while it has none, as
/// further arguments after that.
fn take_word(stage: &mut Stage, token: &Token, aliases: &Aliases, variables: &Variables, environment: &Variables)
    requires
        is_word(token@),
    ensures
        final(stage)@ == with_word(old(stage)@, token@, lookups_of(aliases, variables, environment)),
{
    let ghost names = lookups_of(aliases, variables, environment);
    if stage.program.as_str().is_empty() {
        if let Token::Word(text) = token {
            if let Some(alias) = aliases.lookup(text.as_str()) {
                stage.program = alias.program.clone();
                stage.argv = copy_words(&alias.args);
                return ;
            }
        }
        let mut words = expand_token(token, variables, environment, Ghost(names));
        let ghost all = texts(words@);
        let program = words.remove(0);
        assert(texts(words@) =~= all.skip(1));
        stage.program = program;
        let ghost before = texts(stage.argv@);
        stage.argv.append(&mut words);
        assert(texts(stage.argv@) =~= before + all.skip(1));
    } else {
        let mut words = expand_token(token, variables, environment, Ghost(names));
        let ghost all = texts(words@);
        let ghost before = texts(stage.argv@);
        stage.argv.append(&mut words);
        assert(texts(stage.argv@) =~= before + all);
    }
}

/// The text of a word token.
fn word_of(token: &Token) -> (text: String)
    requires
        is_word(token@),
    ensures
        text@ == word_text(token@),
{
    match token {
        Token::Word(text) => text.clone(),
        Token::Quoted(text) => text.clone(),
        _ => String::new(),
    }
}

/// Whether the token is a word.
fn token_is_word(token: &Token) -> (b: bool)
    ensures
        b == is_word(token@),
{
    match token {
        Token::Word(_) => true,
        Token::Quoted(_) => true,
        _ => false,
    }
}

/// A stage without a program, reading from `stdin`.
fn new_stage(stdin: Source) -> (stage: Stage)
    ensures
        stage@ == empty_stage(stdin@),
{
    let stage = Stage { program: String::new(), argv: Vec::new(), stdin, stdout: Sink::Inherit };
    assert(texts(stage.argv@) =~= Seq::empty());
    assert(stage.program@ =~= Seq::empty());
    stage
}

/// Compiles the tokens of a line into its groups of stages and its
/// environment assignments. Fails where a redirection operator has no file
/// name behind it.
pub fn parseargs(argv: &Vec<Token>, aliases: &Aliases, variables: &Variables, environment: &Variables) -> (res:
    Result<CommandLine, CompileError>)
    ensures
        match compile(crate::token::tokens_view(argv@), lookups_of(aliases, variables, environment)) {
            Ok(line) => res matches Ok(compiled) && compiled@ == line,
            Err(e) => res == Err::<CommandLine, CompileError>(e),
        },
        res matches Ok(compiled) ==> line_wf(compiled@),
{
    proof {
        lemma_compile_wf(crate::token::tokens_view(argv@), lookups_of(aliases, variables, environment));
    }
    let ghost names = lookups_of(aliases, variables, environment);
    let ghost tv = crate::token::tokens_view(argv@);
    let n = argv.len();
    let mut groups: Vec<Group> = Vec::new();
    let mut env: Vec<Binding> = Vec::new();
    if n == 0 {
        assert(groups_view(groups@) =~= Seq::empty());
        assert(env_view(env@) =~= Seq::empty());
        return Ok(CommandLine { groups, env });
    }
    let mut condition = Condition::Always;
    let mut stages: Vec<Stage> = Vec::new();
    let mut stage = new_stage(Source::Inherit);
    let mut i: usize = 0;
    assert(draft_of(groups@, condition, stages@, stage, env@) =~= first_draft()) by {
        assert(groups_view(groups@) =~= Seq::empty());
        assert(stages_view(stages@) =~= Seq::empty());
        assert(env_view(env@) =~= Seq::empty());
    }
    while i < n
        invariant
            i <= n,
            n == argv@.len(),
            tv == crate::token::tokens_view(argv@),
            names == lookups_of(aliases, variables, environment),
            forall|k: int| 0 <= k < i && is_redirection(#[trigger] tv[k]) ==> k + 1 < n && is_word(tv[k + 1]),
            compile_from(first_draft(), tv, 0, names) == compile_from(
                draft_of(groups@, condition, stages@, stage, env@),
                tv,
                i as int,
                names,
            ),
        decreases n - i,
    {
        let ghost d = draft_of(groups@, condition, stages@, stage, env@);
        let ghost old_groups = groups_view(groups@);
        let ghost old_stages = stages_view(stages@);
        let ghost old_env = env_view(env@);
        let next_is_word = n - i > 1 && token_is_word(&argv[i + 1]);
        assert(tv[i as int] == argv@[i as int]@);
        let mut width: usize = 1;
        match &argv[i] {
            Token::Word(_) | Token::Quoted(_) => {
                let named = match &argv[i] {
                    Token::Word(_) => true,
                    _ => false,
                };
                let assign_follows = n - i > 2 && match &argv[i + 1] {
                    Token::Assign => true,
                    _ => false,
                };
                if named && assign_follows && token_is_word(&argv[i + 2]) && stage.program.as_str().is_empty() {
                    let binding = Binding { name: word_of(&argv[i]), value: word_of(&argv[i + 2]) };
                    env.push(binding);
                    assert(env_view(env@) =~= old_env.push((word_text(tv[i as int]), word_text(tv[i + 2]))));
                    width = 3;
                } else {
                    take_word(&mut stage, &argv[i], aliases, variables, environment);
                }
            },
            Token::Pipe => {
                stage.stdout = Sink::Pipe;
                stages.push(stage);
                stage = new_stage(Source::Pipe);
                assert(stages_view(stages@) =~= old_stages.push(StageView { stdout: SinkView::Pipe, ..d.stage }));
            },
            Token::Less => {
                if !next_is_word {
                    return Err(CompileError::DanglingRedirection);
                }
                stage.stdin = Source::File(word_of(&argv[i + 1]));
                width = 2;
            },
            Token::Greater => {
                if !next_is_word {
                    return Err(CompileError::DanglingRedirection);
                }
                stage.stdout = Sink::File { path: word_of(&argv[i + 1]), append: false };
                width = 2;
            },
            Token::Append => {
                if !next_is_word {
                    return Err(CompileError::DanglingRedirection);
                }
                stage.stdout = Sink::File { path: word_of(&argv[i + 1]), append: true };
                width = 2;
            },
            Token::And => {
                stages.push(stage);
                assert(stages_view(stages@) =~= old_stages.push(d.stage));
                groups.push(Group { condition, stages });
                assert(groups_view(groups@) =~= old_groups.push(closed_group(d)));
                condition = Condition::IfZero;
                stages = Vec::new();
                stage = new_stage(Source::Inherit);
                assert(stages_view(stages@) =~= Seq::empty());
            },
            Token::Or => {
                stages.push(stage);
                assert(stages_view(stages@) =~= old_stages.push(d.stage));
                groups.push(Group { condition, stages });
                assert(groups_view(groups@) =~= old_groups.push(closed_group(d)));
                condition = Condition::IfNonZero;
                stages = Vec::new();
                stage = new_stage(Source::Inherit);
                assert(stages_view(stages@) =~= Seq::empty());
            },
            Token::Assign => {
                if next_is_word {
                    width = 2;
                }
            },
        }
        assert((draft_of(groups@, condition, stages@, stage, env@), i + width) == accept(d, tv, i as int, names));
        proof {
            assert forall|k: int| 0 <= k < i + width && is_redirection(#[trigger] tv[k]) implies k + 1 < n && is_word(
                tv[k + 1],
            ) by {
                assert(tv[k] == argv@[k]@);
            }
        }
        i += width;
    }
    let ghost d = draft_of(groups@, condition, stages@, stage, env@);
    let ghost old_groups = groups_view(groups@);
    let ghost old_stages = stages_view(stages@);
    stages.push(stage);
    assert(stages_view(stages@) =~= old_stages.push(d.stage));
    groups.push(Group { condition, stages });
    assert(groups_view(groups@) =~= old_groups.push(closed_group(d)));
    assert(!dangling(tv));
    Ok(CommandLine { groups, env })
}

} // verus!
