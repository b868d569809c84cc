//! The tokenizer: a raw line becomes words and operators.

use crate::text::{chars_of, string_of};
use vstd::prelude::*;

verus! {

/// One token of a command line.
#[derive(Debug, Clone, PartialEq, Eq)]
pub enum Token {
    /// A bare word.
    Word(String),
    /// A single-quoted literal, without its quotes.
    Quoted(String),
    /// `|`
    Pipe,
    /// `<`
    Less,
    /// `>`
    Greater,
    /// `>>`
    Append,
    /// `&&`
    And,
    /// `||`
    Or,
    /// `=`
    Assign,
}

/// A token as the contracts see it.
pub enum TokenView {
    Word(Seq<char>),
    Quoted(Seq<char>),
    Pipe,
    Less,
    Greater,
    Append,
    And,
    Or,
    Assign,
}

impl View for Token {
    type V = TokenView;

    open spec fn view(&self) -> TokenView {
        match self {
            Token::Word(text) => TokenView::Word(text@),
            Token::Quoted(text) => TokenView::Quoted(text@),
            Token::Pipe => TokenView::Pipe,
            Token::Less => TokenView::Less,
            Token::Greater => TokenView::Greater,
            Token::Append => TokenView::Append,
            Token::And => TokenView::And,
            Token::Or => TokenView::Or,
            Token::Assign => TokenView::Assign,
        }
    }
}

/// The views of a sequence of tokens.
pub open spec fn tokens_view(tokens: Seq<Token>) -> Seq<TokenView> {
    tokens.map_values(|t: Token| t@)
}

/// Why a line cannot be compiled.
#[derive(Debug, Clone, Copy, PartialEq, Eq, Structural)]
pub enum CompileError {
    /// A single quote opens a literal that the line does not close.
    UnterminatedQuote,
    /// `<`, `>` or `>>` is not followed by a file name.
    DanglingRedirection,
}

/// A character that separates tokens and belongs to none.
pub open spec fn is_blank(c: char) -> bool {
    c == ' ' || c == '\n'
}

/// A character that a bare word cannot hold: a blank or the start of an
/// operator.
pub open spec fn ends_word(c: char) -> bool {
    is_blank(c) || c == '|' || c == '<' || c == '>' || c == '=' || c == '&'
}

/// The length of the longest prefix of `s` that holds no character for
/// which `ends_word` is true.
pub open spec fn word_len(s: Seq<char>) -> int
    decreases s.len(),
{
    if s.len() == 0 || ends_word(s[0]) {
        0
    } else {
        1 + word_len(s.drop_first())
    }
}

/// The position of the first single quote in `s`, or the length of `s` if
/// it holds none.
pub open spec fn quote_pos(s: Seq<char>) -> int
    decreases s.len(),
{
    if s.len() == 0 || s[0] == '\'' {
        0
    } else {
        1 + quote_pos(s.drop_first())
    }
}

/// `first` in front of the tokens of the rest of the line, where the rest
/// has tokens.
pub open spec fn token_then(first: TokenView, rest: Option<Seq<TokenView>>) -> Option<Seq<TokenView>> {
    match rest {
        Some(tokens) => Some(seq![first] + tokens),
        None => None,
    }
}

/// The tokens of a line, or `None` where a quoted literal is not closed.
///
/// Blanks separate tokens. A single quote opens a literal that runs to the
/// next single quote. Of two operators that start alike the longer one is
/// taken. A single `&` yields no token. Anything else starts a word, which
/// runs up to the next blank or operator character.
pub open spec fn scan(s: Seq<char>) -> Option<Seq<TokenView>>
    decreases s.len(),
    via scan_decreases
{
    if s.len() == 0 {
        Some(Seq::<TokenView>::empty())
    } else if is_blank(s[0]) {
        scan(s.skip(1))
    } else if s[0] == '\'' {
        let n = quote_pos(s.skip(1));
        if 1 + n < s.len() {
            token_then(TokenView::Quoted(s.subrange(1, 1 + n)), scan(s.skip(n + 2)))
        } else {
            None
        }
    } else if s[0] == '|' {
        if s.len() > 1 && s[1] == '|' {
            token_then(TokenView::Or, scan(s.skip(2)))
        } else {
            token_then(TokenView::Pipe, scan(s.skip(1)))
        }
    } else if s[0] == '>' {
        if s.len() > 1 && s[1] == '>' {
            token_then(TokenView::Append, scan(s.skip(2)))
        } else {
            token_then(TokenView::Greater, scan(s.skip(1)))
        }
    } else if s[0] == '&' {
        if s.len() > 1 && s[1] == '&' {
            token_then(TokenView::And, scan(s.skip(2)))
        } else {
            scan(s.skip(1))
        }
    } else if s[0] == '<' {
        token_then(TokenView::Less, scan(s.skip(1)))
    } else if s[0] == '=' {
        token_then(TokenView::Assign, scan(s.skip(1)))
    } else {
        let n = word_len(s);
        token_then(TokenView::Word(s.take(n)), scan(s.skip(n)))
    }
}

#[via_fn]
proof fn scan_decreases(s: Seq<char>) {
    lemma_word_len_bounds(s);
    if s.len() > 0 {
        lemma_quote_pos_bounds(s.skip(1));
    }
}

/// The number of characters of `s` that are left when the blanks at its
/// end are taken off.
pub open spec fn trimmed_len(s: Seq<char>) -> int
    decreases s.len(),
{
    if s.len() > 0 && is_blank(s.last()) {
        trimmed_len(s.drop_last())
    } else {
        s.len() as int
    }
}

/// The line asks for background execution: its last character that is not
/// a blank is `&`, and no `&` stands right before it.
pub open spec fn asks_background(s: Seq<char>) -> bool {
    let n = trimmed_len(s);
    n >= 1 && s[n - 1] == '&' && !(n >= 2 && s[n - 2] == '&')
}

/// A word starts inside `s` and is not empty.
pub proof fn lemma_word_len_bounds(s: Seq<char>)
    ensures
        0 <= word_len(s) <= s.len(),
        s.len() > 0 && !ends_word(s[0]) ==> word_len(s) >= 1,
        forall|k: int| 0 <= k < word_len(s) ==> !ends_word(#[trigger] s[k]),
        word_len(s) < s.len() ==> ends_word(s[word_len(s)]),
    decreases s.len(),
{
    if s.len() > 0 && !ends_word(s[0]) {
        let t = s.drop_first();
        lemma_word_len_bounds(t);
        assert forall|k: int| 0 <= k < word_len(s) implies !ends_word(#[trigger] s[k]) by {
            if k > 0 {
                assert(s[k] == t[k - 1]);
            }
        }
        if word_len(s) < s.len() {
            assert(s[word_len(s)] == t[word_len(t)]);
        }
    }
}

/// The first single quote stands inside `s` or at its end.
pub proof fn lemma_quote_pos_bounds(s: Seq<char>)
    ensures
        0 <= quote_pos(s) <= s.len(),
    decreases s.len(),
{
    if s.len() > 0 && s[0] != '\'' {
        lemma_quote_pos_bounds(s.drop_first());
    }
}

/// Where no character before position `n` ends a word and the one at `n`
/// does, or `s` ends there, the word is `n` characters long.
pub proof fn lemma_word_len_is(s: Seq<char>, n: int)
    requires
        0 <= n <= s.len(),
        forall|k: int| 0 <= k < n ==> !ends_word(#[trigger] s[k]),
        n < s.len() ==> ends_word(s[n]),
    ensures
        word_len(s) == n,
    decreases n,
{
    if n > 0 {
        let t = s.drop_first();
        assert(!ends_word(s[0]));
        assert forall|k: int| 0 <= k < n - 1 implies !ends_word(#[trigger] t[k]) by {
            assert(t[k] == s[k + 1]);
        }
        if n < s.len() {
            assert(t[n - 1] == s[n]);
        }
        lemma_word_len_is(t, n - 1);
    }
}

/// Where no character before position `n` is a single quote and the one at
/// `n` is, or `s` ends there, `quote_pos` is `n`.
pub proof fn lemma_quote_pos_is(s: Seq<char>, n: int)
    requires
        0 <= n <= s.len(),
        forall|k: int| 0 <= k < n ==> #[trigger] s[k] != '\'',
        n < s.len() ==> s[n] == '\'',
    ensures
        quote_pos(s) == n,
    decreases n,
{
    if n > 0 {
        let t = s.drop_first();
        assert(s[0] != '\'');
        assert forall|k: int| 0 <= k < n - 1 implies #[trigger] t[k] != '\'' by {
            assert(t[k] == s[k + 1]);
        }
        if n < s.len() {
            assert(t[n - 1] == s[n]);
        }
        lemma_quote_pos_is(t, n - 1);
    }
}

/// Where the characters from position `n` on are blanks and the one before
/// is not, or `n` is 0, `trimmed_len` is `n`.
pub proof fn lemma_trimmed_len_is(s: Seq<char>, n: int)
    requires
        0 <= n <= s.len(),
        forall|k: int| n <= k < s.len() ==> is_blank(#[trigger] s[k]),
        n > 0 ==> !is_blank(s[n - 1]),
    ensures
        trimmed_len(s) == n,
    decreases s.len() - n,
{
    if n < s.len() {
        let t = s.drop_last();
        assert(is_blank(s[s.len() - 1]));
        assert forall|k: int| n <= k < t.len() implies is_blank(#[trigger] t[k]) by {
            assert(t[k] == s[k]);
        }
        if n > 0 {
            assert(t[n - 1] == s[n - 1]);
        }
        lemma_trimmed_len_is(t, n);
    }
}

/// A line of blanks has no token.
pub proof fn lemma_blank_line(s: Seq<char>)
    requires
        forall|i: int| 0 <= i < s.len() ==> is_blank(#[trigger] s[i]),
    ensures
        scan(s) == Some(Seq::<TokenView>::empty()),
    decreases s.len(),
{
    if s.len() > 0 {
        let t = s.skip(1);
        assert(is_blank(s[0]));
        assert forall|i: int| 0 <= i < t.len() implies is_blank(#[trigger] t[i]) by {
            assert(t[i] == s[i + 1]);
        }
        lemma_blank_line(t);
    }
}

/// The token, if it is a bare word, is not empty and holds no blank and
/// no operator character.
pub open spec fn sound_word(t: TokenView) -> bool {
    t matches TokenView::Word(text) ==> text.len() > 0 && forall|i: int|
        0 <= i < text.len() ==> !ends_word(#[trigger] text[i])
}

/// The token, if it is a quoted literal, holds no single quote.
pub open spec fn sound_literal(t: TokenView) -> bool {
    t matches TokenView::Quoted(text) ==> forall|i: int| 0 <= i < text.len() ==> #[trigger] text[i] != '\''
}

/// No single quote stands before the first one.
pub proof fn lemma_quote_pos_first(s: Seq<char>)
    ensures
        0 <= quote_pos(s) <= s.len(),
        forall|k: int| 0 <= k < quote_pos(s) ==> #[trigger] s[k] != '\'',
    decreases s.len(),
{
    if s.len() > 0 && s[0] != '\'' {
        let t = s.drop_first();
        lemma_quote_pos_first(t);
        assert forall|k: int| 0 <= k < quote_pos(s) implies #[trigger] s[k] != '\'' by {
            if k > 0 {
                assert(s[k] == t[k - 1]);
            }
        }
    }
}

/// Every bare word of a line is not empty and holds no blank and no
/// operator character, and every quoted literal holds no single quote.
pub proof fn lemma_scan_tokens(s: Seq<char>)
    ensures
        scan(s) matches Some(tokens) ==> forall|k: int|
            0 <= k < tokens.len() ==> sound_word(#[trigger] tokens[k]) && sound_literal(tokens[k]),
    decreases s.len(),
{
    if s.len() == 0 {
    } else {
        lemma_word_len_bounds(s);
        lemma_quote_pos_bounds(s.skip(1));
        let n = quote_pos(s.skip(1));
        let width: int = if is_blank(s[0]) {
            1
        } else if s[0] == '\'' {
            n + 2
        } else if s[0] == '|' || s[0] == '>' || s[0] == '&' {
            if s.len() > 1 && s[1] == s[0] {
                2
            } else {
                1
            }
        } else if s[0] == '<' || s[0] == '=' {
            1
        } else {
            word_len(s)
        };
        if s[0] == '\'' && !(1 + n < s.len()) {
        } else {
            lemma_scan_tokens(s.skip(width));
            if let Some(tokens) = scan(s) {
                let rest = scan(s.skip(width)).unwrap();
                assert forall|k: int| 0 <= k < tokens.len() implies sound_word(#[trigger] tokens[k])
                    && sound_literal(tokens[k]) by {
                    if tokens.len() == rest.len() {
                        assert(tokens[k] == rest[k]);
                    } else if k > 0 {
                        assert(tokens[k] == rest[k - 1]);
                    } else {
                        if s[0] == '\'' {
                            lemma_quote_pos_first(s.skip(1));
                            let text = s.subrange(1, 1 + n);
                            assert forall|i: int| 0 <= i < text.len() implies #[trigger] text[i] != '\'' by {
                                assert(text[i] == s.skip(1)[i]);
                            }
                        } else if tokens[0] is Word {
                            let text = s.take(word_len(s));
                            assert forall|i: int| 0 <= i < text.len() implies !ends_word(#[trigger] text[i]) by {
                                assert(text[i] == s[i]);
                            }
                        }
                    }
                }
            }
        }
    }
}

/// What `scan` says of the whole line, told from the tokens found so far
/// and what `scan` says of the rest.
pub open spec fn scan_from(found: Seq<TokenView>, rest: Option<Seq<TokenView>>) -> Option<Seq<TokenView>> {
    match rest {
        Some(tokens) => Some(found + tokens),
        None => None,
    }
}

fn is_blank_char(c: char) -> (b: bool)
    ensures
        b == is_blank(c),
{
    c == ' ' || c == '\n'
}

fn ends_word_char(c: char) -> (b: bool)
    ensures
        b == ends_word(c),
{
    is_blank_char(c) || c == '|' || c == '<' || c == '>' || c == '=' || c == '&'
}

/// Whether the line asks for background execution.
fn line_asks_background(chars: &Vec<char>) -> (bg: bool)
    ensures
        bg == asks_background(chars@),
{
    let mut n: usize = chars.len();
    while n > 0 && is_blank_char(chars[n - 1])
        invariant
            n <= chars@.len(),
            forall|k: int| n <= k < chars@.len() ==> is_blank(#[trigger] chars@[k]),
        decreases n,
    {
        n -= 1;
    }
    proof {
        lemma_trimmed_len_is(chars@, n as int);
    }
    n >= 1 && chars[n - 1] == '&' && !(n >= 2 && chars[n - 2] == '&')
}

/// Splits a line into its tokens and tells whether it asks for background
/// execution. Fails on a quoted literal that the line does not close.
pub fn parseline(cmdline: &str) -> (res: Result<(bool, Vec<Token>), CompileError>)
    ensures
        res is Ok <==> scan(cmdline@) is Some,
        res matches Ok((bg, tokens)) ==> bg == asks_background(cmdline@) && Some(tokens_view(tokens@)) == scan(
            cmdline@,
        ),
        res matches Err(e) ==> e == CompileError::UnterminatedQuote,
{
    let chars = chars_of(cmdline);
    let bg = line_asks_background(&chars);
    let mut tokens: Vec<Token> = Vec::new();
    let mut i: usize = 0;
    assert(chars@.skip(0) =~= chars@);
    assert(tokens_view(tokens@) =~= Seq::<TokenView>::empty());
    assert(scan_from(tokens_view(tokens@), scan(chars@)) == scan(chars@)) by {
        if let Some(all) = scan(chars@) {
            assert(Seq::<TokenView>::empty() + all =~= all);
        }
    }
    while i < chars.len()
        invariant
            i <= chars@.len(),
            chars@ == cmdline@,
            scan(chars@) == scan_from(tokens_view(tokens@), scan(chars@.skip(i as int))),
        decreases chars@.len() - i,
    {
        let ghost s = chars@.skip(i as int);
        let ghost found = tokens_view(tokens@);
        let c = chars[i];
        assert(s[0] == c);
        let mut width: usize = 1;
        let mut token: Option<Token> = None;
        if is_blank_char(c) {
        } else if c == '\'' {
            let mut j: usize = i + 1;
            while j < chars.len() && chars[j] != '\''
                invariant
                    i < j <= chars@.len(),
                    forall|k: int| i < k < j ==> #[trigger] chars@[k] != '\'',
                decreases chars@.len() - j,
            {
                j += 1;
            }
            proof {
                let t = s.skip(1);
                assert forall|k: int| 0 <= k < j - i - 1 implies #[trigger] t[k] != '\'' by {
                    assert(t[k] == chars@[i + 1 + k]);
                }
                if j < chars@.len() {
                    assert(t[j - i - 1] == chars@[j as int]);
                }
                lemma_quote_pos_is(t, j - i - 1);
            }
            if j >= chars.len() {
                return Err(CompileError::UnterminatedQuote);
            }
            let text = string_of(&chars, i + 1, j);
            assert(text@ =~= s.subrange(1, 1 + quote_pos(s.skip(1))));
            token = Some(Token::Quoted(text));
            width = j - i + 1;
        } else if c == '|' {
            if i + 1 < chars.len() && chars[i + 1] == '|' {
                token = Some(Token::Or);
                width = 2;
            } else {
                token = Some(Token::Pipe);
            }
        } else if c == '>' {
            if i + 1 < chars.len() && chars[i + 1] == '>' {
                token = Some(Token::Append);
                width = 2;
            } else {
                token = Some(Token::Greater);
            }
        } else if c == '&' {
            if i + 1 < chars.len() && chars[i + 1] == '&' {
                token = Some(Token::And);
                width = 2;
            }
        } else if c == '<' {
            token = Some(Token::Less);
        } else if c == '=' {
            token = Some(Token::Assign);
        } else {
            let mut j: usize = i + 1;
            while j < chars.len() && !ends_word_char(chars[j])
                invariant
                    i < j <= chars@.len(),
                    forall|k: int| i <= k < j ==> !ends_word(#[trigger] chars@[k]),
                decreases chars@.len() - j,
            {
                j += 1;
            }
            proof {
                assert forall|k: int| 0 <= k < j - i implies !ends_word(#[trigger] s[k]) by {
                    assert(s[k] == chars@[i + k]);
                }
                if j < chars@.len() {
                    assert(s[j - i] == chars@[j as int]);
                }
                lemma_word_len_is(s, j - i);
            }
            let text = string_of(&chars, i, j);
            assert(text@ =~= s.take(word_len(s)));
            token = Some(Token::Word(text));
            width = j - i;
        }
        assert(s.skip(width as int) =~= chars@.skip(i + width));
        proof {
            if s.len() > 1 {
                assert(s[1] == chars@[i + 1]);
            }
        }
        assert(scan(s) == match token {
            Some(t) => token_then(t@, scan(s.skip(width as int))),
            None => scan(s.skip(width as int)),
        });
        match token {
            Some(t) => {
                tokens.push(t);
                proof {
                    assert(tokens_view(tokens@) =~= found + seq![t@]);
                    if let Some(rest) = scan(s.skip(width as int)) {
                        assert(found + (seq![t@] + rest) =~= (found + seq![t@]) + rest);
                    }
                }
            },
            None => {},
        }
        i += width;
    }
    assert(chars@.skip(i as int) =~= Seq::<char>::empty());
    assert(tokens_view(tokens@) + Seq::<TokenView>::empty() =~= tokens_view(tokens@));
    Ok((bg, tokens))
}

} // verus!
