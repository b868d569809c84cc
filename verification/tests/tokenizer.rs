use rsh::token::{parseline, CompileError, Token};

fn word(text: &str) -> Token {
    Token::Word(text.to_string())
}

#[test]
fn words_are_split_at_blanks() {
    let (bg, tokens) = parseline("echo hello\n").unwrap();
    assert!(!bg);
    assert_eq!(tokens, vec![word("echo"), word("hello")]);
}

#[test]
fn empty_and_blank_lines_have_no_tokens() {
    assert_eq!(parseline("").unwrap(), (false, vec![]));
    assert_eq!(parseline("\n").unwrap(), (false, vec![]));
    assert_eq!(parseline("   \n").unwrap(), (false, vec![]));
}

#[test]
fn operators_are_taken_by_longest_match() {
    let (_, tokens) = parseline("a|b||c>d>>e&&f<g=h").unwrap();
    assert_eq!(
        tokens,
        vec![
            word("a"),
            Token::Pipe,
            word("b"),
            Token::Or,
            word("c"),
            Token::Greater,
            word("d"),
            Token::Append,
            word("e"),
            Token::And,
            word("f"),
            Token::Less,
            word("g"),
            Token::Assign,
            word("h"),
        ]
    );
}

#[test]
fn three_ampersands_are_one_operator_and_one_dropped() {
    let (bg, tokens) = parseline("a &&& b").unwrap();
    assert!(!bg);
    assert_eq!(tokens, vec![word("a"), Token::And, word("b")]);
}

#[test]
fn quoted_literal_keeps_its_blanks_and_loses_its_quotes() {
    let (_, tokens) = parseline("echo 'a  b | c' d\n").unwrap();
    assert_eq!(tokens, vec![word("echo"), Token::Quoted("a  b | c".to_string()), word("d")]);
}

#[test]
fn empty_quoted_literal_is_a_token() {
    let (_, tokens) = parseline("''").unwrap();
    assert_eq!(tokens, vec![Token::Quoted(String::new())]);
}

#[test]
fn quote_inside_a_word_belongs_to_the_word() {
    let (_, tokens) = parseline("don't\n").unwrap();
    assert_eq!(tokens, vec![word("don't")]);
}

#[test]
fn unterminated_quote_is_an_error() {
    assert_eq!(parseline("echo 'abc\n"), Err(CompileError::UnterminatedQuote));
    assert_eq!(parseline("'"), Err(CompileError::UnterminatedQuote));
}

#[test]
fn trailing_ampersand_asks_for_background_and_is_no_token() {
    let (bg, tokens) = parseline("sleep 5 &\n").unwrap();
    assert!(bg);
    assert_eq!(tokens, vec![word("sleep"), word("5")]);
    let (bg, tokens) = parseline("sleep 5&").unwrap();
    assert!(bg);
    assert_eq!(tokens, vec![word("sleep"), word("5")]);
}

#[test]
fn trailing_double_ampersand_is_not_background() {
    let (bg, tokens) = parseline("a &&\n").unwrap();
    assert!(!bg);
    assert_eq!(tokens, vec![word("a"), Token::And]);
}

#[test]
fn ampersand_in_the_middle_is_not_background() {
    let (bg, tokens) = parseline("a & b\n").unwrap();
    assert!(!bg);
    assert_eq!(tokens, vec![word("a"), word("b")]);
}

#[test]
fn lone_ampersand_is_background_without_tokens() {
    assert_eq!(parseline("&\n").unwrap(), (true, vec![]));
}

#[test]
fn characters_beyond_ascii_are_kept() {
    let (_, tokens) = parseline("echo héllo 'wörld'\n").unwrap();
    assert_eq!(tokens, vec![word("echo"), word("héllo"), Token::Quoted("wörld".to_string())]);
}
