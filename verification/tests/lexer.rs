use qiish::lex::{lex, lex_input, Token};
use qiish::options::Options;

fn tokens_of(input: &str) -> Vec<Token> {
    let (status, tokens) = lex(input, Options::default());
    assert_eq!(status, 0);
    tokens
}

fn word(text: &str) -> Token {
    Token::Word(text.to_string())
}

#[test]
fn empty_input_is_only_eof() {
    assert_eq!(tokens_of(""), vec![Token::Eof]);
}

#[test]
fn dropped_whitespace_leaves_only_eof() {
    assert_eq!(tokens_of("\t\n\r\x0c\n\t"), vec![Token::Eof]);
}

#[test]
fn run_of_spaces_is_one_space_token() {
    assert_eq!(tokens_of("    "), vec![Token::Space, Token::Eof]);
}

#[test]
fn spaces_split_by_a_tab_are_two_space_tokens() {
    assert_eq!(tokens_of(" \t "), vec![Token::Space, Token::Space, Token::Eof]);
}

#[test]
fn herestring_is_one_token() {
    assert_eq!(tokens_of("<<<"), vec![Token::HereString, Token::Eof]);
}

#[test]
fn append_is_one_token() {
    assert_eq!(tokens_of(">>"), vec![Token::RedirAppend, Token::Eof]);
}

#[test]
fn every_operator_lexes_to_its_token() {
    assert_eq!(tokens_of("<"), vec![Token::RedirInput, Token::Eof]);
    assert_eq!(tokens_of("<<"), vec![Token::HereDoc, Token::Eof]);
    assert_eq!(tokens_of(">"), vec![Token::Redir, Token::Eof]);
    assert_eq!(tokens_of(">|"), vec![Token::RedirClobber, Token::Eof]);
    assert_eq!(tokens_of("|"), vec![Token::Pipe, Token::Eof]);
    assert_eq!(tokens_of("||"), vec![Token::OrOr, Token::Eof]);
    assert_eq!(tokens_of("&&"), vec![Token::AndAnd, Token::Eof]);
}

#[test]
fn four_angles_are_herestring_then_input() {
    assert_eq!(
        tokens_of("<<<<"),
        vec![Token::HereString, Token::RedirInput, Token::Eof]
    );
}

#[test]
fn three_pipes_are_oror_then_pipe() {
    assert_eq!(tokens_of("|||"), vec![Token::OrOr, Token::Pipe, Token::Eof]);
}

#[test]
fn lone_ampersand_is_an_error() {
    assert_eq!(tokens_of("&"), vec![Token::Error, Token::Eof]);
    assert_eq!(
        tokens_of("&&&"),
        vec![Token::AndAnd, Token::Error, Token::Eof]
    );
}

#[test]
fn words_and_spaces() {
    assert_eq!(
        tokens_of("ls  foo_1 Bar"),
        vec![
            word("ls"),
            Token::Space,
            word("foo_1"),
            Token::Space,
            word("Bar"),
            Token::Eof
        ]
    );
}

#[test]
fn a_word_may_start_with_a_digit() {
    assert_eq!(tokens_of("1abc"), vec![word("1abc"), Token::Eof]);
}

#[test]
fn newline_separates_words_without_a_space_token() {
    assert_eq!(tokens_of("a\nb"), vec![word("a"), word("b"), Token::Eof]);
}

#[test]
fn unknown_character_is_an_error_of_its_own() {
    assert_eq!(
        tokens_of("-la"),
        vec![Token::Error, word("la"), Token::Eof]
    );
    assert_eq!(
        tokens_of("\u{1}\u{2}"),
        vec![Token::Error, Token::Error, Token::Eof]
    );
    assert_eq!(tokens_of("é"), vec![Token::Error, Token::Eof]);
}

#[test]
fn single_quoted_text_is_verbatim() {
    assert_eq!(
        tokens_of("'a b'"),
        vec![Token::SingleQuotedString("a b".to_string()), Token::Eof]
    );
    assert_eq!(
        tokens_of("'a\\nb'"),
        vec![Token::SingleQuotedString("a\\nb".to_string()), Token::Eof]
    );
    assert_eq!(
        tokens_of("'a\\'b'"),
        vec![Token::SingleQuotedString("a\\'b".to_string()), Token::Eof]
    );
}

#[test]
fn double_quoted_text_has_its_escapes_expanded() {
    assert_eq!(
        tokens_of("\"a b\""),
        vec![Token::DoubleQuotedString("a b".to_string()), Token::Eof]
    );
    assert_eq!(
        tokens_of("\"1\\n2\\r3\\t4\\\"5\\\\6\""),
        vec![
            Token::DoubleQuotedString("1\n2\r3\t4\"5\\6".to_string()),
            Token::Eof
        ]
    );
}

#[test]
fn empty_quotes_hold_empty_text() {
    assert_eq!(
        tokens_of("\"\"''"),
        vec![
            Token::DoubleQuotedString(String::new()),
            Token::SingleQuotedString(String::new()),
            Token::Eof
        ]
    );
}

#[test]
fn unknown_escape_makes_the_literal_an_error() {
    assert_eq!(
        tokens_of("\"a\\qb\" x"),
        vec![Token::Error, Token::Space, word("x"), Token::Eof]
    );
}

#[test]
fn unterminated_literal_is_an_error_to_the_end() {
    assert_eq!(tokens_of("\"abc def"), vec![Token::Error, Token::Eof]);
    assert_eq!(tokens_of("a 'bc"), vec![word("a"), Token::Space, Token::Error, Token::Eof]);
    assert_eq!(tokens_of("\"abc\\"), vec![Token::Error, Token::Eof]);
}

#[test]
fn a_full_line_lexes() {
    assert_eq!(
        tokens_of("cat <in | grep 'x y' >>out && echo \"done\""),
        vec![
            word("cat"),
            Token::Space,
            Token::RedirInput,
            word("in"),
            Token::Space,
            Token::Pipe,
            Token::Space,
            word("grep"),
            Token::Space,
            Token::SingleQuotedString("x y".to_string()),
            Token::Space,
            Token::RedirAppend,
            word("out"),
            Token::Space,
            Token::AndAnd,
            Token::Space,
            word("echo"),
            Token::Space,
            Token::DoubleQuotedString("done".to_string()),
            Token::Eof
        ]
    );
}

#[test]
fn tokens_end_with_exactly_one_eof() {
    let tokens = tokens_of("a | b > c");
    assert_eq!(tokens.last(), Some(&Token::Eof));
    assert_eq!(tokens.iter().filter(|t| **t == Token::Eof).count(), 1);
}

#[test]
fn unreadable_input_is_status_one_without_tokens() {
    assert_eq!(lex_input(None, Options::default()), (1, vec![]));
}

#[test]
fn readable_input_is_lexed() {
    assert_eq!(
        lex_input(Some("a |"), Options::default()),
        (0, vec![word("a"), Token::Space, Token::Pipe, Token::Eof])
    );
    assert_eq!(lex_input(Some(""), Options::default()), (0, vec![Token::Eof]));
}

#[test]
fn options_do_not_change_the_tokens() {
    let verbose = Options {
        help: true,
        version: true,
        verbose: true,
    };
    assert_eq!(lex("a 'b' >", verbose), lex("a 'b' >", Options::default()));
}
