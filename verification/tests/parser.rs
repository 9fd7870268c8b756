use qiish::lex::{lex, Token};
use qiish::options::Options;
use qiish::parse::{connector_slots, mode_of, parse, Mode, ParsedToken};

fn parsed(tokens: Vec<Token>) -> Vec<ParsedToken> {
    let (status, directives) = parse(tokens, Options::default());
    assert_eq!(status, 0);
    directives
}

fn parsed_line(line: &str) -> Vec<ParsedToken> {
    let (status, tokens) = lex(line, Options::default());
    assert_eq!(status, 0);
    parsed(tokens)
}

fn word(text: &str) -> Token {
    Token::Word(text.to_string())
}

fn dq(text: &str) -> Token {
    Token::DoubleQuotedString(text.to_string())
}

fn sq(text: &str) -> Token {
    Token::SingleQuotedString(text.to_string())
}

fn command(name: &str, args: &[&str]) -> ParsedToken {
    ParsedToken::Command(
        name.to_string(),
        args.iter().map(|a| a.to_string()).collect(),
    )
}

fn text(t: &str) -> ParsedToken {
    ParsedToken::String(t.to_string())
}

fn error(message: &str) -> ParsedToken {
    ParsedToken::Error(message.to_string())
}

#[test]
fn no_tokens_give_only_eof() {
    assert_eq!(parsed(vec![]), vec![ParsedToken::Eof]);
}

#[test]
fn eof_fed_twice_gives_one_eof_directive() {
    assert_eq!(parsed(vec![Token::Eof]), vec![ParsedToken::Eof]);
    assert_eq!(parsed(vec![Token::Eof, Token::Eof]), vec![ParsedToken::Eof]);
    let (_, mut tokens) = lex("ls", Options::default());
    assert_eq!(tokens.last(), Some(&Token::Eof));
    tokens.push(Token::Eof);
    assert_eq!(parsed(tokens), vec![command("ls", &[]), ParsedToken::Eof]);
}

#[test]
fn nothing_after_the_first_eof_is_read() {
    assert_eq!(
        parsed(vec![word("a"), Token::Eof, word("b"), Token::Pipe]),
        vec![command("a", &[]), ParsedToken::Eof]
    );
}

#[test]
fn error_token_becomes_error_directive() {
    assert_eq!(
        parsed(vec![Token::Error]),
        vec![error("Error parsing token"), ParsedToken::Eof]
    );
}

#[test]
fn words_make_one_command() {
    assert_eq!(
        parsed(vec![word("cp"), word("a"), word("b"), word("c")]),
        vec![command("cp", &["a", "b", "c"]), ParsedToken::Eof]
    );
    assert_eq!(
        parsed_line("cp a  b c"),
        vec![command("cp", &["a", "b", "c"]), ParsedToken::Eof]
    );
    assert_eq!(parsed(vec![word("ls")]), vec![command("ls", &[]), ParsedToken::Eof]);
}

#[test]
fn connectors_hold_the_slots_around_them() {
    assert_eq!(
        parsed(vec![word("a"), Token::Pipe, word("b")]),
        vec![
            command("a", &[]),
            ParsedToken::Pipe(0, 2),
            command("b", &[]),
            ParsedToken::Eof
        ]
    );
    assert_eq!(
        parsed(vec![word("a"), Token::AndAnd, word("b"), Token::OrOr, word("c")]),
        vec![
            command("a", &[]),
            ParsedToken::AndAnd(0, 2),
            command("b", &[]),
            ParsedToken::OrOr(2, 4),
            command("c", &[]),
            ParsedToken::Eof
        ]
    );
}

#[test]
fn connector_in_front_refers_to_slot_zero() {
    assert_eq!(
        parsed(vec![Token::Pipe]),
        vec![ParsedToken::Pipe(0, 1), ParsedToken::Eof]
    );
    assert_eq!(
        parsed(vec![Token::AndAnd, Token::OrOr]),
        vec![
            ParsedToken::AndAnd(0, 1),
            ParsedToken::OrOr(0, 2),
            ParsedToken::Eof
        ]
    );
}

#[test]
fn redirections_take_the_word_that_follows() {
    assert_eq!(
        parsed(vec![word("ls"), Token::Redir, word("out")]),
        vec![
            command("ls", &[]),
            ParsedToken::Redir("out".to_string()),
            ParsedToken::Eof
        ]
    );
    assert_eq!(
        parsed(vec![
            Token::RedirAppend,
            word("a"),
            Token::RedirClobber,
            word("b"),
            Token::RedirInput,
            word("c")
        ]),
        vec![
            ParsedToken::RedirAppend("a".to_string()),
            ParsedToken::RedirClobber("b".to_string()),
            ParsedToken::RedirInput("c".to_string()),
            ParsedToken::Eof
        ]
    );
}

#[test]
fn redirection_target_is_not_read_again() {
    assert_eq!(
        parsed_line("ls >out x"),
        vec![
            command("ls", &[]),
            ParsedToken::Redir("out".to_string()),
            ParsedToken::Delimiter,
            command("x", &[]),
            ParsedToken::Eof
        ]
    );
}

#[test]
fn dangling_redirection_is_an_error() {
    let directives = parsed_line("ls >");
    assert_eq!(
        directives,
        vec![
            command("ls", &[]),
            error("Expected a filename after redirection"),
            ParsedToken::Eof
        ]
    );
    match &directives[1] {
        ParsedToken::Error(message) => assert!(message.contains("filename after redirection")),
        other => panic!("not an error: {:?}", other),
    }
}

#[test]
fn every_dangling_redirection_is_an_error() {
    for op in [
        Token::Redir,
        Token::RedirAppend,
        Token::RedirClobber,
        Token::RedirInput,
    ] {
        assert_eq!(
            parsed(vec![op, Token::Pipe]),
            vec![
                error("Expected a filename after redirection"),
                ParsedToken::Pipe(0, 2),
                ParsedToken::Eof
            ]
        );
    }
}

#[test]
fn space_after_redirection_is_no_filename() {
    assert_eq!(
        parsed_line("ls > out"),
        vec![
            command("ls", &[]),
            error("Expected a filename after redirection"),
            ParsedToken::Delimiter,
            command("out", &[]),
            ParsedToken::Eof
        ]
    );
}

#[test]
fn heredoc_collects_the_words_up_to_the_terminator() {
    assert_eq!(
        parsed(vec![
            word("cmd"),
            Token::HereDoc,
            word("EOF"),
            word("line1"),
            word("line2"),
            word("EOF")
        ]),
        vec![
            command("cmd", &[]),
            ParsedToken::HereDoc(1, "line1line2".to_string()),
            ParsedToken::Eof
        ]
    );
    assert_eq!(
        parsed_line("cmd <<EOF\nline1\nline2\nEOF"),
        vec![
            command("cmd", &[]),
            ParsedToken::HereDoc(1, "line1line2".to_string()),
            ParsedToken::Eof
        ]
    );
}

#[test]
fn heredoc_with_empty_body() {
    assert_eq!(
        parsed(vec![Token::HereDoc, word("E"), word("E"), word("x")]),
        vec![
            ParsedToken::HereDoc(0, String::new()),
            command("x", &[]),
            ParsedToken::Eof
        ]
    );
}

#[test]
fn heredoc_without_terminator_is_an_error_and_consumes_nothing() {
    assert_eq!(
        parsed(vec![Token::HereDoc, word("EOF"), word("a")]),
        vec![
            error("HereDoc: End token not found"),
            command("EOF", &["a"]),
            ParsedToken::Eof
        ]
    );
    assert_eq!(
        parsed(vec![Token::HereDoc, Token::Space]),
        vec![
            error("HereDoc: End token not found"),
            ParsedToken::Delimiter,
            ParsedToken::Eof
        ]
    );
    assert_eq!(
        parsed(vec![Token::HereDoc]),
        vec![error("HereDoc: End token not found"), ParsedToken::Eof]
    );
}

#[test]
fn heredoc_passes_over_tokens_that_are_no_words() {
    assert_eq!(
        parsed(vec![
            Token::HereDoc,
            word("E"),
            word("a"),
            Token::Space,
            word("E")
        ]),
        vec![ParsedToken::HereDoc(0, "a".to_string()), ParsedToken::Eof]
    );
    assert_eq!(
        parsed(vec![
            Token::HereDoc,
            Token::Space,
            word("E"),
            Token::Pipe,
            word("a"),
            sq("x"),
            word("b"),
            Token::Error,
            word("E"),
            word("z")
        ]),
        vec![
            ParsedToken::HereDoc(0, "ab".to_string()),
            command("z", &[]),
            ParsedToken::Eof
        ]
    );
}

#[test]
fn heredoc_on_one_line_with_spaces() {
    assert_eq!(
        parsed_line("cmd << EOF line1 line2 EOF"),
        vec![
            command("cmd", &[]),
            ParsedToken::HereDoc(1, "line1line2".to_string()),
            ParsedToken::Eof
        ]
    );
    assert_eq!(
        parsed_line("cmd << EOF line1 line2"),
        vec![
            command("cmd", &[]),
            error("HereDoc: End token not found"),
            ParsedToken::Delimiter,
            command("EOF", &["line1", "line2"]),
            ParsedToken::Eof
        ]
    );
}

#[test]
fn heredoc_does_not_read_past_eof() {
    assert_eq!(
        parsed(vec![
            Token::HereDoc,
            word("E"),
            word("a"),
            Token::Eof,
            word("E")
        ]),
        vec![
            error("HereDoc: End token not found"),
            command("E", &["a"]),
            ParsedToken::Eof
        ]
    );
    assert_eq!(
        parsed(vec![Token::HereDoc, Token::Eof, word("E"), word("E")]),
        vec![error("HereDoc: End token not found"), ParsedToken::Eof]
    );
}

#[test]
fn herestring_takes_the_word_that_follows() {
    assert_eq!(
        parsed(vec![word("cat"), Token::HereString, word("hello")]),
        vec![
            command("cat", &[]),
            ParsedToken::HereString(1, "hello".to_string()),
            ParsedToken::Eof
        ]
    );
}

#[test]
fn herestring_without_word_is_an_error() {
    assert_eq!(
        parsed(vec![Token::HereString, sq("x")]),
        vec![
            error("HereString: No string found"),
            text("x"),
            ParsedToken::Eof
        ]
    );
}

#[test]
fn both_quotes_give_the_same_string() {
    let single = parsed_line("'a b'");
    let double = parsed_line("\"a b\"");
    assert_eq!(single, vec![text("a b"), ParsedToken::Eof]);
    assert_eq!(double, single);
}

#[test]
fn adjacent_strings_merge() {
    assert_eq!(
        parsed(vec![sq("a"), dq("b"), sq("c")]),
        vec![text("abc"), ParsedToken::Eof]
    );
    assert_eq!(
        parsed_line("'a' \"b\""),
        vec![text("a b"), ParsedToken::Eof]
    );
}

#[test]
fn word_between_strings_ends_the_merge() {
    assert_eq!(
        parsed(vec![sq("a"), word("w"), sq("b")]),
        vec![text("a"), command("w", &[]), text("b"), ParsedToken::Eof]
    );
}

#[test]
fn empty_quotes() {
    assert_eq!(parsed(vec![dq("")]), vec![ParsedToken::Eof]);
    assert_eq!(parsed(vec![sq("")]), vec![text(""), ParsedToken::Eof]);
    assert_eq!(
        parsed(vec![sq("a"), dq(""), sq("")]),
        vec![text("a"), ParsedToken::Eof]
    );
}

#[test]
fn double_quoted_text_is_protected() {
    assert_eq!(parsed(vec![dq("a\\$b")]), vec![text("a$b"), ParsedToken::Eof]);
    assert_eq!(parsed(vec![dq("\\`")]), vec![text("`"), ParsedToken::Eof]);
    assert_eq!(parsed(vec![dq("\\\"")]), vec![text("\""), ParsedToken::Eof]);
    assert_eq!(parsed(vec![dq("\\\\")]), vec![text("\\"), ParsedToken::Eof]);
    assert_eq!(parsed(vec![dq("a\\!")]), vec![text("a!"), ParsedToken::Eof]);
    assert_eq!(parsed(vec![dq("`ls`")]), vec![text("\\`ls\\`"), ParsedToken::Eof]);
    assert_eq!(parsed(vec![dq("$(x)")]), vec![text("\\$(x)"), ParsedToken::Eof]);
    assert_eq!(parsed(vec![dq("${x}")]), vec![text("\\${x}"), ParsedToken::Eof]);
    assert_eq!(parsed(vec![dq("$x $")]), vec![text("$x $"), ParsedToken::Eof]);
    assert_eq!(parsed(vec![dq("\\q\\")]), vec![text("\\q\\"), ParsedToken::Eof]);
    assert_eq!(parsed(vec![dq("\\$(")]), vec![text("$("), ParsedToken::Eof]);
}

#[test]
fn single_quoted_text_is_not_protected() {
    assert_eq!(
        parsed(vec![sq("\\$ ` $(x)")]),
        vec![text("\\$ ` $(x)"), ParsedToken::Eof]
    );
}

#[test]
fn space_consults_the_tail() {
    assert_eq!(
        parsed(vec![Token::Space]),
        vec![ParsedToken::Delimiter, ParsedToken::Eof]
    );
    assert_eq!(
        parsed(vec![Token::Space, Token::Space]),
        vec![ParsedToken::Delimiter, ParsedToken::Eof]
    );
    assert_eq!(
        parsed(vec![word("a"), Token::Space]),
        vec![command("a", &[]), ParsedToken::Eof]
    );
    assert_eq!(
        parsed(vec![sq("a"), Token::Space]),
        vec![text("a "), ParsedToken::Eof]
    );
    assert_eq!(
        parsed(vec![Token::Pipe, Token::Space]),
        vec![
            ParsedToken::Pipe(0, 1),
            ParsedToken::Delimiter,
            ParsedToken::Eof
        ]
    );
}

#[test]
fn a_full_line_parses() {
    assert_eq!(
        parsed_line("cat <in | grep 'x y' >>out && echo \"done\""),
        vec![
            command("cat", &[]),
            ParsedToken::RedirInput("in".to_string()),
            ParsedToken::Delimiter,
            ParsedToken::Pipe(2, 4),
            ParsedToken::Delimiter,
            command("grep", &[]),
            text("x y "),
            ParsedToken::RedirAppend("out".to_string()),
            ParsedToken::Delimiter,
            ParsedToken::AndAnd(8, 10),
            ParsedToken::Delimiter,
            command("echo", &[]),
            text("done"),
            ParsedToken::Eof
        ]
    );
}

#[test]
fn directives_end_with_exactly_one_eof() {
    let directives = parsed_line("a | b > c 'd' <<< e");
    assert_eq!(directives.last(), Some(&ParsedToken::Eof));
    assert_eq!(
        directives.iter().filter(|d| **d == ParsedToken::Eof).count(),
        1
    );
}

#[test]
fn options_do_not_change_the_directives() {
    let verbose = Options {
        help: false,
        version: false,
        verbose: true,
    };
    let tokens = vec![word("a"), Token::Pipe, sq("b"), Token::Redir];
    assert_eq!(
        parse(tokens.clone(), verbose),
        parse(tokens, Options::default())
    );
}

#[test]
fn mode_follows_the_last_directive() {
    assert_eq!(mode_of(&vec![]), Mode::Idle);
    assert_eq!(mode_of(&vec![command("a", &[])]), Mode::BuildingCommand);
    assert_eq!(mode_of(&vec![command("a", &[]), text("b")]), Mode::BuildingString);
    assert_eq!(
        mode_of(&vec![text("b"), ParsedToken::Delimiter]),
        Mode::Idle
    );
    assert_eq!(mode_of(&vec![ParsedToken::Eof]), Mode::Idle);
}

#[test]
fn connectors_of_parsed_lines_resolve() {
    let directives = parsed_line("a|b&&c||");
    assert_eq!(
        directives,
        vec![
            command("a", &[]),
            ParsedToken::Pipe(0, 2),
            command("b", &[]),
            ParsedToken::AndAnd(2, 4),
            command("c", &[]),
            ParsedToken::OrOr(4, 6),
            ParsedToken::Eof
        ]
    );
    assert_eq!(connector_slots(&directives, 1), Some((0, 2)));
    assert_eq!(connector_slots(&directives, 3), Some((2, 4)));
    assert_eq!(connector_slots(&directives, 5), Some((4, 6)));
    assert_eq!(connector_slots(&directives, 0), None);
    assert_eq!(connector_slots(&directives, 6), None);
    assert_eq!(connector_slots(&directives, 7), None);
}

#[test]
fn connector_with_a_slot_outside_does_not_resolve() {
    let loose = vec![command("a", &[]), ParsedToken::Pipe(0, 2)];
    assert_eq!(connector_slots(&loose, 1), None);
    let wild = vec![ParsedToken::OrOr(5, 0), ParsedToken::Eof];
    assert_eq!(connector_slots(&wild, 0), None);
}

#[test]
fn escapes_pass_through_both_stages() {
    assert_eq!(
        parsed_line("\"\\$x\""),
        vec![error("Error parsing token"), ParsedToken::Eof]
    );
    assert_eq!(
        parsed_line("\"\\\\$x\""),
        vec![text("$x"), ParsedToken::Eof]
    );
    assert_eq!(
        parsed_line("\"a\\nb $(c)\""),
        vec![text("a\nb \\$(c)"), ParsedToken::Eof]
    );
    assert_eq!(
        parsed_line("'a\\nb $(c)'"),
        vec![text("a\\nb $(c)"), ParsedToken::Eof]
    );
}
