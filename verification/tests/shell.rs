use qiish::lex::Token;
use qiish::link::{help_message, link_action, version_message, LinkAction};
use qiish::text::contains_word;
use qiish::options::{match_options, parse_options, Options};
use qiish::parse::ParsedToken;
use qiish::run::{candidate_paths, launch_of, program_status, run, run_input, Launch};
use qiish::shell::{help_text, prompt, version_text, LineAction, Shell, Startup};

fn strings(words: &[&str]) -> Vec<String> {
    words.iter().map(|w| w.to_string()).collect()
}

fn options(help: bool, version: bool, verbose: bool) -> Options {
    Options {
        help,
        version,
        verbose,
    }
}

#[test]
fn default_options_are_all_off() {
    assert_eq!(Options::default(), options(false, false, false));
}

#[test]
fn option_letters_follow_the_first_character() {
    assert_eq!(match_options("-vh"), vec!['v', 'h']);
    assert_eq!(match_options("x"), Vec::<char>::new());
    assert_eq!(match_options(""), Vec::<char>::new());
    assert_eq!(match_options("--é"), vec!['-', 'é']);
}

#[test]
fn option_letters_turn_options_on() {
    assert_eq!(parse_options(vec!['v', 'x', 'h']), options(true, false, true));
    assert_eq!(parse_options(vec!['V']), options(false, true, false));
    assert_eq!(parse_options(vec![]), options(false, false, false));
    assert_eq!(parse_options(vec!['q', 'H']), options(false, false, false));
}

#[test]
fn shell_without_arguments_shows_help() {
    assert_eq!(
        Shell::parse_shell_options(vec![]),
        Ok((vec![], options(true, false, false)))
    );
}

#[test]
fn shell_takes_plain_words_as_arguments() {
    assert_eq!(
        Shell::parse_shell_options(strings(&["file", "-v", "other"])),
        Ok((strings(&["file", "other"]), options(false, false, true)))
    );
    assert_eq!(
        Shell::parse_shell_options(strings(&["file"])),
        Ok((strings(&["file"]), options(false, false, false)))
    );
}

#[test]
fn shell_reads_option_letters_in_order() {
    assert_eq!(
        Shell::parse_shell_options(strings(&["-vh"])),
        Ok((vec![], options(true, false, true)))
    );
    assert_eq!(
        Shell::parse_shell_options(strings(&["-v", "-q", "f"])),
        Ok((strings(&["f"]), options(false, false, false)))
    );
    assert_eq!(
        Shell::parse_shell_options(strings(&["-q", "-v", "f"])),
        Ok((strings(&["f"]), options(false, false, true)))
    );
    assert_eq!(
        Shell::parse_shell_options(strings(&["-V"])),
        Ok((vec![], options(false, true, false)))
    );
}

#[test]
fn a_dash_ends_the_letters_of_a_word() {
    assert_eq!(
        Shell::parse_shell_options(strings(&["-v-x", "f"])),
        Ok((strings(&["f"]), options(false, false, true)))
    );
}

#[test]
fn unknown_letter_is_status_two() {
    assert_eq!(Shell::parse_shell_options(strings(&["-x"])), Err(2));
    assert_eq!(Shell::parse_shell_options(strings(&["f", "-vz"])), Err(2));
    assert_eq!(Shell::parse_shell_options(strings(&["--help"])), Err(2));
}

#[test]
fn unknown_long_option_is_status_three() {
    assert_eq!(Shell::parse_shell_options(strings(&["--v"])), Err(3));
    assert_eq!(Shell::parse_shell_options(strings(&["--q", "--"])), Err(3));
}

#[test]
fn empty_long_option_ends_the_long_options() {
    assert_eq!(
        Shell::parse_shell_options(strings(&["--"])),
        Ok((vec![], options(true, false, false)))
    );
    assert_eq!(
        Shell::parse_shell_options(strings(&["--", "--q", "f"])),
        Ok((strings(&["f"]), options(false, false, false)))
    );
}

#[test]
fn shell_keeps_what_it_is_given() {
    let shell = Shell::new(strings(&["a"]), options(false, true, false));
    assert_eq!(shell.args, strings(&["a"]));
    assert_eq!(shell.options, options(false, true, false));
}

#[test]
fn shell_start_by_options() {
    let start = |o: Options| Shell::new(vec![], o).start();
    assert_eq!(start(options(true, true, false)), Err(1));
    assert_eq!(start(options(true, false, true)), Ok(Startup::Help));
    assert_eq!(start(options(false, true, false)), Ok(Startup::Version));
    assert_eq!(start(options(false, false, true)), Ok(Startup::Interactive));
}

#[test]
fn exit_line_ends_the_shell() {
    let shell = Shell::new(vec![], Options::default());
    assert_eq!(shell.on_line("exit\n"), LineAction::Exit);
    assert_eq!(shell.on_line(" \t exit \r\n"), LineAction::Exit);
    assert_eq!(shell.on_line("exit"), LineAction::Exit);
}

#[test]
fn other_lines_are_parsed() {
    let shell = Shell::new(vec![], Options::default());
    assert_eq!(
        shell.on_line("exit now\n"),
        LineAction::Execute(vec![
            ParsedToken::Command("exit".to_string(), strings(&["now"])),
            ParsedToken::Eof
        ])
    );
    assert_eq!(
        shell.on_line("ls >"),
        LineAction::Execute(vec![
            ParsedToken::Command("ls".to_string(), vec![]),
            ParsedToken::Error("Expected a filename after redirection".to_string()),
            ParsedToken::Eof
        ])
    );
    assert_eq!(shell.on_line(""), LineAction::Execute(vec![ParsedToken::Eof]));
    assert_eq!(
        shell.on_line("exi t"),
        LineAction::Execute(vec![
            ParsedToken::Command("exi".to_string(), strings(&["t"])),
            ParsedToken::Eof
        ])
    );
}

#[test]
fn shell_prompt_hides_the_local_domain() {
    assert_eq!(prompt("u", "box.localdomain", "/home/u"), "u@box : /home/u $ ");
    assert_eq!(prompt("u", "box", "/"), "u@box : / $ ");
    assert_eq!(
        prompt("", "a.localdomain.localdomainb.localdomai", ""),
        "@ab.localdomai :  $ "
    );
}

#[test]
fn shell_help_and_version_texts() {
    let mut help = String::new();
    help.push_str("\x1b[1m\x1b[32m");
    help.push_str("Usage: ");
    help.push_str("\x1b[0m");
    help.push_str("\x1b[1m");
    help.push_str("qiish [-hqVv] [file]");
    help.push_str("\x1b[0m");
    help.push_str("\x1b[1m\x1b[32m\n\n");
    help.push_str("Options:\n");
    help.push_str("\x1b[0m");
    help.push_str("\x1b[1m  -h, --help\t\t\x1b[0m Print this help message and exit.\n");
    help.push_str("\x1b[1m  -q, --quiet\t\t\x1b[0m Do not print anything to stdout.\n");
    help.push_str("\x1b[1m  -V, --version\t\t\x1b[0m Print the version and exit.\n");
    help.push_str("\x1b[1m  -v, --verbose\t\t\x1b[0m Print debug information to stdout.\n");
    assert_eq!(help_text(), help);
    assert_eq!(version_text(), "\x1b[1m\x1b[32mqiish v0.1.0\x1b[0m");
}

#[test]
fn run_lexes_and_parses() {
    assert_eq!(run("ls | grep x > out", Options::default()), 0);
    assert_eq!(run("\"unterminated", options(false, false, true)), 0);
    assert_eq!(run("", Options::default()), 0);
}

#[test]
fn commands_are_launched_by_name() {
    assert_eq!(
        launch_of(ParsedToken::Command("ls".to_string(), strings(&["a"]))),
        Launch::List(strings(&["a"]))
    );
    assert_eq!(
        launch_of(ParsedToken::Command("lsx".to_string(), strings(&["a", "b"]))),
        Launch::Program("lsx".to_string(), strings(&["a", "b"]))
    );
    assert_eq!(launch_of(ParsedToken::Eof), Launch::Invalid);
    assert_eq!(launch_of(ParsedToken::Pipe(0, 2)), Launch::Invalid);
    assert_eq!(
        launch_of(ParsedToken::String("ls".to_string())),
        Launch::Invalid
    );
}

#[test]
fn program_status_values() {
    assert_eq!(program_status(false, Some(3)), 127);
    assert_eq!(program_status(false, None), 127);
    assert_eq!(program_status(true, Some(3)), 3);
    assert_eq!(program_status(true, Some(0)), 0);
    assert_eq!(program_status(true, None), 1);
}

#[test]
fn candidates_follow_the_search_path() {
    assert_eq!(
        candidate_paths("/bin:/usr/bin", "ls"),
        strings(&["/bin/ls", "/usr/bin/ls"])
    );
    assert_eq!(candidate_paths("", "ls"), strings(&["/ls"]));
    assert_eq!(candidate_paths("/a:", "x"), strings(&["/a/x", "/x"]));
    assert_eq!(candidate_paths(":", ""), strings(&["/", "/"]));
}

#[test]
fn link_tool_actions() {
    let none: Vec<String> = vec![];
    assert_eq!(link_action(&strings(&["u", "n"]), &none), LinkAction::Proceed);
    assert_eq!(link_action(&strings(&["u"]), &none), LinkAction::Help);
    assert_eq!(link_action(&strings(&["u", "n", "x"]), &none), LinkAction::Help);
    assert_eq!(
        link_action(&strings(&["u", "n"]), &strings(&["f"])),
        LinkAction::Help
    );
    assert_eq!(link_action(&strings(&["u", "-h"]), &none), LinkAction::Help);
    assert_eq!(
        link_action(&strings(&["--version", "--help"]), &none),
        LinkAction::Help
    );
    assert_eq!(link_action(&strings(&["-V"]), &strings(&["f"])), LinkAction::Version);
    assert_eq!(link_action(&strings(&["--version"]), &none), LinkAction::Version);
}

#[test]
fn link_tool_texts() {
    assert_eq!(
        help_message(),
        "\
    Usage: quantii-link [options] <url> <name>\n\
    Options:\n\
    -h, --help                 Show this help message and exit\n\
    -V, --version              Show version information and exit\n"
    );
    assert_eq!(
        version_message(),
        "\
    qiish v0.1.0\n"
    );
}

#[test]
fn words_are_found_whole() {
    assert!(contains_word(&strings(&["ab", "c"]), "c"));
    assert!(!contains_word(&strings(&["ab", "c"]), "a"));
    assert!(!contains_word(&vec![], ""));
}

#[test]
fn tokens_can_be_cloned_and_compared() {
    let token = Token::Word("a".to_string());
    assert_eq!(token.clone(), token);
    assert_ne!(Token::DoubleQuotedString("a".to_string()), Token::SingleQuotedString("a".to_string()));
}

#[test]
fn prompt_names_the_user_and_the_host() {
    let shell = Shell::new(vec![], Options::default());
    let text = shell.prompt_in("/some/where");
    assert!(text.ends_with(" : /some/where $ "));
    let names = &text[..text.len() - " : /some/where $ ".len()];
    let (user, host) = names.split_once('@').unwrap();
    assert!(!user.is_empty());
    assert!(!host.is_empty());
    assert!(!host.chars().any(|c| c.is_ascii_uppercase()));
    assert!(!host.contains(".localdomain"));
}

#[test]
fn exit_is_trimmed_as_the_standard_library_trims() {
    let shell = Shell::new(vec![], Options::default());
    assert_eq!(shell.on_line("\u{3000}exit\u{85}"), LineAction::Exit);
    assert_ne!(shell.on_line("\u{200b}exit"), LineAction::Exit);
    assert_ne!(shell.on_line("exit;"), LineAction::Exit);
    assert_ne!(shell.on_line("Exit"), LineAction::Exit);
}

#[test]
fn unreadable_file_is_status_one() {
    assert_eq!(run_input(None, Options::default()), 1);
    assert_eq!(run_input(Some("ls >"), Options::default()), 0);
}

#[test]
fn local_domain_is_taken_out_as_the_standard_library_replaces() {
    let hosts = [
        "",
        "box",
        ".localdomain",
        "a.localdomain",
        ".localdomain.localdomain",
        ".local.localdomaindomain",
        "..localdomain.",
        ".localdomai",
        "x.localdomainx.localdomai.localdomain",
        ".Localdomain",
    ];
    for host in hosts {
        let expected = format!("u@{} : / $ ", host.replace(".localdomain", ""));
        assert_eq!(prompt("u", host, "/"), expected);
    }
}

#[test]
fn search_path_splits_as_the_standard_library_splits() {
    let paths = ["", ":", "a", "a:b", ":a", "a:", "a::b", "::", "/usr/bin:/bin:."];
    for path in paths {
        let expected: Vec<String> = path.split(':').map(|d| format!("{}/{}", d, "ls")).collect();
        assert_eq!(candidate_paths(path, "ls"), expected);
    }
}
