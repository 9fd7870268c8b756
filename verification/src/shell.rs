use vstd::prelude::*;
use crate::options::Options;
use crate::lex::{lex, lex_spec};
use crate::parse::{directive_views, parse, parse_spec, ParsedToken};
use crate::text::{
    begins_with, chars_of, plain_words, push_chars, push_without_pattern, same_text,
    starts_with_char, string_views, trim_bounds, trimmed, without_pattern,
};

verus! {

/// The interactive shell: the arguments it was started with and its options.
pub struct Shell {
    pub args: Vec<String>,
    pub options: Options,
}

/// `text` without the dashes it begins with.
pub open spec fn strip_dashes(text: Seq<char>) -> Seq<char>
    decreases text.len(),
{
    if begins_with(text, '-') {
        strip_dashes(text.drop_first())
    } else {
        text
    }
}

/// Whether `text` begins with two dashes.
pub open spec fn begins_with_two_dashes(text: Seq<char>) -> bool {
    text.len() >= 2 && text[0] == '-' && text[1] == '-'
}

/// `text` without the pairs of dashes it begins with.
pub open spec fn strip_dash_pairs(text: Seq<char>) -> Seq<char>
    decreases text.len(),
{
    if begins_with_two_dashes(text) {
        strip_dash_pairs(text.skip(2))
    } else {
        text
    }
}

/// `options` after the option letters `letters[i..]` are applied in order:
/// `h` turns help on, `V` version, `v` verbose, and `q` turns verbose off. A
/// dash ends the letters. `None` when a letter is none of these.
pub open spec fn apply_letters(letters: Seq<char>, i: int, options: Options) -> Option<Options>
    decreases letters.len() - i,
{
    if !(0 <= i < letters.len()) || letters[i] == '-' {
        Some(options)
    } else if letters[i] == 'h' {
        apply_letters(letters, i + 1, Options { help: true, ..options })
    } else if letters[i] == 'V' {
        apply_letters(letters, i + 1, Options { version: true, ..options })
    } else if letters[i] == 'v' {
        apply_letters(letters, i + 1, Options { verbose: true, ..options })
    } else if letters[i] == 'q' {
        apply_letters(letters, i + 1, Options { verbose: false, ..options })
    } else {
        None
    }
}

/// `options` after the letters of every word of `words[i..]` that begins with
/// a dash are applied, the word's leading dashes taken off. `None` when one
/// of them holds a letter that is no option.
pub open spec fn apply_dashed_words(words: Seq<Seq<char>>, i: int, options: Options) -> Option<
    Options,
>
    decreases words.len() - i,
{
    if !(0 <= i < words.len()) {
        Some(options)
    } else if begins_with(words[i], '-') {
        match apply_letters(strip_dashes(words[i]), 0, options) {
            Some(next) => apply_dashed_words(words, i + 1, next),
            None => None,
        }
    } else {
        apply_dashed_words(words, i + 1, options)
    }
}

/// What a long option name asks for.
pub enum LongOption {
    /// The options as they are after the name is applied.
    Apply(Options),
    /// The empty name: no further long option is read.
    Stop,
    /// The name is no option.
    Unknown,
}

/// What the long option `name` asks for, given `options`.
pub open spec fn apply_name(name: Seq<char>, options: Options) -> LongOption {
    if name == "help"@ {
        LongOption::Apply(Options { help: true, ..options })
    } else if name == "version"@ {
        LongOption::Apply(Options { version: true, ..options })
    } else if name == "verbose"@ {
        LongOption::Apply(Options { verbose: true, ..options })
    } else if name == "quiet"@ {
        LongOption::Apply(Options { verbose: false, ..options })
    } else if name.len() == 0 {
        LongOption::Stop
    } else {
        LongOption::Unknown
    }
}

/// `options` after the names of the words of `words[i..]` that begin with
/// two dashes are applied, up to the first empty name. `None` when one of
/// them is no option.
pub open spec fn apply_long_words(words: Seq<Seq<char>>, i: int, options: Options) -> Option<
    Options,
>
    decreases words.len() - i,
{
    if !(0 <= i < words.len()) {
        Some(options)
    } else if begins_with_two_dashes(words[i]) {
        match apply_name(strip_dash_pairs(words[i]), options) {
            LongOption::Apply(next) => apply_long_words(words, i + 1, next),
            LongOption::Stop => Some(options),
            LongOption::Unknown => None,
        }
    } else {
        apply_long_words(words, i + 1, options)
    }
}

/// The options as the shell starts with them: with nothing to run and
/// neither help nor version asked for, help is shown.
pub open spec fn with_default_help(options: Options, nothing_to_run: bool) -> Options {
    if nothing_to_run && !options.help && !options.version {
        Options { help: true, ..options }
    } else {
        options
    }
}

/// What the command line `words` asks of the shell: the plain arguments and
/// the options, or the status `2` for an unknown option letter, `3` for an
/// unknown long option.
pub open spec fn shell_options(words: Seq<Seq<char>>) -> Result<(Seq<Seq<char>>, Options), i32> {
    let none = Options { help: false, version: false, verbose: false };
    match apply_dashed_words(words, 0, none) {
        None => Err(2i32),
        Some(lettered) => match apply_long_words(words, 0, lettered) {
            None => Err(3i32),
            Some(named) => Ok(
                (
                    plain_words(words, 0),
                    with_default_help(named, plain_words(words, 0).len() == 0),
                ),
            ),
        },
    }
}

fn without_dashes(word: &Vec<char>) -> (start: usize)
    ensures
        start <= word.len(),
        strip_dashes(word@) == word@.skip(start as int),
{
    let mut start: usize = 0;
    assert(word@.skip(0) =~= word@);
    while start < word.len() && word[start] == '-'
        invariant
            start <= word.len(),
            strip_dashes(word@) == strip_dashes(word@.skip(start as int)),
        decreases word.len() - start,
    {
        assert(word@.skip(start as int).drop_first() =~= word@.skip(start + 1));
        start = start + 1;
    }
    start
}

fn without_dash_pairs(word: &Vec<char>) -> (start: usize)
    ensures
        start <= word.len(),
        strip_dash_pairs(word@) == word@.skip(start as int),
{
    let mut start: usize = 0;
    assert(word@.skip(0) =~= word@);
    while word.len() - start >= 2 && word[start] == '-' && word[start + 1] == '-'
        invariant
            start <= word.len(),
            strip_dash_pairs(word@) == strip_dash_pairs(word@.skip(start as int)),
        decreases word.len() - start,
    {
        assert(word@.skip(start as int).skip(2) =~= word@.skip(start + 2));
        start = start + 2;
    }
    start
}

fn set_letters(word: &Vec<char>, start: usize, options: Options) -> (r: Option<Options>)
    requires
        start <= word.len(),
    ensures
        r == apply_letters(word@.skip(start as int), 0, options),
{
    let ghost letters = word@.skip(start as int);
    let mut current = options;
    let mut i: usize = start;
    while i < word.len()
        invariant
            start <= i <= word.len(),
            letters == word@.skip(start as int),
            apply_letters(letters, 0, options) == apply_letters(letters, i - start, current),
        decreases word.len() - i,
    {
        let c = word[i];
        assert(letters[i - start] == c);
        if c == 'h' {
            current = Options { help: true, ..current };
        } else if c == 'V' {
            current = Options { version: true, ..current };
        } else if c == 'v' {
            current = Options { verbose: true, ..current };
        } else if c == 'q' {
            current = Options { verbose: false, ..current };
        } else if c == '-' {
            return Some(current);
        } else {
            return None;
        }
        i = i + 1;
    }
    Some(current)
}

fn set_name(word: &Vec<char>, start: usize, options: Options) -> (r: LongOption)
    requires
        start <= word.len(),
    ensures
        r == apply_name(word@.skip(start as int), options),
{
    let mut name: Vec<char> = Vec::new();
    let mut i: usize = start;
    while i < word.len()
        invariant
            start <= i <= word.len(),
            name@ == word@.subrange(start as int, i as int),
        decreases word.len() - i,
    {
        name.push(word[i]);
        i = i + 1;
        assert(word@.subrange(start as int, i as int) =~= word@.subrange(
            start as int,
            i - 1,
        ).push(word@[i - 1]));
    }
    assert(name@ =~= word@.skip(start as int));
    if same_text(&name, "help") {
        LongOption::Apply(Options { help: true, ..options })
    } else if same_text(&name, "version") {
        LongOption::Apply(Options { version: true, ..options })
    } else if same_text(&name, "verbose") {
        LongOption::Apply(Options { verbose: true, ..options })
    } else if same_text(&name, "quiet") {
        LongOption::Apply(Options { verbose: false, ..options })
    } else if name.len() == 0 {
        LongOption::Stop
    } else {
        LongOption::Unknown
    }
}

impl Shell {
    /// A shell with the given arguments and options.
    #[must_use]
    pub fn new(args: Vec<String>, options: Options) -> (shell: Self)
        ensures
            shell.args == args,
            shell.options == options,
    {
        Shell { args, options }
    }

    /// Reads the command line of the shell: the words that begin with a dash
    /// are options, the others are arguments.
    ///
    /// Every word that begins with a dash is first read letter by letter;
    /// every word that begins with two dashes is then read as a name.
    pub fn parse_shell_options(options: Vec<String>) -> (r: Result<(Vec<String>, Options), i32>)
        ensures
            match (r, shell_options(string_views(options@))) {
                (Ok(got), Ok(expected)) => string_views(got.0@) == expected.0 && got.1
                    == expected.1,
                (Err(got), Err(expected)) => got == expected,
                _ => false,
            },
    {
        let ghost words = string_views(options@);
        let mut words_chars: Vec<Vec<char>> = Vec::new();
        let mut ret_args: Vec<String> = Vec::new();
        let mut i: usize = 0;
        assert(string_views(ret_args@) + plain_words(words, 0) =~= plain_words(words, 0));
        while i < options.len()
            invariant
                i <= options.len(),
                words == string_views(options@),
                words_chars.len() == i,
                forall|k: int| 0 <= k < i ==> (#[trigger] words_chars@[k])@ == words[k],
                plain_words(words, 0) == string_views(ret_args@) + plain_words(words, i as int),
            decreases options.len() - i,
        {
            let ghost before = ret_args@;
            let chars = chars_of(options[i].as_str());
            assert(chars@ == words[i as int]);
            if !starts_with_char(&chars, '-') {
                ret_args.push(options[i].clone());
                assert(string_views(ret_args@) + plain_words(words, i + 1) =~= string_views(before)
                    + (seq![words[i as int]] + plain_words(words, i + 1)));
            }
            words_chars.push(chars);
            i = i + 1;
        }
        assert(string_views(ret_args@) + Seq::<Seq<char>>::empty() =~= string_views(ret_args@));

        let none = Options { help: false, version: false, verbose: false };
        let mut ret_options = none;
        let mut j: usize = 0;
        while j < words_chars.len()
            invariant
                j <= words_chars.len(),
                words == string_views(options@),
                none == (Options { help: false, version: false, verbose: false }),
                words_chars.len() == words.len(),
                forall|k: int| 0 <= k < words.len() ==> (#[trigger] words_chars@[k])@ == words[k],
                apply_dashed_words(words, 0, none) == apply_dashed_words(
                    words,
                    j as int,
                    ret_options,
                ),
            decreases words_chars.len() - j,
        {
            let word = &words_chars[j];
            assert(word@ == words[j as int]);
            if starts_with_char(word, '-') {
                let start = without_dashes(word);
                match set_letters(word, start, ret_options) {
                    Some(next) => {
                        ret_options = next;
                    },
                    None => {
                        assert(apply_dashed_words(words, j as int, ret_options) is None);
                        return Err(2);
                    },
                }
            }
            j = j + 1;
        }

        let ghost lettered = ret_options;
        let mut k: usize = 0;
        let mut stopped = false;
        while k < words_chars.len() && !stopped
            invariant
                k <= words_chars.len(),
                words == string_views(options@),
                none == (Options { help: false, version: false, verbose: false }),
                apply_dashed_words(words, 0, none) == Some(lettered),
                words_chars.len() == words.len(),
                forall|n: int| 0 <= n < words.len() ==> (#[trigger] words_chars@[n])@ == words[n],
                !stopped ==> apply_long_words(words, 0, lettered) == apply_long_words(
                    words,
                    k as int,
                    ret_options,
                ),
                stopped ==> apply_long_words(words, 0, lettered) == Some(ret_options),
            decreases words_chars.len() - k,
        {
            let word = &words_chars[k];
            assert(word@ == words[k as int]);
            if word.len() >= 2 && word[0] == '-' && word[1] == '-' {
                let start = without_dash_pairs(word);
                match set_name(word, start, ret_options) {
                    LongOption::Apply(next) => {
                        ret_options = next;
                    },
                    LongOption::Stop => {
                        stopped = true;
                    },
                    LongOption::Unknown => {
                        assert(apply_long_words(words, k as int, ret_options) is None);
                        return Err(3);
                    },
                }
            }
            k = k + 1;
        }

        if ret_args.len() == 0 && !ret_options.help && !ret_options.version {
            ret_options = Options { help: true, ..ret_options };
        }
        Ok((ret_args, ret_options))
    }
}

/// What the shell does first, by its options.
#[derive(Debug, PartialEq, Eq)]
pub enum Startup {
    /// Show the help text and leave.
    Help,
    /// Show the version and leave.
    Version,
    /// Read lines and run them.
    Interactive,
}

/// What the shell does with a line it has read.
#[derive(Debug, PartialEq, Eq)]
pub enum LineAction {
    /// The line asks the shell to leave.
    Exit,
    /// Run these directives.
    Execute(Vec<ParsedToken>),
    /// Leave with this status.
    Fail(i32),
}

/// The help text of the shell, with its colours.
pub open spec fn help_text_spec() -> Seq<char> {
    "\x1b[1m\x1b[32mUsage: \x1b[0m\x1b[1mqiish [-hqVv] [file]\x1b[0m\x1b[1m\x1b[32m\n\nOptions:\n\x1b[0m\x1b[1m  -h, --help\t\t\x1b[0m Print this help message and exit.\n\x1b[1m  -q, --quiet\t\t\x1b[0m Do not print anything to stdout.\n\x1b[1m  -V, --version\t\t\x1b[0m Print the version and exit.\n\x1b[1m  -v, --verbose\t\t\x1b[0m Print debug information to stdout.\n"@
}

/// The version line of the shell, with its colours.
pub open spec fn version_text_spec() -> Seq<char> {
    "\x1b[1m\x1b[32mqiish v0.1.0\x1b[0m"@
}

/// The prompt for `user` on `host` in the directory `cwd`: the host is shown
/// without `.localdomain`.
pub open spec fn prompt_spec(user: Seq<char>, host: Seq<char>, cwd: Seq<char>) -> Seq<char> {
    user + "@"@ + without_pattern(host, 0, ".localdomain"@) + " : "@ + cwd + " $ "@
}

/// The help text of the shell, with its colours.
pub fn help_text() -> (text: String)
    ensures
        text@ == help_text_spec(),
{
    "\x1b[1m\x1b[32mUsage: \x1b[0m\x1b[1mqiish [-hqVv] [file]\x1b[0m\x1b[1m\x1b[32m\n\nOptions:\n\x1b[0m\x1b[1m  -h, --help\t\t\x1b[0m Print this help message and exit.\n\x1b[1m  -q, --quiet\t\t\x1b[0m Do not print anything to stdout.\n\x1b[1m  -V, --version\t\t\x1b[0m Print the version and exit.\n\x1b[1m  -v, --verbose\t\t\x1b[0m Print debug information to stdout.\n".to_owned()
}

/// The version line of the shell, with its colours.
pub fn version_text() -> (text: String)
    ensures
        text@ == version_text_spec(),
{
    "\x1b[1m\x1b[32mqiish v0.1.0\x1b[0m".to_owned()
}

/// The prompt for `user` on `host` in the directory `cwd`.
pub fn prompt(user: &str, host: &str, cwd: &str) -> (text: String)
    ensures
        text@ == prompt_spec(user@, host@, cwd@),
{
    let pattern = chars_of(".localdomain");
    proof {
        reveal_strlit(".localdomain");
    }
    let mut text = String::new();
    push_chars(&mut text, &chars_of(user));
    push_chars(&mut text, &chars_of("@"));
    push_without_pattern(&mut text, &chars_of(host), &pattern);
    push_chars(&mut text, &chars_of(" : "));
    push_chars(&mut text, &chars_of(cwd));
    push_chars(&mut text, &chars_of(" $ "));
    assert(text@ =~= prompt_spec(user@, host@, cwd@));
    text
}

impl Shell {
    /// What the shell does first: help and version together are refused with
    /// status `1`; else help goes before version, and version before reading
    /// lines.
    pub fn start(&self) -> (r: Result<Startup, i32>)
        ensures
            r == if self.options.help && self.options.version {
                Err::<Startup, i32>(1i32)
            } else if self.options.help {
                Ok(Startup::Help)
            } else if self.options.version {
                Ok(Startup::Version)
            } else {
                Ok(Startup::Interactive)
            },
    {
        if self.options.help && self.options.version {
            Err(1)
        } else if self.options.help {
            Ok(Startup::Help)
        } else if self.options.version {
            Ok(Startup::Version)
        } else {
            Ok(Startup::Interactive)
        }
    }

    /// What the shell does with the line `input`: `exit`, with any whitespace
    /// around it, ends the shell; every other line is lexed and parsed, and its
    /// directives are to be run.
    pub fn on_line(&self, input: &str) -> (r: LineAction)
        ensures
            trimmed(input@) == "exit"@ ==> r == LineAction::Exit,
            trimmed(input@) != "exit"@ ==> r is Execute && directive_views(r->Execute_0@)
                == parse_spec(lex_spec(input@)),
    {
        let chars = chars_of(input);
        let (start, end) = trim_bounds(&chars);
        let mut word: Vec<char> = Vec::new();
        let mut i: usize = start;
        while i < end
            invariant
                start <= i <= end <= chars.len(),
                word@ == chars@.subrange(start as int, i as int),
            decreases end - i,
        {
            word.push(chars[i]);
            i = i + 1;
            assert(chars@.subrange(start as int, i as int) =~= chars@.subrange(
                start as int,
                i - 1,
            ).push(chars@[i - 1]));
        }
        if same_text(&word, "exit") {
            return LineAction::Exit;
        }
        let tokens = match lex(input, self.options) {
            (0, tokens) => tokens,
            (status, _) => {
                return LineAction::Fail(status);
            },
        };
        match parse(tokens, self.options) {
            (0, parsed) => LineAction::Execute(parsed),
            (status, _) => LineAction::Fail(status),
        }
    }
}


/// Whether `text` holds no ASCII capital letter.
pub open spec fn has_no_ascii_capital(text: Seq<char>) -> bool {
    forall|k: int| 0 <= k < text.len() ==> !('A' <= #[trigger] text[k] && text[k] <= 'Z')
}

/// `whoami::username`: the name of the user that the process runs as. It is
/// what the system says, so nothing is claimed of it.
#[verifier::external_body]
fn user_name() -> (name: String) {
    whoami::username()
}

/// `whoami::hostname`: the name of the host, which the function hands out in
/// ASCII lower case. Nothing else is claimed of it.
#[verifier::external_body]
fn host_name() -> (name: String)
    ensures
        has_no_ascii_capital(name@),
{
    #[allow(deprecated)]
    let name = whoami::hostname();
    name
}

impl Shell {
    /// The prompt of the shell in the directory `cwd`, for the user and the
    /// host that the system names.
    pub fn prompt_in(&self, cwd: &str) -> (text: String)
        ensures
            exists|user: Seq<char>, host: Seq<char>|
                has_no_ascii_capital(host) && text@ == #[trigger] prompt_spec(user, host, cwd@),
    {
        let host = host_name();
        let user = user_name();
        prompt(user.as_str(), host.as_str(), cwd)
    }
}


} // verus!
