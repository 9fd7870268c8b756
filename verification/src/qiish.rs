use vstd::prelude::*;
use crate::text::{
    begins_with, chars_of, is_whitespace, is_whitespace_char, lemma_piece_end_bounds, piece_end,
    push_chars, same_text, skip_whitespace, starts_with_char, string_of, string_views, trim_bounds,
    trimmed,
};

verus! {

/// The state of the shell with built-in commands: where it is, and where
/// home is. Paths are held as text.
#[derive(Debug, Clone, PartialEq, Eq)]
pub struct Qiish {
    /// The file that holds the variables of the shell.
    pub qiishenv: String,
    /// The current working directory.
    pub cwd: String,
    /// The home directory, which `~` stands for.
    pub homedir: String,
}

impl Qiish {
    /// A shell that starts in the home directory `home_dir` and reads its
    /// variables from the file `qiishenv`.
    pub fn at_home(home_dir: String, qiishenv: String) -> (shell: Self)
        ensures
            shell.cwd@ == home_dir@,
            shell.homedir@ == home_dir@,
            shell.qiishenv@ == qiishenv@,
    {
        Qiish { qiishenv, cwd: home_dir.clone(), homedir: home_dir }
    }
}

/// The commands that the shell carries out itself.
#[derive(Debug, Clone, Copy, PartialEq, Eq)]
pub enum Builtin {
    /// The empty command: nothing happens.
    Nothing,
    Help,
    Exit,
    Cd,
    Ls,
    Clear,
    Mkdir,
    Rm,
    /// `rmdir`: `rm` with `-r` put in front of the arguments.
    Rmdir,
    Cat,
    Echo,
    Pwd,
    Cp,
    /// No command of the shell.
    Unknown,
}

/// The built-in command that `name` names.
pub open spec fn builtin_spec(name: Seq<char>) -> Builtin {
    if name == ""@ {
        Builtin::Nothing
    } else if name == "help"@ {
        Builtin::Help
    } else if name == "exit"@ {
        Builtin::Exit
    } else if name == "cd"@ {
        Builtin::Cd
    } else if name == "ls"@ {
        Builtin::Ls
    } else if name == "clear"@ {
        Builtin::Clear
    } else if name == "mkdir"@ {
        Builtin::Mkdir
    } else if name == "rm"@ {
        Builtin::Rm
    } else if name == "rmdir"@ {
        Builtin::Rmdir
    } else if name == "cat"@ {
        Builtin::Cat
    } else if name == "echo"@ {
        Builtin::Echo
    } else if name == "pwd"@ {
        Builtin::Pwd
    } else if name == "cp"@ {
        Builtin::Cp
    } else {
        Builtin::Unknown
    }
}

/// The built-in command that `name` names.
pub fn builtin_of(name: &str) -> (r: Builtin)
    ensures
        r == builtin_spec(name@),
{
    let chars = chars_of(name);
    if same_text(&chars, "") {
        Builtin::Nothing
    } else if same_text(&chars, "help") {
        Builtin::Help
    } else if same_text(&chars, "exit") {
        Builtin::Exit
    } else if same_text(&chars, "cd") {
        Builtin::Cd
    } else if same_text(&chars, "ls") {
        Builtin::Ls
    } else if same_text(&chars, "clear") {
        Builtin::Clear
    } else if same_text(&chars, "mkdir") {
        Builtin::Mkdir
    } else if same_text(&chars, "rm") {
        Builtin::Rm
    } else if same_text(&chars, "rmdir") {
        Builtin::Rmdir
    } else if same_text(&chars, "cat") {
        Builtin::Cat
    } else if same_text(&chars, "echo") {
        Builtin::Echo
    } else if same_text(&chars, "pwd") {
        Builtin::Pwd
    } else if same_text(&chars, "cp") {
        Builtin::Cp
    } else {
        Builtin::Unknown
    }
}

/// Whether the shell leaves after the command: only `exit` ends it.
pub fn ends_shell(command: Builtin) -> (leave: bool)
    ensures
        leave == (command == Builtin::Exit),
{
    match command {
        Builtin::Exit => true,
        _ => false,
    }
}

/// What the shell says of the exit code of a command.
#[derive(Debug, Clone, Copy, PartialEq, Eq)]
pub enum ExitReport {
    /// A code above zero: the program ended with an error.
    Error,
    /// A code below `-1`: the program ended with an irregular error.
    Irregular,
    /// `0` or `-1`: nothing is said.
    Silent,
}

/// What the shell says of the exit code `code`.
pub fn exit_report(code: i16) -> (r: ExitReport)
    ensures
        r == (if code > 0 {
            ExitReport::Error
        } else if code < -1 {
            ExitReport::Irregular
        } else {
            ExitReport::Silent
        }),
{
    if code > 0 {
        ExitReport::Error
    } else if code < -1 {
        ExitReport::Irregular
    } else {
        ExitReport::Silent
    }
}

/// The arguments `args[i..]`, each followed by a space.
pub open spec fn echoed(args: Seq<Seq<char>>, i: int) -> Seq<char>
    decreases args.len() - i,
{
    if !(0 <= i < args.len()) {
        Seq::empty()
    } else {
        args[i] + seq![' '] + echoed(args, i + 1)
    }
}

/// What `echo` prints for its arguments: each of them followed by a space.
pub fn echo_text(args: &Vec<String>) -> (text: String)
    ensures
        text@ == echoed(string_views(args@), 0),
{
    let ghost words = string_views(args@);
    let mut text = String::new();
    let mut i: usize = 0;
    assert(text@ + echoed(words, 0) =~= echoed(words, 0));
    while i < args.len()
        invariant
            i <= args.len(),
            words == string_views(args@),
            echoed(words, 0) == text@ + echoed(words, i as int),
        decreases args.len() - i,
    {
        let ghost before = text@;
        push_chars(&mut text, &chars_of(args[i].as_str()));
        text.push(' ');
        assert(text@ + echoed(words, i + 1) =~= before + (words[i as int] + seq![' '] + echoed(
            words,
            i + 1,
        )));
        i = i + 1;
    }
    assert(text@ + Seq::<char>::empty() =~= text@);
    text
}

/// What `mkdir` makes of the number of its arguments.
#[derive(Debug, Clone, Copy, PartialEq, Eq)]
pub enum MkdirCheck {
    /// No argument: one is required.
    NoArgument,
    /// More than one argument: exactly one is required.
    TooMany,
    /// One argument: the directory to make.
    Ready,
}

/// What `mkdir` makes of `count` arguments.
pub fn mkdir_check(count: usize) -> (r: MkdirCheck)
    ensures
        r == (if count == 0 {
            MkdirCheck::NoArgument
        } else if count > 1 {
            MkdirCheck::TooMany
        } else {
            MkdirCheck::Ready
        }),
{
    if count == 0 {
        MkdirCheck::NoArgument
    } else if count > 1 {
        MkdirCheck::TooMany
    } else {
        MkdirCheck::Ready
    }
}

/// The status of `mkdir` for a path: `-1` where something is there already,
/// and the directory is not made; else `0`, whether making it goes well or not.
pub fn mkdir_status(present: bool) -> (status: i16)
    ensures
        status == (if present {
            -1i16
        } else {
            0i16
        }),
{
    if present {
        -1
    } else {
        0
    }
}

/// The status of `cd` for a path: `-1` where it is a file, and the shell
/// stays where it is; else `0`, and the shell moves there.
pub fn cd_status(is_file: bool) -> (status: i16)
    ensures
        status == (if is_file {
            -1i16
        } else {
            0i16
        }),
{
    if is_file {
        -1
    } else {
        0
    }
}

/// Where a path that a command names starts from.
#[derive(Debug, Clone, PartialEq, Eq)]
pub enum PathBase {
    /// The path begins with a slash: it is taken as it is.
    Absolute,
    /// The path begins with a tilde: what follows the tilde is joined to the
    /// home directory.
    Home(String),
    /// Any other path is joined to the working directory.
    Relative,
}

/// A [`PathBase`] as plain mathematics.
pub enum PathBaseView {
    Absolute,
    Home(Seq<char>),
    Relative,
}

impl View for PathBase {
    type V = PathBaseView;

    open spec fn view(&self) -> PathBaseView {
        match self {
            PathBase::Absolute => PathBaseView::Absolute,
            PathBase::Home(rest) => PathBaseView::Home(rest@),
            PathBase::Relative => PathBaseView::Relative,
        }
    }
}

/// Where the path `path` starts from.
pub open spec fn path_base_spec(path: Seq<char>) -> PathBaseView {
    if begins_with(path, '/') {
        PathBaseView::Absolute
    } else if begins_with(path, '~') {
        PathBaseView::Home(path.skip(1))
    } else {
        PathBaseView::Relative
    }
}

/// Where the path `path` starts from.
pub fn path_base(path: &str) -> (r: PathBase)
    ensures
        r@ == path_base_spec(path@),
{
    let chars = chars_of(path);
    if starts_with_char(&chars, '/') {
        PathBase::Absolute
    } else if starts_with_char(&chars, '~') {
        let rest = string_of(&chars, 1, chars.len());
        assert(chars@.subrange(1, chars.len() as int) =~= chars@.skip(1));
        PathBase::Home(rest)
    } else {
        PathBase::Relative
    }
}

/// The path that `cd` goes to: its first argument, or the home directory
/// (`~`) where it has none.
pub fn cd_target(args: &Vec<String>) -> (target: String)
    ensures
        target@ == (if args@.len() == 0 {
            "~"@
        } else {
            args@[0]@
        }),
{
    if args.len() == 0 {
        "~".to_owned()
    } else {
        args[0].clone()
    }
}

/// The end of the word of `text` that starts at `i`: the position of the
/// first whitespace from `i` on, or the length of `text`.
pub open spec fn word_stop(text: Seq<char>, i: int) -> int
    decreases text.len() - i,
{
    if 0 <= i < text.len() && !is_whitespace(text[i]) {
        word_stop(text, i + 1)
    } else {
        i
    }
}

/// Whitespace and words end at or after their start, within the text.
pub proof fn lemma_word_bounds(text: Seq<char>, i: int)
    requires
        0 <= i <= text.len(),
    ensures
        i <= skip_whitespace(text, i) <= text.len(),
        i <= word_stop(text, i) <= text.len(),
        i < text.len() && !is_whitespace(text[i]) ==> i < word_stop(text, i),
        skip_whitespace(text, i) < text.len() ==> !is_whitespace(text[skip_whitespace(text, i)]),
    decreases text.len() - i,
{
    if i < text.len() {
        lemma_word_bounds(text, i + 1);
    }
}

/// The words of `text[i..]`: its maximal runs of characters that are no
/// whitespace, in order.
pub open spec fn whitespace_words(text: Seq<char>, i: int) -> Seq<Seq<char>>
    decreases text.len() - i,
{
    if !(0 <= i <= text.len()) {
        Seq::empty()
    } else {
        proof {
            lemma_word_bounds(text, i);
            lemma_word_bounds(text, skip_whitespace(text, i));
        }
        let start = skip_whitespace(text, i);
        if start >= text.len() {
            Seq::empty()
        } else {
            seq![text.subrange(start, word_stop(text, start))] + whitespace_words(
                text,
                word_stop(text, start),
            )
        }
    }
}

/// The name of the command on the line `line`: what stands before the first
/// space, without the whitespace around it.
pub open spec fn command_name(line: Seq<char>) -> Seq<char> {
    trimmed(line.subrange(0, piece_end(line, 0, ' ')))
}

/// The arguments of the command on the line `line`: the words after the first
/// space.
pub open spec fn command_args(line: Seq<char>) -> Seq<Seq<char>> {
    if piece_end(line, 0, ' ') >= line.len() {
        Seq::empty()
    } else {
        whitespace_words(line, piece_end(line, 0, ' ') + 1)
    }
}

fn words_from(text: &Vec<char>, from: usize) -> (words: Vec<String>)
    requires
        from <= text.len(),
    ensures
        string_views(words@) == whitespace_words(text@, from as int),
{
    let mut words: Vec<String> = Vec::new();
    let mut i: usize = from;
    let mut done = false;
    assert(string_views(words@) + whitespace_words(text@, from as int) =~= whitespace_words(
        text@,
        from as int,
    ));
    while !done
        invariant
            i <= text.len(),
            !done ==> whitespace_words(text@, from as int) == string_views(words@)
                + whitespace_words(text@, i as int),
            done ==> whitespace_words(text@, from as int) == string_views(words@),
        decreases
                if done {
                    0
                } else {
                    text.len() - i + 1
                },
    {
        let ghost before = words@;
        let ghost at = i;
        let mut start: usize = i;
        while start < text.len() && is_whitespace_char(text[start])
            invariant
                i <= start <= text.len(),
                skip_whitespace(text@, i as int) == skip_whitespace(text@, start as int),
            decreases text.len() - start,
        {
            start = start + 1;
        }
        if start >= text.len() {
            done = true;
            assert(string_views(words@) + Seq::<Seq<char>>::empty() =~= string_views(words@));
        } else {
            let mut stop: usize = start;
            while stop < text.len() && !is_whitespace_char(text[stop])
                invariant
                    start <= stop <= text.len(),
                    word_stop(text@, start as int) == word_stop(text@, stop as int),
                decreases text.len() - stop,
            {
                stop = stop + 1;
            }
            proof {
                lemma_word_bounds(text@, start as int);
            }
            let word = string_of(text, start, stop);
            words.push(word);
            assert(string_views(words@) + whitespace_words(text@, stop as int) =~= string_views(
                before,
            ) + (seq![word@] + whitespace_words(text@, stop as int)));
            i = stop;
        }
    }
    words
}

/// Splits the line `line` into the name of a command and its arguments.
pub fn split_command(line: &str) -> (r: (String, Vec<String>))
    ensures
        r.0@ == command_name(line@),
        string_views(r.1@) == command_args(line@),
{
    let chars = chars_of(line);
    let mut space: usize = 0;
    while space < chars.len() && chars[space] != ' '
        invariant
            space <= chars.len(),
            piece_end(chars@, 0, ' ') == piece_end(chars@, space as int, ' '),
        decreases chars.len() - space,
    {
        space = space + 1;
    }
    let mut before: Vec<char> = Vec::new();
    let mut i: usize = 0;
    while i < space
        invariant
            i <= space <= chars.len(),
            before@ == chars@.subrange(0, i as int),
        decreases space - i,
    {
        before.push(chars[i]);
        i = i + 1;
        assert(chars@.subrange(0, i as int) =~= chars@.subrange(0, i - 1).push(chars@[i - 1]));
    }
    let (start, end) = trim_bounds(&before);
    let name = string_of(&before, start, end);
    let args = if space >= chars.len() {
        let none: Vec<String> = Vec::new();
        assert(string_views(none@) =~= Seq::<Seq<char>>::empty());
        none
    } else {
        words_from(&chars, space + 1)
    };
    (name, args)
}

/// A line without the carriage return at its end, if it has one.
pub open spec fn without_return(line: Seq<char>) -> Seq<char> {
    if line.len() > 0 && line.last() == '\r' {
        line.drop_last()
    } else {
        line
    }
}

/// The name and the value that the line `line` gives: what stands before its
/// first `=` and what stands after it. `None` where the line has no `=`.
pub open spec fn pair_of(line: Seq<char>) -> Option<(Seq<char>, Seq<char>)> {
    if piece_end(line, 0, '=') >= line.len() {
        None
    } else {
        Some(
            (
                line.subrange(0, piece_end(line, 0, '=')),
                line.subrange(piece_end(line, 0, '=') + 1, line.len() as int),
            ),
        )
    }
}

/// The lines of `text[i..]`. A line ends with a newline, or with a carriage
/// return and a newline, neither of which belongs to it; the last line need
/// not end at all.
pub open spec fn lines_from(text: Seq<char>, i: int) -> Seq<Seq<char>>
    decreases text.len() - i,
{
    if !(0 <= i < text.len()) {
        Seq::empty()
    } else {
        proof {
            lemma_piece_end_bounds(text, i, '\n');
        }
        let end = piece_end(text, i, '\n');
        if end >= text.len() {
            seq![text.subrange(i, text.len() as int)]
        } else {
            seq![without_return(text.subrange(i, end))] + lines_from(text, end + 1)
        }
    }
}

/// The names and values that the lines `lines[i..]` give, in order; `None`
/// where one of them has no `=`.
pub open spec fn pairs_of(lines: Seq<Seq<char>>, i: int) -> Option<Seq<(Seq<char>, Seq<char>)>>
    decreases lines.len() - i,
{
    if !(0 <= i < lines.len()) {
        Some(Seq::empty())
    } else {
        match (pair_of(lines[i]), pairs_of(lines, i + 1)) {
            (Some(pair), Some(rest)) => Some(seq![pair] + rest),
            _ => None,
        }
    }
}

/// The views of a sequence of pairs of strings, in order.
pub open spec fn pair_views(pairs: Seq<(String, String)>) -> Seq<(Seq<char>, Seq<char>)> {
    pairs.map_values(|p: (String, String)| (p.0@, p.1@))
}

/// The views of a sequence of vectors of characters, in order.
pub open spec fn char_views(lines: Seq<Vec<char>>) -> Seq<Seq<char>> {
    lines.map_values(|l: Vec<char>| l@)
}

/// The lines of `text`, as vectors of characters.
pub fn lines_of(text: &str) -> (lines: Vec<Vec<char>>)
    ensures
        char_views(lines@) == lines_from(text@, 0),
{
    let chars = chars_of(text);
    let mut lines: Vec<Vec<char>> = Vec::new();
    let mut i: usize = 0;
    assert(char_views(lines@) + lines_from(chars@, 0) =~= lines_from(chars@, 0));
    while i < chars.len()
        invariant
            i <= chars.len(),
            lines_from(chars@, 0) == char_views(lines@) + lines_from(
                chars@,
                i as int,
            ),
        decreases chars.len() - i,
    {
        let ghost before = lines@;
        let mut end: usize = i;
        while end < chars.len() && chars[end] != '\n'
            invariant
                i <= end <= chars.len(),
                piece_end(chars@, i as int, '\n') == piece_end(chars@, end as int, '\n'),
            decreases chars.len() - end,
        {
            end = end + 1;
        }
        let mut stop: usize = end;
        if end < chars.len() && end > i && chars[end - 1] == '\r' {
            stop = end - 1;
        }
        let mut line: Vec<char> = Vec::new();
        let mut k: usize = i;
        while k < stop
            invariant
                i <= k <= stop <= chars.len(),
                line@ == chars@.subrange(i as int, k as int),
            decreases stop - k,
        {
            line.push(chars[k]);
            k = k + 1;
            assert(chars@.subrange(i as int, k as int) =~= chars@.subrange(i as int, k - 1).push(
                chars@[k - 1],
            ));
        }
        proof {
            let whole = chars@.subrange(i as int, end as int);
            if end < chars.len() {
                if end > i && chars@[end - 1] == '\r' {
                    assert(whole.last() == '\r');
                    assert(line@ =~= whole.drop_last());
                } else {
                    assert(line@ =~= without_return(whole));
                }
            }
        }
        lines.push(line);
        if end >= chars.len() {
            assert(char_views(lines@) =~= char_views(before) + seq![line@]);
            i = chars.len();
        } else {
            assert(char_views(lines@) + lines_from(chars@, end + 1) =~= char_views(before) + (seq![line@] + lines_from(chars@, end + 1)));
            i = end + 1;
        }
    }
    assert(char_views(lines@) + Seq::<Seq<char>>::empty() =~= char_views(lines@));
    lines
}

/// `head` put in front of the pairs `rest`, where there are any.
pub open spec fn after_pairs(
    head: Seq<(Seq<char>, Seq<char>)>,
    rest: Option<Seq<(Seq<char>, Seq<char>)>>,
) -> Option<Seq<(Seq<char>, Seq<char>)>> {
    match rest {
        Some(r) => Some(head + r),
        None => None,
    }
}

/// The variables that the text of an environment file sets: for each line
/// the name before its first `=` and the value after it, in order. `None`
/// where a line has no `=`.
pub fn env_pairs(contents: &str) -> (r: Option<Vec<(String, String)>>)
    ensures
        match (r, pairs_of(lines_from(contents@, 0), 0)) {
            (Some(found), Some(expected)) => pair_views(found@) == expected,
            (None, None) => true,
            _ => false,
        },
{
    let lines = lines_of(contents);
    let ghost texts = lines_from(contents@, 0);
    let mut found: Vec<(String, String)> = Vec::new();
    let mut i: usize = 0;
    assert(after_pairs(pair_views(found@), pairs_of(texts, 0)) =~= pairs_of(texts, 0)) by {
        if let Some(r) = pairs_of(texts, 0) {
            assert(pair_views(found@) + r =~= r);
        }
    }
    while i < lines.len()
        invariant
            i <= lines.len(),
            char_views(lines@) == texts,
            texts == lines_from(contents@, 0),
            pairs_of(texts, 0) == after_pairs(pair_views(found@), pairs_of(texts, i as int)),
        decreases lines.len() - i,
    {
        let ghost before = found@;
        let line = &lines[i];
        assert(line@ == texts[i as int]);
        let mut eq: usize = 0;
        while eq < line.len() && line[eq] != '='
            invariant
                eq <= line.len(),
                piece_end(line@, 0, '=') == piece_end(line@, eq as int, '='),
            decreases line.len() - eq,
        {
            eq = eq + 1;
        }
        if eq >= line.len() {
            assert(pair_of(texts[i as int]) is None);
            return None;
        }
        let name = string_of(line, 0, eq);
        let value = string_of(line, eq + 1, line.len());
        found.push((name, value));
        proof {
            if let Some(rest) = pairs_of(texts, i + 1) {
                assert(pair_views(found@) + rest =~= pair_views(before) + (seq![(name@, value@)]
                    + rest));
            }
        }
        i = i + 1;
    }
    assert(pair_views(found@) + Seq::<(Seq<char>, Seq<char>)>::empty() =~= pair_views(found@));
    Some(found)
}

/// The value that the pairs `pairs[i..]` give the variable `name`, where a
/// later pair goes before an earlier one; `current` where none names it.
pub open spec fn value_spec(
    pairs: Seq<(Seq<char>, Seq<char>)>,
    i: int,
    name: Seq<char>,
    current: Option<Seq<char>>,
) -> Option<Seq<char>>
    decreases pairs.len() - i,
{
    if !(0 <= i < pairs.len()) {
        current
    } else if pairs[i].0 == name {
        value_spec(pairs, i + 1, name, Some(pairs[i].1))
    } else {
        value_spec(pairs, i + 1, name, current)
    }
}

/// The value of the variable `name` among `pairs`: that of the last pair that
/// names it.
pub fn value_of(pairs: &Vec<(String, String)>, name: &str) -> (r: Option<String>)
    ensures
        match (r, value_spec(pair_views(pairs@), 0, name@, None)) {
            (Some(found), Some(expected)) => found@ == expected,
            (None, None) => true,
            _ => false,
        },
{
    let wanted = name.to_owned();
    let ghost views = pair_views(pairs@);
    let mut found: Option<String> = None;
    let mut i: usize = 0;
    while i < pairs.len()
        invariant
            i <= pairs.len(),
            views == pair_views(pairs@),
            wanted@ == name@,
            value_spec(views, 0, name@, None) == value_spec(views, i as int, name@, match found {
                Some(f) => Some(f@),
                None => None,
            }),
        decreases pairs.len() - i,
    {
        assert(views[i as int] == (pairs@[i as int].0@, pairs@[i as int].1@));
        if pairs[i].0 == wanted {
            found = Some(pairs[i].1.clone());
        }
        i = i + 1;
    }
    found
}


/// The character of the decimal digit `d`.
pub open spec fn digit(d: int) -> char {
    if d == 0 {
        '0'
    } else if d == 1 {
        '1'
    } else if d == 2 {
        '2'
    } else if d == 3 {
        '3'
    } else if d == 4 {
        '4'
    } else if d == 5 {
        '5'
    } else if d == 6 {
        '6'
    } else if d == 7 {
        '7'
    } else if d == 8 {
        '8'
    } else {
        '9'
    }
}

/// The number `n` in decimal digits, without leading zeros.
pub open spec fn decimal(n: nat) -> Seq<char>
    decreases n,
{
    if n < 10 {
        seq![digit(n as int)]
    } else {
        decimal(n / 10).push(digit((n % 10) as int))
    }
}

fn digit_char(d: u8) -> (c: char)
    requires
        d < 10,
    ensures
        c == digit(d as int),
{
    if d == 0 {
        '0'
    } else if d == 1 {
        '1'
    } else if d == 2 {
        '2'
    } else if d == 3 {
        '3'
    } else if d == 4 {
        '4'
    } else if d == 5 {
        '5'
    } else if d == 6 {
        '6'
    } else if d == 7 {
        '7'
    } else if d == 8 {
        '8'
    } else {
        '9'
    }
}

fn push_decimal(out: &mut String, n: u8)
    ensures
        final(out)@ == old(out)@ + decimal(n as nat),
{
    let ghost before = out@;
    if n >= 100 {
        out.push(digit_char(n / 100));
    }
    if n >= 10 {
        out.push(digit_char((n / 10) % 10));
    }
    out.push(digit_char(n % 10));
    proof {
        reveal_with_fuel(decimal, 3);
        assert(out@ =~= before + decimal(n as nat));
    }
}

/// The prompt of the shell: the computer, the user, the code the shell was
/// entered with, and the directory it is in.
pub open spec fn prompt_spec(
    computer: Seq<char>,
    user: Seq<char>,
    entrance_code: u8,
    cwd: Seq<char>,
) -> Seq<char> {
    computer + seq!['#'] + user + seq!['@'] + decimal(entrance_code as nat) + seq![' '] + cwd
        + seq![' ', '%', ' ']
}

/// The prompt of the shell.
pub fn prompt(computer: &str, user: &str, entrance_code: u8, cwd: &str) -> (text: String)
    ensures
        text@ == prompt_spec(computer@, user@, entrance_code, cwd@),
{
    let mut text = String::new();
    push_chars(&mut text, &chars_of(computer));
    text.push('#');
    push_chars(&mut text, &chars_of(user));
    text.push('@');
    push_decimal(&mut text, entrance_code);
    text.push(' ');
    push_chars(&mut text, &chars_of(cwd));
    text.push(' ');
    text.push('%');
    text.push(' ');
    assert(text@ =~= prompt_spec(computer@, user@, entrance_code, cwd@));
    text
}

/// The names that the prompt shows for the computer and for the user. Both
/// are read from the variable `computername`; where it is not set, the
/// computer is `comp_name_unk` and the user is `user_name_unk`.
pub fn prompt_names(pairs: &Vec<(String, String)>) -> (r: (String, String))
    ensures
        r.0@ == match value_spec(pair_views(pairs@), 0, "computername"@, None) {
            Some(name) => name,
            None => "comp_name_unk"@,
        },
        r.1@ == match value_spec(pair_views(pairs@), 0, "computername"@, None) {
            Some(name) => name,
            None => "user_name_unk"@,
        },
{
    let computer = match value_of(pairs, "computername") {
        Some(name) => name,
        None => "comp_name_unk".to_owned(),
    };
    let user = match value_of(pairs, "computername") {
        Some(name) => name,
        None => "user_name_unk".to_owned(),
    };
    (computer, user)
}


} // verus!
