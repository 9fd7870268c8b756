use vstd::prelude::*;
use crate::lex::{lex, lex_input};
use crate::options::Options;
use crate::parse::{parse, ParsedToken, ParsedTokenView};
use crate::text::{
    chars_of, lemma_piece_end_bounds, piece_end, pieces, push_chars, same_text, string_views,
};

verus! {

/// Lexes and parses `infile`, the text of a script or a line, and returns the
/// status of the first stage that fails; `0` when none does. No stage fails on
/// any text, so the status is always `0`.
pub fn run(infile: &str, options: Options) -> (status: i32)
    ensures
        status == 0,
{
    let tokens = match lex(infile, options) {
        (0, tokens) => tokens,
        (status, _) => {
            return status;
        },
    };
    match parse(tokens, options) {
        (0, _) => 0,
        (status, _) => status,
    }
}

/// Lexes and parses what was read of a file, and returns the status of the
/// first stage that fails: `1` for a file that could not be read (`None`),
/// else `0`.
pub fn run_input(contents: Option<&str>, options: Options) -> (status: i32)
    ensures
        status == (if contents is None {
            1i32
        } else {
            0i32
        }),
{
    let tokens = match lex_input(contents, options) {
        (0, tokens) => tokens,
        (status, _) => {
            return status;
        },
    };
    match parse(tokens, options) {
        (0, _) => 0,
        (status, _) => status,
    }
}

/// How a directive is to be carried out.
#[derive(Debug, PartialEq, Eq)]
pub enum Launch {
    /// The built-in listing, with the command's arguments.
    List(Vec<String>),
    /// A program to be found on the search path, with its arguments.
    Program(String, Vec<String>),
    /// The directive is no command; nothing is run.
    Invalid,
}

/// A [`Launch`] as plain mathematics.
pub enum LaunchView {
    List(Seq<Seq<char>>),
    Program(Seq<char>, Seq<Seq<char>>),
    Invalid,
}

impl View for Launch {
    type V = LaunchView;

    open spec fn view(&self) -> LaunchView {
        match self {
            Launch::List(args) => LaunchView::List(string_views(args@)),
            Launch::Program(name, args) => LaunchView::Program(name@, string_views(args@)),
            Launch::Invalid => LaunchView::Invalid,
        }
    }
}

/// How the directive `d` is to be carried out: the command `ls` is built in,
/// every other command is a program, and what is no command is not run.
pub open spec fn launch_spec(d: ParsedTokenView) -> LaunchView {
    match d {
        ParsedTokenView::Command(name, args) => if name == "ls"@ {
            LaunchView::List(args)
        } else {
            LaunchView::Program(name, args)
        },
        _ => LaunchView::Invalid,
    }
}

/// How `directive` is to be carried out.
pub fn launch_of(directive: ParsedToken) -> (r: Launch)
    ensures
        r@ == launch_spec(directive@),
{
    match directive {
        ParsedToken::Command(name, args) => {
            let chars = chars_of(name.as_str());
            if same_text(&chars, "ls") {
                Launch::List(args)
            } else {
                Launch::Program(name, args)
            }
        },
        _ => Launch::Invalid,
    }
}

/// The status of a program that was looked for and, if found, run: `127`
/// when it was not found, its exit code when it gave one, `1` when it ended
/// without one.
pub fn program_status(found: bool, code: Option<i32>) -> (status: i32)
    ensures
        status == if !found {
            127
        } else {
            match code {
                Some(c) => c,
                None => 1,
            }
        },
{
    if !found {
        127
    } else {
        match code {
            Some(c) => c,
            None => 1,
        }
    }
}

/// Where a program named `command` may lie: for each directory of the search
/// path `path`, in order, the directory, a slash and the name.
pub open spec fn candidates(path: Seq<char>, command: Seq<char>) -> Seq<Seq<char>> {
    pieces(path, 0, ':').map_values(|dir: Seq<char>| dir + seq!['/'] + command)
}

/// Where a program named `command` may lie, by the search path `path`, whose
/// directories are separated by colons. The first of these that exists is the
/// program.
pub fn candidate_paths(path: &str, command: &str) -> (r: Vec<String>)
    ensures
        string_views(r@) == candidates(path@, command@),
{
    let text = chars_of(path);
    let name = chars_of(command);
    let mut found: Vec<String> = Vec::new();
    let mut start: usize = 0;
    let mut done = false;
    assert(string_views(found@) + candidates_from(text@, 0, name@) =~= candidates_from(
        text@,
        0,
        name@,
    ));
    while !done
        invariant
            start <= text.len(),
            !done ==> candidates_from(text@, 0, name@) == string_views(found@) + candidates_from(
                text@,
                start as int,
                name@,
            ),
            done ==> candidates_from(text@, 0, name@) == string_views(found@),
        decreases
                if done {
                    0
                } else {
                    text.len() - start + 1
                },
    {
        let ghost before = found@;
        let mut end: usize = start;
        while end < text.len() && text[end] != ':'
            invariant
                start <= end <= text.len(),
                piece_end(text@, start as int, ':') == piece_end(text@, end as int, ':'),
            decreases text.len() - end,
        {
            end = end + 1;
        }
        let mut candidate = crate::text::string_of(&text, start, end);
        candidate.push('/');
        push_chars(&mut candidate, &name);
        found.push(candidate);
        proof {
            let dir = text@.subrange(start as int, end as int);
            assert(candidate@ =~= dir + seq!['/'] + name@);
            lemma_candidates_from_step(text@, start as int, name@);
        }
        if end >= text.len() {
            done = true;
            assert(string_views(found@) =~= string_views(before) + seq![candidate@]);
        } else {
            assert(string_views(found@) + candidates_from(text@, end + 1, name@) =~= string_views(
                before,
            ) + (seq![candidate@] + candidates_from(text@, end + 1, name@)));
            start = end + 1;
        }
    }
    proof {
        lemma_candidates_from_all(text@, name@);
    }
    found
}

/// The candidates for the directories of `path[i..]`.
spec fn candidates_from(path: Seq<char>, i: int, command: Seq<char>) -> Seq<Seq<char>>
    decreases path.len() - i,
{
    if !(0 <= i <= path.len()) {
        Seq::empty()
    } else {
        proof {
            lemma_piece_end_bounds(path, i, ':');
        }
        let end = piece_end(path, i, ':');
        if end >= path.len() {
            seq![path.subrange(i, path.len() as int) + seq!['/'] + command]
        } else {
            seq![path.subrange(i, end) + seq!['/'] + command] + candidates_from(
                path,
                end + 1,
                command,
            )
        }
    }
}

proof fn lemma_candidates_from_step(path: Seq<char>, i: int, command: Seq<char>)
    requires
        0 <= i <= path.len(),
    ensures
        candidates_from(path, i, command) == if piece_end(path, i, ':') >= path.len() {
            seq![path.subrange(i, path.len() as int) + seq!['/'] + command]
        } else {
            seq![path.subrange(i, piece_end(path, i, ':')) + seq!['/'] + command]
                + candidates_from(path, piece_end(path, i, ':') + 1, command)
        },
        i <= piece_end(path, i, ':') <= path.len(),
{
    lemma_piece_end_bounds(path, i, ':');
}

proof fn lemma_candidates_from_pieces(path: Seq<char>, i: int, command: Seq<char>)
    requires
        0 <= i <= path.len(),
    ensures
        candidates_from(path, i, command) == pieces(path, i, ':').map_values(
            |dir: Seq<char>| dir + seq!['/'] + command,
        ),
    decreases path.len() - i,
{
    lemma_piece_end_bounds(path, i, ':');
    let end = piece_end(path, i, ':');
    let join = |dir: Seq<char>| dir + seq!['/'] + command;
    if end < path.len() {
        lemma_candidates_from_pieces(path, end + 1, command);
        assert(pieces(path, i, ':').map_values(join) =~= seq![
            path.subrange(i, end) + seq!['/'] + command,
        ] + pieces(path, end + 1, ':').map_values(join));
    } else {
        assert(pieces(path, i, ':').map_values(join) =~= seq![
            path.subrange(i, path.len() as int) + seq!['/'] + command,
        ]);
    }
}

proof fn lemma_candidates_from_all(path: Seq<char>, command: Seq<char>)
    ensures
        candidates_from(path, 0, command) == candidates(path, command),
{
    lemma_candidates_from_pieces(path, 0, command);
}

} // verus!
