use vstd::prelude::*;

verus! {

/// Settings that the command line hands to the shell.
#[derive(Copy, Clone, Debug, PartialEq, Eq)]
pub struct Options {
    pub help: bool,
    pub version: bool,
    pub verbose: bool,
}

impl Default for Options {
    fn default() -> (r: Self)
        ensures
            !r.help,
            !r.version,
            !r.verbose,
    {
        Options { help: false, version: false, verbose: false }
    }
}

/// The option letters of a command-line word such as `-vh`: everything after
/// its first character.
#[must_use]
pub fn match_options(options: &str) -> (letters: Vec<char>)
    ensures
        letters@ == if options@.len() == 0 {
            Seq::<char>::empty()
        } else {
            options@.skip(1)
        },
{
    let chars = crate::text::chars_of(options);
    let mut letters: Vec<char> = Vec::new();
    let mut i: usize = 1;
    while i < chars.len()
        invariant
            1 <= i,
            chars@ == options@,
            i <= chars.len() ==> letters@ == chars@.subrange(1, i as int),
            i > chars.len() ==> letters@.len() == 0 && chars.len() == 0,
        decreases chars.len() - i,
    {
        letters.push(chars[i]);
        i = i + 1;
        assert(chars@.subrange(1, i as int) =~= chars@.subrange(1, i - 1).push(chars@[i - 1]));
    }
    proof {
        if chars.len() > 0 {
            assert(chars@.subrange(1, chars.len() as int) =~= chars@.skip(1));
        } else {
            assert(letters@ =~= Seq::<char>::empty());
        }
    }
    letters
}

/// The options that a set of option letters turns on: `v` verbose, `V`
/// version, `h` help. Other letters count for nothing.
#[must_use]
pub fn parse_options(options: Vec<char>) -> (r: Options)
    ensures
        r.verbose == options@.contains('v'),
        r.version == options@.contains('V'),
        r.help == options@.contains('h'),
{
    Options {
        help: crate::text::holds_char(&options, 'h'),
        version: crate::text::holds_char(&options, 'V'),
        verbose: crate::text::holds_char(&options, 'v'),
    }
}


} // verus!
