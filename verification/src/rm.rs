use vstd::prelude::*;
use crate::text::{
    begins_with, chars_of, holds_char, plain_words, same_text, starts_with_char, str_views,
    string_views,
};

verus! {

/// What `rm` was asked to do.
#[derive(Debug, Clone, PartialEq, Eq)]
pub struct DataRM {
    /// Whether directories are removed with what they hold.
    pub recursive: bool,
    /// The files and directories to remove.
    pub to_remove: Vec<String>,
}

/// Whether removal is recursive after the arguments `args[i..]`, given that
/// it was `recursive` before them. `--recursive` turns it on; every other
/// argument that begins with a dash decides it anew: on where it holds an
/// `r` or an `R`, else off.
pub open spec fn recursive_after(args: Seq<Seq<char>>, i: int, recursive: bool) -> bool
    decreases args.len() - i,
{
    if !(0 <= i < args.len()) {
        recursive
    } else if !begins_with(args[i], '-') {
        recursive_after(args, i + 1, recursive)
    } else if args[i] == "--recursive"@ {
        recursive_after(args, i + 1, true)
    } else {
        recursive_after(args, i + 1, args[i].contains('r') || args[i].contains('R'))
    }
}

/// What `rm` does with one of its targets.
#[derive(Debug, Clone, Copy, PartialEq, Eq)]
pub enum RmStep {
    /// Report that there is no such file or directory.
    Missing,
    /// Report that a directory is only removed recursively.
    NeedsRecursive,
    /// Remove the target.
    Remove,
}

impl DataRM {
    /// Reads the arguments of `rm`: those that begin with a dash are options,
    /// the others name what to remove. Every list of arguments is accepted.
    pub fn generate_rm_data(args: Vec<&str>) -> (r: Option<Self>)
        ensures
            r is Some,
            r->Some_0.recursive == recursive_after(str_views(args@), 0, false),
            string_views(r->Some_0.to_remove@) == plain_words(str_views(args@), 0),
    {
        let ghost words = str_views(args@);
        let mut recursive = false;
        let mut to_remove: Vec<String> = Vec::new();
        let mut i: usize = 0;
        assert(string_views(to_remove@) + plain_words(words, 0) =~= plain_words(words, 0));
        while i < args.len()
            invariant
                i <= args.len(),
                words == str_views(args@),
                recursive_after(words, 0, false) == recursive_after(words, i as int, recursive),
                plain_words(words, 0) == string_views(to_remove@) + plain_words(words, i as int),
            decreases args.len() - i,
        {
            let ghost before = to_remove@;
            let arg = chars_of(args[i]);
            assert(arg@ == words[i as int]);
            if !starts_with_char(&arg, '-') {
                to_remove.push(args[i].to_owned());
                assert(string_views(to_remove@) + plain_words(words, i + 1) =~= string_views(
                    before,
                ) + (seq![words[i as int]] + plain_words(words, i + 1)));
            } else if same_text(&arg, "--recursive") {
                recursive = true;
            } else {
                recursive = holds_char(&arg, 'r') || holds_char(&arg, 'R');
            }
            i = i + 1;
        }
        assert(string_views(to_remove@) + Seq::<Seq<char>>::empty() =~= string_views(to_remove@));
        Some(DataRM { recursive, to_remove })
    }

    /// What `rm` does with a target, by what is found at its path.
    pub fn step(&self, present: bool, is_dir: bool) -> (r: RmStep)
        ensures
            r == if !present {
                RmStep::Missing
            } else if is_dir && !self.recursive {
                RmStep::NeedsRecursive
            } else {
                RmStep::Remove
            },
    {
        if !present {
            RmStep::Missing
        } else if is_dir && !self.recursive {
            RmStep::NeedsRecursive
        } else {
            RmStep::Remove
        }
    }
}

/// The status of `rm` after a removal: `0` when it went well, `-1` when not.
pub fn status_after_removal(removed: bool) -> (status: i16)
    ensures
        status == if removed {
            0i16
        } else {
            -1i16
        },
{
    if removed {
        0
    } else {
        -1
    }
}

} // verus!
