use vstd::prelude::*;
use crate::text::{contains_word, has_word, string_views};

verus! {

/// What the link tool does with its command line.
#[derive(Debug, PartialEq, Eq, Clone, Copy)]
pub enum LinkAction {
    /// Show the help text.
    Help,
    /// Show the version.
    Version,
    /// Go on with the two arguments given.
    Proceed,
}

/// What the link tool does with the arguments `args` and the flags `flags`:
/// help where it is asked for, else the version where that is asked for, and
/// help again unless there are no flags and exactly two arguments.
pub open spec fn link_action_spec(args: Seq<Seq<char>>, flags: Seq<Seq<char>>) -> LinkAction {
    if has_word(args, "--help"@) || has_word(args, "-h"@) {
        LinkAction::Help
    } else if has_word(args, "--version"@) || has_word(args, "-V"@) {
        LinkAction::Version
    } else if flags.len() != 0 || args.len() != 2 {
        LinkAction::Help
    } else {
        LinkAction::Proceed
    }
}

/// What the link tool does with its arguments and flags.
pub fn link_action(args: &Vec<String>, flags: &Vec<String>) -> (r: LinkAction)
    ensures
        r == link_action_spec(string_views(args@), string_views(flags@)),
{
    if contains_word(args, "--help") || contains_word(args, "-h") {
        LinkAction::Help
    } else if contains_word(args, "--version") || contains_word(args, "-V") {
        LinkAction::Version
    } else if flags.len() != 0 || args.len() != 2 {
        LinkAction::Help
    } else {
        LinkAction::Proceed
    }
}

/// The help text of the link tool.
pub open spec fn help_message_spec() -> Seq<char> {
    "Usage: quantii-link [options] <url> <name>\nOptions:\n-h, --help                 Show this help message and exit\n-V, --version              Show version information and exit\n"@
}

/// The version text of the link tool.
pub open spec fn version_message_spec() -> Seq<char> {
    "qiish v0.1.0\n"@
}

/// The help text of the link tool.
pub fn help_message() -> (text: &'static str)
    ensures
        text@ == help_message_spec(),
{
    "Usage: quantii-link [options] <url> <name>\nOptions:\n-h, --help                 Show this help message and exit\n-V, --version              Show version information and exit\n"
}

/// The version text of the link tool.
pub fn version_message() -> (text: &'static str)
    ensures
        text@ == version_message_spec(),
{
    "qiish v0.1.0\n"
}

} // verus!
