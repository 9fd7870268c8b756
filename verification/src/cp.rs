use vstd::prelude::*;
use vstd::std_specs::convert::FromSpecImpl;
use crate::text::{chars_of, contains_word, has_word, string_views, trim_bounds, trimmed};

verus! {

/// What `cp` was asked to do. Paths are held as text.
#[derive(Debug, Clone, PartialEq, Eq)]
pub struct DataCP {
    /// What to copy: every argument but the last.
    pub source: Vec<String>,
    /// Where to copy to: the last argument.
    pub destination: String,
    /// Ask before anything is overwritten (`-i`, `--interactive`).
    pub interactive: bool,
    /// Overwrite nothing (`-n`, `--no-clobber`).
    pub no_clobber: bool,
    /// Copy directories with what they hold (`-r`, `--recursive`).
    pub recursive: bool,
}

/// The sources among the arguments `args`: all but the last.
pub open spec fn sources_of(args: Seq<Seq<char>>) -> Seq<Seq<char>> {
    if args.len() == 0 {
        Seq::empty()
    } else {
        args.drop_last()
    }
}

/// The destination among the arguments `args`: the last, or the empty text
/// where there is none.
pub open spec fn destination_of(args: Seq<Seq<char>>) -> Seq<char> {
    if args.len() == 0 {
        Seq::empty()
    } else {
        args.last()
    }
}

impl From<(Vec<String>, Vec<String>)> for DataCP {
    /// Reads the arguments and the flags of `cp`. Without any argument there
    /// is no source and the destination is empty.
    fn from(arguments: (Vec<String>, Vec<String>)) -> (r: Self)
        ensures
            string_views(r.source@) == sources_of(string_views(arguments.0@)),
            r.destination@ == destination_of(string_views(arguments.0@)),
            r.interactive == (has_word(string_views(arguments.1@), "i"@) || has_word(
                string_views(arguments.1@),
                "interactive"@,
            )),
            r.no_clobber == (has_word(string_views(arguments.1@), "n"@) || has_word(
                string_views(arguments.1@),
                "no-clobber"@,
            )),
            r.recursive == (has_word(string_views(arguments.1@), "r"@) || has_word(
                string_views(arguments.1@),
                "recursive"@,
            )),
    {
        let (args, flags) = arguments;
        let ghost given = string_views(args@);
        let interactive = contains_word(&flags, "i") || contains_word(&flags, "interactive");
        let no_clobber = contains_word(&flags, "n") || contains_word(&flags, "no-clobber");
        let recursive = contains_word(&flags, "r") || contains_word(&flags, "recursive");
        let mut source = args;
        let destination = match source.pop() {
            Some(last) => last,
            None => String::new(),
        };
        assert(string_views(source@) =~= sources_of(given));
        DataCP { source, destination, interactive, no_clobber, recursive }
    }
}

impl FromSpecImpl<(Vec<String>, Vec<String>)> for DataCP {
    open spec fn obeys_from_spec() -> bool {
        false
    }

    open spec fn from_spec(arguments: (Vec<String>, Vec<String>)) -> Self {
        arbitrary()
    }
}

/// What `cp` finds wrong with its arguments before it copies anything.
#[derive(Debug, Clone, Copy, PartialEq, Eq)]
pub enum CpCheck {
    /// There is nothing to copy.
    MissingInput,
    /// There is nowhere to copy to.
    MissingDestination,
    /// The arguments will do.
    Ready,
}

/// What `cp` says of a destination it will not touch.
#[derive(Debug, Clone, Copy, PartialEq, Eq)]
pub enum CpComplaint {
    /// The destination is a directory and the copy is not recursive.
    IsDirectory,
    /// The destination directory exists and nothing may be overwritten.
    FileExists,
    /// The destination file exists and nothing may be overwritten.
    CannotOverwrite,
}

/// What `cp` does next for one source.
#[derive(Debug, Clone, Copy, PartialEq, Eq)]
pub enum CpNext {
    /// Nothing more for this source.
    Nothing,
    /// Ask whether the destination directory may be replaced.
    AskDirectory,
    /// Ask whether the destination file may be overwritten; whatever the
    /// answer, nothing more is done for this source.
    AskFile,
    /// Remove the destination directory.
    RemoveDirectory,
    /// Create the destination as a directory.
    CreateDirectory,
    /// Copy the source file to the destination.
    CopyFile,
}

/// What `cp` does for one source: what it says, whether the command has
/// failed by it, and what comes next.
#[derive(Debug, Clone, Copy, PartialEq, Eq)]
pub struct CpPlan {
    /// The destination is a directory and the copy is not recursive: said first.
    pub not_recursive: bool,
    /// What else is said of the destination.
    pub complaint: Option<CpComplaint>,
    /// Whether the status of the command becomes `-1`.
    pub failed: bool,
    /// What is done next.
    pub next: CpNext,
}

/// What `cp` does for one source, given its options and what is found at the
/// destination and at the source.
pub open spec fn plan_spec(
    interactive: bool,
    no_clobber: bool,
    recursive: bool,
    destination_is_dir: bool,
    destination_present: bool,
    source_is_dir: bool,
) -> CpPlan {
    if destination_is_dir {
        if !destination_present {
            CpPlan {
                not_recursive: !recursive,
                complaint: None,
                failed: !recursive,
                next: CpNext::Nothing,
            }
        } else if no_clobber {
            CpPlan {
                not_recursive: !recursive,
                complaint: Some(CpComplaint::FileExists),
                failed: true,
                next: CpNext::Nothing,
            }
        } else {
            CpPlan {
                not_recursive: !recursive,
                complaint: None,
                failed: !recursive,
                next: if interactive {
                    CpNext::AskDirectory
                } else {
                    CpNext::RemoveDirectory
                },
            }
        }
    } else if destination_present {
        if no_clobber {
            CpPlan {
                not_recursive: false,
                complaint: Some(CpComplaint::CannotOverwrite),
                failed: true,
                next: CpNext::Nothing,
            }
        } else {
            CpPlan {
                not_recursive: false,
                complaint: None,
                failed: false,
                next: if interactive {
                    CpNext::AskFile
                } else {
                    CpNext::Nothing
                },
            }
        }
    } else {
        CpPlan {
            not_recursive: false,
            complaint: None,
            failed: false,
            next: if source_is_dir {
                CpNext::CreateDirectory
            } else {
                CpNext::CopyFile
            },
        }
    }
}

impl DataCP {
    /// What is wrong with the arguments, if anything: no source, or an empty
    /// destination.
    pub fn check(&self) -> (r: CpCheck)
        ensures
            r == (if self.source@.len() == 0 {
                CpCheck::MissingInput
            } else if self.destination@.len() == 0 {
                CpCheck::MissingDestination
            } else {
                CpCheck::Ready
            }),
    {
        if self.source.len() == 0 {
            CpCheck::MissingInput
        } else if self.destination.as_str().is_empty() {
            CpCheck::MissingDestination
        } else {
            CpCheck::Ready
        }
    }

    /// What `cp` does for one source, by what is found at the destination and
    /// at the source.
    pub fn plan(&self, destination_is_dir: bool, destination_present: bool, source_is_dir: bool) -> (r:
        CpPlan)
        ensures
            r == plan_spec(
                self.interactive,
                self.no_clobber,
                self.recursive,
                destination_is_dir,
                destination_present,
                source_is_dir,
            ),
    {
        if destination_is_dir {
            if !destination_present {
                CpPlan {
                    not_recursive: !self.recursive,
                    complaint: None,
                    failed: !self.recursive,
                    next: CpNext::Nothing,
                }
            } else if self.no_clobber {
                CpPlan {
                    not_recursive: !self.recursive,
                    complaint: Some(CpComplaint::FileExists),
                    failed: true,
                    next: CpNext::Nothing,
                }
            } else {
                CpPlan {
                    not_recursive: !self.recursive,
                    complaint: None,
                    failed: !self.recursive,
                    next: if self.interactive {
                        CpNext::AskDirectory
                    } else {
                        CpNext::RemoveDirectory
                    },
                }
            }
        } else if destination_present {
            if self.no_clobber {
                CpPlan {
                    not_recursive: false,
                    complaint: Some(CpComplaint::CannotOverwrite),
                    failed: true,
                    next: CpNext::Nothing,
                }
            } else {
                CpPlan {
                    not_recursive: false,
                    complaint: None,
                    failed: false,
                    next: if self.interactive {
                        CpNext::AskFile
                    } else {
                        CpNext::Nothing
                    },
                }
            }
        } else {
            CpPlan {
                not_recursive: false,
                complaint: None,
                failed: false,
                next: if source_is_dir {
                    CpNext::CreateDirectory
                } else {
                    CpNext::CopyFile
                },
            }
        }
    }
}

/// Whether the answer to the question about a destination directory allows
/// its removal: only `y`, with any whitespace around it, does.
pub fn allows_replacing(answer: &str) -> (allowed: bool)
    ensures
        allowed == (trimmed(answer@) == "y"@),
{
    let chars = chars_of(answer);
    let (start, end) = trim_bounds(&chars);
    proof {
        reveal_strlit("y");
    }
    let allowed = end - start == 1 && chars[start] == 'y';
    proof {
        let word = chars@.subrange(start as int, end as int);
        if allowed {
            assert(word =~= "y"@);
        } else if word.len() == 1 {
            assert(word[0] != "y"@[0]);
        }
    }
    allowed
}

/// Whether the destination directory is made anew after its removal was
/// tried: it is when the removal failed.
pub fn recreate_after_removal(removed: bool) -> (recreate: bool)
    ensures
        recreate == !removed,
{
    !removed
}

} // verus!
