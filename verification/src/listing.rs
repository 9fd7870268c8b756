use vstd::prelude::*;
use vstd::multiset::Multiset;
use vstd::seq_lib::{to_multiset_build, to_multiset_insert};
use crate::text::{chars_of, contains_word, has_word, push_chars, string_views};

verus! {

/// One entry of a directory: its file name, and whether it is a directory.
#[derive(Debug, Clone, PartialEq, Eq)]
pub struct Entry {
    pub name: String,
    pub is_dir: bool,
}

/// Whether `a[i..]` comes before `b[i..]` or equals it, character by
/// character, a text before any longer text that begins with it.
pub open spec fn le_from(a: Seq<char>, b: Seq<char>, i: int) -> bool
    decreases a.len() - i,
{
    if !(0 <= i < a.len()) {
        true
    } else if i >= b.len() {
        false
    } else if a[i] != b[i] {
        a[i] < b[i]
    } else {
        le_from(a, b, i + 1)
    }
}

/// The order of file names: `a` comes before `b` or equals it.
pub open spec fn name_le(a: Seq<char>, b: Seq<char>) -> bool {
    le_from(a, b, 0)
}

/// Of two names, one comes before the other or they are equal.
pub proof fn lemma_le_total(a: Seq<char>, b: Seq<char>, i: int)
    requires
        0 <= i,
    ensures
        le_from(a, b, i) || le_from(b, a, i),
    decreases a.len() - i,
{
    if i < a.len() && i < b.len() && a[i] == b[i] {
        lemma_le_total(a, b, i + 1);
    }
}

/// The order of names is transitive.
pub proof fn lemma_le_transitive(a: Seq<char>, b: Seq<char>, c: Seq<char>, i: int)
    requires
        0 <= i,
        le_from(a, b, i),
        le_from(b, c, i),
    ensures
        le_from(a, c, i),
    decreases a.len() - i,
{
    if i < a.len() && a[i] == b[i] && b[i] == c[i] {
        lemma_le_transitive(a, b, c, i + 1);
    }
}

/// The entries of `entries` stand in the order of their names.
pub open spec fn names_sorted(entries: Seq<Entry>) -> bool {
    forall|i: int, j: int|
        0 <= i < j < entries.len() ==> name_le(
            #[trigger] entries[i].name@,
            #[trigger] entries[j].name@,
        )
}

fn name_comes_first(a: &Vec<char>, b: &Vec<char>) -> (r: bool)
    ensures
        r == name_le(a@, b@),
{
    let mut i: usize = 0;
    while i < a.len()
        invariant
            i <= a.len(),
            name_le(a@, b@) == le_from(a@, b@, i as int),
        decreases a.len() - i,
    {
        if i >= b.len() {
            return false;
        }
        if a[i] != b[i] {
            return a[i] < b[i];
        }
        i = i + 1;
    }
    true
}

/// The entries in the order of their names.
pub fn sort_by_name(entries: Vec<Entry>) -> (sorted: Vec<Entry>)
    ensures
        sorted@.to_multiset() == entries@.to_multiset(),
        names_sorted(sorted@),
{
    let mut rest = entries;
    let mut sorted: Vec<Entry> = Vec::new();
    assert(sorted@.to_multiset().add(rest@.to_multiset()) =~= entries@.to_multiset()) by {
        broadcast use vstd::seq_lib::group_to_multiset_ensures;

    }
    while rest.len() > 0
        invariant
            sorted@.to_multiset().add(rest@.to_multiset()) == entries@.to_multiset(),
            names_sorted(sorted@),
        decreases rest.len(),
    {
        let ghost rest_before = rest@;
        let ghost sorted_before = sorted@;
        let entry = rest.pop().unwrap();
        proof {
            assert(rest_before =~= rest@.push(entry));
            to_multiset_build(rest@, entry);
        }
        let name = chars_of(entry.name.as_str());
        let mut at: usize = 0;
        let mut found = false;
        while at < sorted.len() && !found
            invariant
                at <= sorted.len(),
                sorted@ == sorted_before,
                name@ == entry.name@,
                forall|k: int| 0 <= k < at ==> name_le(#[trigger] sorted@[k].name@, name@),
                found ==> at < sorted.len() && name_le(name@, sorted@[at as int].name@),
            decreases sorted.len() - at + if found { 0int } else { 1int },
        {
            let other = chars_of(sorted[at].name.as_str());
            if name_comes_first(&other, &name) {
                at = at + 1;
            } else {
                proof {
                    lemma_le_total(other@, name@, 0);
                }
                found = true;
            }
        }
        sorted.insert(at, entry);
        proof {
            to_multiset_insert(sorted_before, at as int, entry);
            assert(sorted@.to_multiset().add(rest@.to_multiset()) =~= sorted_before.to_multiset().add(
                rest_before.to_multiset(),
            ));
            assert forall|i: int, j: int| 0 <= i < j < sorted@.len() implies name_le(
                #[trigger] sorted@[i].name@,
                #[trigger] sorted@[j].name@,
            ) by {
                if j == at {
                    assert(sorted@[i] == sorted_before[i]);
                } else if i == at {
                    assert(sorted@[j] == sorted_before[j - 1]);
                    if j - 1 > at {
                        assert(name_le(sorted_before[at as int].name@, sorted_before[j - 1].name@));
                        lemma_le_transitive(
                            name@,
                            sorted_before[at as int].name@,
                            sorted_before[j - 1].name@,
                            0,
                        );
                    }
                } else {
                    let i0 = if i < at { i } else { i - 1 };
                    let j0 = if j < at { j } else { j - 1 };
                    assert(sorted@[i] == sorted_before[i0]);
                    assert(sorted@[j] == sorted_before[j0]);
                }
            }
        }
    }
    assert(rest@.to_multiset() =~= Multiset::<Entry>::empty()) by {
        broadcast use vstd::seq_lib::group_to_multiset_ensures;

    }
    assert(sorted@.to_multiset().add(Multiset::<Entry>::empty()) =~= sorted@.to_multiset());
    sorted
}

/// The entries of `entries[i..]` that are directories (`dirs` true) or that
/// are none (`dirs` false), in their order.
pub open spec fn of_kind(entries: Seq<Entry>, i: int, dirs: bool) -> Seq<Entry>
    decreases entries.len() - i,
{
    if !(0 <= i < entries.len()) {
        Seq::empty()
    } else if entries[i].is_dir == dirs {
        seq![entries[i]] + of_kind(entries, i + 1, dirs)
    } else {
        of_kind(entries, i + 1, dirs)
    }
}

/// The directories of `entries` in their order, then the other entries in
/// theirs.
pub open spec fn dirs_first(entries: Seq<Entry>) -> Seq<Entry> {
    of_kind(entries, 0, true) + of_kind(entries, 0, false)
}

/// The entries for a listing: the directories first and the others after them
/// where `dir_first` is set, else all of them in the order of their names.
#[must_use]
pub fn sort_files_dirs(paths: Vec<Entry>, dir_first: bool) -> (r: Vec<Entry>)
    ensures
        dir_first ==> r@ == dirs_first(paths@),
        !dir_first ==> r@.to_multiset() == paths@.to_multiset() && names_sorted(r@),
{
    if !dir_first {
        return sort_by_name(paths);
    }
    let mut rest = paths;
    let mut files: Vec<Entry> = Vec::new();
    let mut dirs: Vec<Entry> = Vec::new();
    let ghost mut done: int = 0;
    assert(dirs@ + of_kind(paths@, 0, true) =~= of_kind(paths@, 0, true));
    assert(files@ + of_kind(paths@, 0, false) =~= of_kind(paths@, 0, false));
    while rest.len() > 0
        invariant
            0 <= done <= paths@.len(),
            rest@ == paths@.skip(done),
            of_kind(paths@, 0, true) == dirs@ + of_kind(paths@, done, true),
            of_kind(paths@, 0, false) == files@ + of_kind(paths@, done, false),
        decreases rest.len(),
    {
        let ghost dirs_before = dirs@;
        let ghost files_before = files@;
        let entry = rest.remove(0);
        assert(entry == paths@[done]);
        assert(rest@ =~= paths@.skip(done + 1));
        if entry.is_dir {
            dirs.push(entry);
            assert(dirs@ + of_kind(paths@, done + 1, true) =~= dirs_before + (seq![entry]
                + of_kind(paths@, done + 1, true)));
        } else {
            files.push(entry);
            assert(files@ + of_kind(paths@, done + 1, false) =~= files_before + (seq![entry]
                + of_kind(paths@, done + 1, false)));
        }
        proof {
            done = done + 1;
        }
    }
    assert(dirs@ + Seq::<Entry>::empty() =~= dirs@);
    assert(files@ + Seq::<Entry>::empty() =~= files@);
    dirs.append(&mut files);
    dirs
}

/// The options of `ls`.
#[derive(Debug, Clone, Copy, PartialEq, Eq)]
pub struct LsOptions {
    /// List `.` and `..` too (`a`, `all`).
    pub all: bool,
    /// Show directories in colour (`color`).
    pub color: bool,
    /// `F`, `classify`.
    pub classify: bool,
    /// List directories before everything else (`group-directories-first`).
    pub dirs_first: bool,
    /// `m`.
    pub comma_separated: bool,
    /// Put a slash after each directory (`p`, `indicator-style`).
    pub dir_indicator: bool,
}

/// What `ls` lists.
#[derive(Debug, Clone, PartialEq, Eq)]
pub enum LsTarget {
    /// The directory at this path.
    Directory(String),
    /// Nothing: more than one path was named.
    Nothing,
}

/// The text that switches the colour of directories on.
pub open spec fn colour_on() -> Seq<char> {
    "\x1b[34m"@
}

/// The text that switches colour off.
pub open spec fn colour_off() -> Seq<char> {
    "\x1b[0m"@
}

/// `text` where `wanted` holds, else nothing.
pub open spec fn text_if(wanted: bool, text: Seq<char>) -> Seq<char> {
    if wanted {
        text
    } else {
        Seq::empty()
    }
}

/// What a listing begins with: `.` and `..` where all entries are asked for,
/// as directories.
pub open spec fn listing_head(options: LsOptions) -> Seq<char> {
    if options.all {
        text_if(options.color, colour_on()) + seq!['.'] + text_if(
            options.dir_indicator,
            seq!['/'],
        ) + seq!['.', '.'] + text_if(options.dir_indicator, seq!['/']) + text_if(
            options.color,
            colour_off(),
        )
    } else {
        Seq::empty()
    }
}

/// How one entry is listed: a directory in colour and with a slash after it
/// where the options ask for that, anything else by its bare name.
pub open spec fn entry_text(entry: Entry, options: LsOptions) -> Seq<char> {
    if entry.is_dir {
        text_if(options.color, colour_on()) + entry.name@ + text_if(
            options.dir_indicator,
            seq!['/'],
        ) + text_if(options.color, colour_off())
    } else {
        entry.name@
    }
}

/// The entries `entries[i..]` as they are listed, one after the other.
pub open spec fn listed(entries: Seq<Entry>, i: int, options: LsOptions) -> Seq<char>
    decreases entries.len() - i,
{
    if !(0 <= i < entries.len()) {
        Seq::empty()
    } else {
        entry_text(entries[i], options) + listed(entries, i + 1, options)
    }
}

fn push_if(out: &mut String, wanted: bool, text: &str)
    ensures
        final(out)@ == old(out)@ + text_if(wanted, text@),
{
    if wanted {
        push_chars(out, &chars_of(text));
    } else {
        assert(out@ + Seq::<char>::empty() =~= out@);
    }
}

impl LsOptions {
    /// The options that the flags `flags` turn on.
    pub fn from_flags(flags: &Vec<String>) -> (r: Self)
        ensures
            r.all == (has_word(string_views(flags@), "a"@) || has_word(
                string_views(flags@),
                "all"@,
            )),
            r.color == has_word(string_views(flags@), "color"@),
            r.classify == (has_word(string_views(flags@), "F"@) || has_word(
                string_views(flags@),
                "classify"@,
            )),
            r.dirs_first == has_word(string_views(flags@), "group-directories-first"@),
            r.comma_separated == has_word(string_views(flags@), "m"@),
            r.dir_indicator == (has_word(string_views(flags@), "p"@) || has_word(
                string_views(flags@),
                "indicator-style"@,
            )),
    {
        LsOptions {
            all: contains_word(flags, "a") || contains_word(flags, "all"),
            color: contains_word(flags, "color"),
            classify: contains_word(flags, "F") || contains_word(flags, "classify"),
            dirs_first: contains_word(flags, "group-directories-first"),
            comma_separated: contains_word(flags, "m"),
            dir_indicator: contains_word(flags, "p") || contains_word(flags, "indicator-style"),
        }
    }

    /// The text of a listing of `entries`, which stand in the order in which
    /// they are to be listed.
    pub fn listing(&self, entries: &Vec<Entry>) -> (text: String)
        ensures
            text@ == listing_head(*self) + listed(entries@, 0, *self),
    {
        let mut text = String::new();
        if self.all {
            push_if(&mut text, self.color, "\x1b[34m");
            text.push('.');
            push_if(&mut text, self.dir_indicator, "/");
            text.push('.');
            text.push('.');
            push_if(&mut text, self.dir_indicator, "/");
            push_if(&mut text, self.color, "\x1b[0m");
            proof {
                reveal_strlit("/");
                assert("/"@ =~= seq!['/']);
                assert(text@ =~= listing_head(*self));
            }
        } else {
            assert(text@ =~= listing_head(*self));
        }
        let ghost head = text@;
        let mut i: usize = 0;
        assert(text@ + listed(entries@, 0, *self) =~= head + listed(entries@, 0, *self));
        while i < entries.len()
            invariant
                i <= entries.len(),
                head == listing_head(*self),
                head + listed(entries@, 0, *self) == text@ + listed(entries@, i as int, *self),
            decreases entries.len() - i,
        {
            let ghost before = text@;
            let entry = &entries[i];
            if entry.is_dir {
                push_if(&mut text, self.color, "\x1b[34m");
                push_chars(&mut text, &chars_of(entry.name.as_str()));
                push_if(&mut text, self.dir_indicator, "/");
                push_if(&mut text, self.color, "\x1b[0m");
                proof {
                    reveal_strlit("/");
                    assert("/"@ =~= seq!['/']);
                }
            } else {
                push_chars(&mut text, &chars_of(entry.name.as_str()));
            }
            assert(text@ =~= before + entry_text(entries@[i as int], *self));
            assert(text@ + listed(entries@, i + 1, *self) =~= before + (entry_text(
                entries@[i as int],
                *self,
            ) + listed(entries@, i + 1, *self)));
            i = i + 1;
        }
        assert(text@ + Seq::<char>::empty() =~= text@);
        text
    }
}

/// What `ls` lists for the paths it was given: the working directory (`.`)
/// where there is none, the path where there is one, nothing where there are
/// more.
pub fn ls_target(files: &Vec<String>) -> (r: LsTarget)
    ensures
        files@.len() == 0 ==> r is Directory && r->Directory_0@ == "."@,
        files@.len() == 1 ==> r is Directory && r->Directory_0@ == files@[0]@,
        files@.len() > 1 ==> r is Nothing,
{
    if files.len() == 0 {
        LsTarget::Directory(".".to_owned())
    } else if files.len() == 1 {
        LsTarget::Directory(files[0].clone())
    } else {
        LsTarget::Nothing
    }
}


} // verus!
