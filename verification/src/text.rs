use vstd::prelude::*;

verus! {

/// `String::push` appends the given character to the end of the string and
/// changes nothing else: the new text is the old text followed by `c`.
pub assume_specification[ std::string::String::push ](s: &mut std::string::String, c: char)
    ensures
        final(s)@ == old(s)@.push(c),
;

/// The characters of `s`, in order, as a vector that can be indexed.
pub fn chars_of(s: &str) -> (v: Vec<char>)
    ensures
        v@ == s@,
{
    let mut v: Vec<char> = Vec::new();
    for c in it: s.chars()
        invariant
            v@ == it.seq().take(it.index() as int),
            it.seq() == s@,
    {
        v.push(c);
    }
    v
}

/// The characters `chars[from..to]` as a string.
pub fn string_of(chars: &Vec<char>, from: usize, to: usize) -> (s: String)
    requires
        from <= to <= chars.len(),
    ensures
        s@ == chars@.subrange(from as int, to as int),
{
    let mut s = String::new();
    let mut i: usize = from;
    while i < to
        invariant
            from <= i <= to <= chars.len(),
            s@ == chars@.subrange(from as int, i as int),
        decreases to - i,
    {
        s.push(chars[i]);
        i = i + 1;
        assert(chars@.subrange(from as int, i as int) == chars@.subrange(
            from as int,
            i - 1,
        ).push(chars@[i - 1]));
    }
    s
}

/// Whether two texts hold the same characters.
pub fn same_text(a: &Vec<char>, b: &str) -> (same: bool)
    ensures
        same == (a@ == b@),
{
    let other = chars_of(b);
    if a.len() != other.len() {
        return false;
    }
    let mut i: usize = 0;
    while i < a.len()
        invariant
            i <= a.len(),
            a.len() == other.len(),
            other@ == b@,
            forall|k: int| 0 <= k < i ==> a@[k] == other@[k],
        decreases a.len() - i,
    {
        if a[i] != other[i] {
            return false;
        }
        i = i + 1;
    }
    assert(a@ =~= other@);
    true
}

/// Whether `text` holds the character `c`.
pub fn holds_char(text: &Vec<char>, c: char) -> (found: bool)
    ensures
        found == text@.contains(c),
{
    let mut i: usize = 0;
    while i < text.len()
        invariant
            i <= text.len(),
            forall|k: int| 0 <= k < i ==> text@[k] != c,
        decreases text.len() - i,
    {
        if text[i] == c {
            return true;
        }
        i = i + 1;
    }
    false
}

/// Whether `text` begins with the character `c`.
pub open spec fn begins_with(text: Seq<char>, c: char) -> bool {
    text.len() > 0 && text[0] == c
}

/// Whether `text` begins with the character `c`.
pub fn starts_with_char(text: &Vec<char>, c: char) -> (b: bool)
    ensures
        b == begins_with(text@, c),
{
    text.len() > 0 && text[0] == c
}


/// The characters with the Unicode property `White_Space`.
pub open spec fn is_whitespace(c: char) -> bool {
    ('\u{9}' <= c && c <= '\u{D}') || c == ' ' || c == '\u{85}' || c == '\u{A0}' || c
        == '\u{1680}' || ('\u{2000}' <= c && c <= '\u{200A}') || c == '\u{2028}' || c
        == '\u{2029}' || c == '\u{202F}' || c == '\u{205F}' || c == '\u{3000}'
}

/// Whether `c` has the Unicode property `White_Space`.
pub fn is_whitespace_char(c: char) -> (b: bool)
    ensures
        b == is_whitespace(c),
{
    (c >= '\u{9}' && c <= '\u{D}') || c == ' ' || c == '\u{85}' || c == '\u{A0}' || c
        == '\u{1680}' || (c >= '\u{2000}' && c <= '\u{200A}') || c == '\u{2028}' || c
        == '\u{2029}' || c == '\u{202F}' || c == '\u{205F}' || c == '\u{3000}'
}

/// The position of the first character of `text` from `i` on that is no
/// whitespace; the length of `text` where there is none.
pub open spec fn skip_whitespace(text: Seq<char>, i: int) -> int
    decreases text.len() - i,
{
    if 0 <= i < text.len() && is_whitespace(text[i]) {
        skip_whitespace(text, i + 1)
    } else {
        i
    }
}

/// The position after the last character of `text[from..to]` that is no
/// whitespace; `from` where there is none.
pub open spec fn drop_whitespace(text: Seq<char>, from: int, to: int) -> int
    decreases to - from,
{
    if 0 <= from < to <= text.len() && is_whitespace(text[to - 1]) {
        drop_whitespace(text, from, to - 1)
    } else {
        to
    }
}

/// `text` without the whitespace at its start and at its end.
pub open spec fn trimmed(text: Seq<char>) -> Seq<char> {
    let start = skip_whitespace(text, 0);
    text.subrange(start, drop_whitespace(text, start, text.len() as int))
}

/// Where the text begins and ends once the whitespace around it is taken off.
pub fn trim_bounds(text: &Vec<char>) -> (r: (usize, usize))
    ensures
        r.0 <= r.1 <= text.len(),
        r.0 == skip_whitespace(text@, 0),
        r.1 == drop_whitespace(text@, r.0 as int, text.len() as int),
        text@.subrange(r.0 as int, r.1 as int) == trimmed(text@),
{
    let mut start: usize = 0;
    while start < text.len() && is_whitespace_char(text[start])
        invariant
            start <= text.len(),
            skip_whitespace(text@, 0) == skip_whitespace(text@, start as int),
        decreases text.len() - start,
    {
        start = start + 1;
    }
    let mut end: usize = text.len();
    while start < end && is_whitespace_char(text[end - 1])
        invariant
            start <= end <= text.len(),
            drop_whitespace(text@, start as int, text.len() as int) == drop_whitespace(
                text@,
                start as int,
                end as int,
            ),
        decreases end - start,
    {
        end = end - 1;
    }
    (start, end)
}

/// Whether `text` has `pattern` at position `i`.
pub open spec fn has_at(text: Seq<char>, i: int, pattern: Seq<char>) -> bool {
    0 <= i && i + pattern.len() <= text.len() && text.subrange(i, i + pattern.len()) == pattern
}

/// Whether `text` has `pattern` at position `i`.
pub fn matches_at(text: &Vec<char>, i: usize, pattern: &Vec<char>) -> (b: bool)
    requires
        i <= text.len(),
    ensures
        b == has_at(text@, i as int, pattern@),
{
    if pattern.len() > text.len() - i {
        return false;
    }
    let mut k: usize = 0;
    while k < pattern.len()
        invariant
            k <= pattern.len(),
            i + pattern.len() <= text.len(),
            forall|n: int| 0 <= n < k ==> text@[i + n] == pattern@[n],
        decreases pattern.len() - k,
    {
        if text[i + k] != pattern[k] {
            assert(text@.subrange(i as int, i + pattern.len())[k as int] != pattern@[k as int]);
            return false;
        }
        k = k + 1;
    }
    assert(text@.subrange(i as int, i + pattern.len()) =~= pattern@);
    true
}

/// `text[i..]` with every occurrence of `pattern` taken out, found from left
/// to right without overlap. `pattern` is not empty.
pub open spec fn without_pattern(text: Seq<char>, i: int, pattern: Seq<char>) -> Seq<char>
    decreases text.len() - i,
{
    if !(0 <= i < text.len()) || pattern.len() == 0 {
        Seq::empty()
    } else if has_at(text, i, pattern) {
        without_pattern(text, i + pattern.len(), pattern)
    } else {
        seq![text[i]] + without_pattern(text, i + 1, pattern)
    }
}

/// Appends to `out` the text with every occurrence of `pattern` taken out.
pub fn push_without_pattern(out: &mut String, text: &Vec<char>, pattern: &Vec<char>)
    requires
        pattern.len() > 0,
    ensures
        final(out)@ == old(out)@ + without_pattern(text@, 0, pattern@),
{
    let ghost start = out@;
    let mut i: usize = 0;
    while i < text.len()
        invariant
            i <= text.len(),
            pattern.len() > 0,
            start + without_pattern(text@, 0, pattern@) == out@ + without_pattern(
                text@,
                i as int,
                pattern@,
            ),
        decreases text.len() - i,
    {
        let ghost before = out@;
        if matches_at(text, i, pattern) {
            i = i + pattern.len();
        } else {
            out.push(text[i]);
            assert(out@ + without_pattern(text@, i + 1, pattern@) =~= before + (seq![
                text@[i as int],
            ] + without_pattern(text@, i + 1, pattern@)));
            i = i + 1;
        }
    }
    assert(out@ + Seq::<char>::empty() =~= out@);
}

/// Appends the characters of `text` to `out`.
pub fn push_chars(out: &mut String, text: &Vec<char>)
    ensures
        final(out)@ == old(out)@ + text@,
{
    let ghost start = out@;
    let mut i: usize = 0;
    assert(out@ =~= start + text@.take(0));
    while i < text.len()
        invariant
            i <= text.len(),
            out@ == start + text@.take(i as int),
        decreases text.len() - i,
    {
        out.push(text[i]);
        i = i + 1;
        assert(start + text@.take(i as int) =~= (start + text@.take(i - 1)).push(text@[i - 1]));
    }
    assert(text@.take(text.len() as int) =~= text@);
}


/// The words of `words[i..]` that do not begin with a dash, in order.
pub open spec fn plain_words(words: Seq<Seq<char>>, i: int) -> Seq<Seq<char>>
    decreases words.len() - i,
{
    if !(0 <= i < words.len()) {
        Seq::empty()
    } else if begins_with(words[i], '-') {
        plain_words(words, i + 1)
    } else {
        seq![words[i]] + plain_words(words, i + 1)
    }
}

/// The views of a sequence of strings, in order.
pub open spec fn string_views(strings: Seq<String>) -> Seq<Seq<char>> {
    strings.map_values(|s: String| s@)
}

/// The views of a sequence of string slices, in order.
pub open spec fn str_views(words: Seq<&str>) -> Seq<Seq<char>> {
    words.map_values(|w: &str| w@)
}

/// Whether one of `words` is `word`.
pub open spec fn has_word(words: Seq<Seq<char>>, word: Seq<char>) -> bool {
    exists|k: int| 0 <= k < words.len() && #[trigger] words[k] == word
}

/// Whether one of `words` is `word`.
pub fn contains_word(words: &Vec<String>, word: &str) -> (found: bool)
    ensures
        found == has_word(string_views(words@), word@),
{
    let wanted = word.to_owned();
    let mut i: usize = 0;
    while i < words.len()
        invariant
            i <= words.len(),
            wanted@ == word@,
            forall|k: int| 0 <= k < i ==> string_views(words@)[k] != word@,
        decreases words.len() - i,
    {
        if words[i] == wanted {
            assert(string_views(words@)[i as int] == word@);
            return true;
        }
        i = i + 1;
    }
    false
}

/// The end of the piece of `text` that starts at `i`: the position of the
/// first `sep` from `i` on, or the length of `text`.
pub open spec fn piece_end(text: Seq<char>, i: int, sep: char) -> int
    decreases text.len() - i,
{
    if 0 <= i < text.len() && text[i] != sep {
        piece_end(text, i + 1, sep)
    } else {
        i
    }
}

/// A piece ends at or after its start, within the text.
pub proof fn lemma_piece_end_bounds(text: Seq<char>, i: int, sep: char)
    requires
        0 <= i <= text.len(),
    ensures
        i <= piece_end(text, i, sep) <= text.len(),
    decreases text.len() - i,
{
    if i < text.len() && text[i] != sep {
        lemma_piece_end_bounds(text, i + 1, sep);
    }
}

/// The pieces of `text[i..]` between the separators `sep`; empty pieces count.
pub open spec fn pieces(text: Seq<char>, i: int, sep: char) -> Seq<Seq<char>>
    decreases text.len() - i,
{
    if !(0 <= i <= text.len()) {
        Seq::empty()
    } else {
        proof {
            lemma_piece_end_bounds(text, i, sep);
        }
        let end = piece_end(text, i, sep);
        if end >= text.len() {
            seq![text.subrange(i, text.len() as int)]
        } else {
            seq![text.subrange(i, end)] + pieces(text, end + 1, sep)
        }
    }
}

} // verus!
