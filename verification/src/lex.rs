use vstd::prelude::*;
use crate::options::Options;
use crate::text::{chars_of, string_of};

verus! {

/// One lexical unit of a command line.
#[derive(Debug, PartialEq, Eq, PartialOrd, Ord, Hash)]
pub enum Token {
    /// `|`
    Pipe,
    /// `<<`
    HereDoc,
    /// `<<<`
    HereString,
    /// `>`
    Redir,
    /// `>|`
    RedirClobber,
    /// `>>`
    RedirAppend,
    /// `<`
    RedirInput,
    /// A double-quoted literal: its content, quotes removed and escapes
    /// expanded.
    DoubleQuotedString(String),
    /// A single-quoted literal: its content, quotes removed, otherwise verbatim.
    SingleQuotedString(String),
    /// `&&`
    AndAnd,
    /// `||`
    OrOr,
    /// End of input.
    Eof,
    /// A maximal run of letters, digits and underscores.
    Word(String),
    /// A maximal run of plain spaces.
    Space,
    /// Text that matches no rule.
    Error,
}

/// A [`Token`] as plain mathematics: the same variants, text as a sequence
/// of characters.
pub enum TokenView {
    Pipe,
    HereDoc,
    HereString,
    Redir,
    RedirClobber,
    RedirAppend,
    RedirInput,
    DoubleQuotedString(Seq<char>),
    SingleQuotedString(Seq<char>),
    AndAnd,
    OrOr,
    Eof,
    Word(Seq<char>),
    Space,
    Error,
}

impl View for Token {
    type V = TokenView;

    open spec fn view(&self) -> TokenView {
        match self {
            Token::Pipe => TokenView::Pipe,
            Token::HereDoc => TokenView::HereDoc,
            Token::HereString => TokenView::HereString,
            Token::Redir => TokenView::Redir,
            Token::RedirClobber => TokenView::RedirClobber,
            Token::RedirAppend => TokenView::RedirAppend,
            Token::RedirInput => TokenView::RedirInput,
            Token::DoubleQuotedString(s) => TokenView::DoubleQuotedString(s@),
            Token::SingleQuotedString(s) => TokenView::SingleQuotedString(s@),
            Token::AndAnd => TokenView::AndAnd,
            Token::OrOr => TokenView::OrOr,
            Token::Eof => TokenView::Eof,
            Token::Word(s) => TokenView::Word(s@),
            Token::Space => TokenView::Space,
            Token::Error => TokenView::Error,
        }
    }
}

impl Clone for Token {
    fn clone(&self) -> (r: Self)
        ensures
            r == *self,
    {
        match self {
            Token::Pipe => Token::Pipe,
            Token::HereDoc => Token::HereDoc,
            Token::HereString => Token::HereString,
            Token::Redir => Token::Redir,
            Token::RedirClobber => Token::RedirClobber,
            Token::RedirAppend => Token::RedirAppend,
            Token::RedirInput => Token::RedirInput,
            Token::DoubleQuotedString(s) => Token::DoubleQuotedString(s.clone()),
            Token::SingleQuotedString(s) => Token::SingleQuotedString(s.clone()),
            Token::AndAnd => Token::AndAnd,
            Token::OrOr => Token::OrOr,
            Token::Eof => Token::Eof,
            Token::Word(s) => Token::Word(s.clone()),
            Token::Space => Token::Space,
            Token::Error => Token::Error,
        }
    }
}

/// The views of a sequence of tokens, in order.
pub open spec fn token_views(tokens: Seq<Token>) -> Seq<TokenView> {
    tokens.map_values(|t: Token| t@)
}

/// Whitespace that the lexer drops: tab, carriage return, form feed, newline.
pub open spec fn is_skipped(c: char) -> bool {
    c == '\t' || c == '\r' || c == '\x0C' || c == '\n'
}

/// The characters a word is made of: ASCII letters, digits and underscore.
pub open spec fn is_word_char(c: char) -> bool {
    ('a' <= c && c <= 'z') || ('A' <= c && c <= 'Z') || ('0' <= c && c <= '9') || c == '_'
}

/// Whether `s` has the character `c` at position `i`.
pub open spec fn has_char(s: Seq<char>, i: int, c: char) -> bool {
    0 <= i < s.len() && s[i] == c
}

/// The end of the run of plain spaces that starts at `i`: the first position
/// from `i` on that holds no space.
pub open spec fn spaces_end(s: Seq<char>, i: int) -> int
    decreases s.len() - i,
{
    if has_char(s, i, ' ') {
        spaces_end(s, i + 1)
    } else {
        i
    }
}

/// The end of the run of word characters that starts at `i`.
pub open spec fn word_end(s: Seq<char>, i: int) -> int
    decreases s.len() - i,
{
    if 0 <= i < s.len() && is_word_char(s[i]) {
        word_end(s, i + 1)
    } else {
        i
    }
}

/// The position of the quote that closes a literal whose content starts at
/// `i`: the first `quote` from `i` on that no backslash escapes. A backslash
/// escapes the character after it, whatever it is. `None` when the input ends
/// first.
pub open spec fn closing_quote(s: Seq<char>, i: int, quote: char) -> Option<int>
    decreases s.len() - i,
{
    if !(0 <= i < s.len()) {
        None
    } else if s[i] == quote {
        Some(i)
    } else if s[i] == '\\' {
        if i + 1 < s.len() {
            closing_quote(s, i + 2, quote)
        } else {
            None
        }
    } else {
        closing_quote(s, i + 1, quote)
    }
}

/// What a backslash followed by `c` stands for inside double quotes, for the
/// escapes that the lexer knows.
pub open spec fn escape_value(c: char) -> Option<char> {
    if c == '"' {
        Some('"')
    } else if c == 'n' {
        Some('\n')
    } else if c == 'r' {
        Some('\r')
    } else if c == 't' {
        Some('\t')
    } else if c == '\\' {
        Some('\\')
    } else {
        None
    }
}

/// The text `s[from..to]` with its escapes expanded, or `None` when it holds
/// a backslash that is followed by no known escape character.
pub open spec fn unescape(s: Seq<char>, from: int, to: int) -> Option<Seq<char>>
    decreases to - from,
{
    if !(0 <= from < to <= s.len()) {
        Some(Seq::empty())
    } else if s[from] != '\\' {
        match unescape(s, from + 1, to) {
            Some(rest) => Some(seq![s[from]] + rest),
            None => None,
        }
    } else if from + 1 < to {
        match (escape_value(s[from + 1]), unescape(s, from + 2, to)) {
            (Some(c), Some(rest)) => Some(seq![c] + rest),
            _ => None,
        }
    } else {
        None
    }
}

/// One step of the scan: the token found (none where whitespace is dropped)
/// and the position at which the scan goes on.
pub struct Scanned {
    pub token: Option<TokenView>,
    pub next: int,
}

/// The quoted literal that opens at `i` with the quote `s[i]`.
///
/// Without a closing quote the rest of the input is one `Error`. A
/// double-quoted literal with an unknown escape is one `Error` as a whole.
pub open spec fn scan_quoted(s: Seq<char>, i: int) -> Scanned {
    match closing_quote(s, i + 1, s[i]) {
        None => Scanned { token: Some(TokenView::Error), next: s.len() as int },
        Some(close) => if s[i] == '\'' {
            Scanned {
                token: Some(TokenView::SingleQuotedString(s.subrange(i + 1, close))),
                next: close + 1,
            }
        } else {
            match unescape(s, i + 1, close) {
                Some(text) => Scanned {
                    token: Some(TokenView::DoubleQuotedString(text)),
                    next: close + 1,
                },
                None => Scanned { token: Some(TokenView::Error), next: close + 1 },
            }
        },
    }
}

/// The operator at `i`, by longest match; a character that starts no operator
/// is an `Error` of its own.
pub open spec fn scan_operator(s: Seq<char>, i: int) -> Scanned {
    if s[i] == '<' {
        if has_char(s, i + 1, '<') {
            if has_char(s, i + 2, '<') {
                Scanned { token: Some(TokenView::HereString), next: i + 3 }
            } else {
                Scanned { token: Some(TokenView::HereDoc), next: i + 2 }
            }
        } else {
            Scanned { token: Some(TokenView::RedirInput), next: i + 1 }
        }
    } else if s[i] == '>' {
        if has_char(s, i + 1, '>') {
            Scanned { token: Some(TokenView::RedirAppend), next: i + 2 }
        } else if has_char(s, i + 1, '|') {
            Scanned { token: Some(TokenView::RedirClobber), next: i + 2 }
        } else {
            Scanned { token: Some(TokenView::Redir), next: i + 1 }
        }
    } else if s[i] == '|' {
        if has_char(s, i + 1, '|') {
            Scanned { token: Some(TokenView::OrOr), next: i + 2 }
        } else {
            Scanned { token: Some(TokenView::Pipe), next: i + 1 }
        }
    } else if s[i] == '&' && has_char(s, i + 1, '&') {
        Scanned { token: Some(TokenView::AndAnd), next: i + 2 }
    } else {
        Scanned { token: Some(TokenView::Error), next: i + 1 }
    }
}

/// What the lexer finds at position `i` of `s`, for `0 <= i < s.len()`.
pub open spec fn scan(s: Seq<char>, i: int) -> Scanned {
    if is_skipped(s[i]) {
        Scanned { token: None, next: i + 1 }
    } else if s[i] == ' ' {
        Scanned { token: Some(TokenView::Space), next: spaces_end(s, i) }
    } else if is_word_char(s[i]) {
        Scanned {
            token: Some(TokenView::Word(s.subrange(i, word_end(s, i)))),
            next: word_end(s, i),
        }
    } else if s[i] == '"' || s[i] == '\'' {
        scan_quoted(s, i)
    } else {
        scan_operator(s, i)
    }
}

/// The tokens of `s` from position `i` on, closed by `Eof`.
pub open spec fn lex_from(s: Seq<char>, i: int) -> Seq<TokenView>
    decreases s.len() - i,
{
    if !(0 <= i < s.len()) {
        seq![TokenView::Eof]
    } else {
        proof {
            lemma_scan_advances(s, i);
        }
        match scan(s, i).token {
            Some(t) => seq![t] + lex_from(s, scan(s, i).next),
            None => lex_from(s, scan(s, i).next),
        }
    }
}

/// The tokens of the text `s`: what [`lex`] returns.
pub open spec fn lex_spec(s: Seq<char>) -> Seq<TokenView> {
    lex_from(s, 0)
}

/// A run of spaces that starts on a space ends after it, within the text.
pub proof fn lemma_spaces_end_bounds(s: Seq<char>, i: int)
    requires
        0 <= i <= s.len(),
    ensures
        i <= spaces_end(s, i) <= s.len(),
        has_char(s, i, ' ') ==> i < spaces_end(s, i),
    decreases s.len() - i,
{
    if has_char(s, i, ' ') {
        lemma_spaces_end_bounds(s, i + 1);
    }
}

/// A run of word characters that starts on one ends after it, within the text.
pub proof fn lemma_word_end_bounds(s: Seq<char>, i: int)
    requires
        0 <= i <= s.len(),
    ensures
        i <= word_end(s, i) <= s.len(),
        i < s.len() && is_word_char(s[i]) ==> i < word_end(s, i),
    decreases s.len() - i,
{
    if i < s.len() && is_word_char(s[i]) {
        lemma_word_end_bounds(s, i + 1);
    }
}

/// A closing quote lies at or after the start of the search, within the text.
pub proof fn lemma_closing_quote_bounds(s: Seq<char>, i: int, quote: char)
    requires
        0 <= i,
    ensures
        closing_quote(s, i, quote) matches Some(close) ==> i <= close < s.len() && s[close]
            == quote,
    decreases s.len() - i,
{
    if 0 <= i < s.len() && s[i] != quote {
        if s[i] == '\\' {
            if i + 1 < s.len() {
                lemma_closing_quote_bounds(s, i + 2, quote);
            }
        } else {
            lemma_closing_quote_bounds(s, i + 1, quote);
        }
    }
}

/// Every step of the scan consumes at least one character and stays within
/// the text: the lexer always makes progress.
pub proof fn lemma_scan_advances(s: Seq<char>, i: int)
    requires
        0 <= i < s.len(),
    ensures
        i < scan(s, i).next <= s.len(),
{
    lemma_spaces_end_bounds(s, i);
    lemma_word_end_bounds(s, i);
    lemma_closing_quote_bounds(s, i + 1, s[i]);
}

/// `head` put in front of `rest`, where there is a rest.
pub open spec fn prefixed(head: Seq<char>, rest: Option<Seq<char>>) -> Option<Seq<char>> {
    match rest {
        Some(r) => Some(head + r),
        None => None,
    }
}

fn is_skipped_char(c: char) -> (b: bool)
    ensures
        b == is_skipped(c),
{
    c == '\t' || c == '\r' || c == '\x0C' || c == '\n'
}

fn is_word_character(c: char) -> (b: bool)
    ensures
        b == is_word_char(c),
{
    (c >= 'a' && c <= 'z') || (c >= 'A' && c <= 'Z') || (c >= '0' && c <= '9') || c == '_'
}

fn find_spaces_end(chars: &Vec<char>, i: usize) -> (end: usize)
    requires
        i <= chars.len(),
    ensures
        end == spaces_end(chars@, i as int),
        i <= end <= chars.len(),
{
    let mut j: usize = i;
    while j < chars.len() && chars[j] == ' '
        invariant
            i <= j <= chars.len(),
            spaces_end(chars@, i as int) == spaces_end(chars@, j as int),
        decreases chars.len() - j,
    {
        j = j + 1;
    }
    j
}

fn find_word_end(chars: &Vec<char>, i: usize) -> (end: usize)
    requires
        i <= chars.len(),
    ensures
        end == word_end(chars@, i as int),
        i <= end <= chars.len(),
{
    let mut j: usize = i;
    while j < chars.len() && is_word_character(chars[j])
        invariant
            i <= j <= chars.len(),
            word_end(chars@, i as int) == word_end(chars@, j as int),
        decreases chars.len() - j,
    {
        j = j + 1;
    }
    j
}

fn find_closing_quote(chars: &Vec<char>, i: usize, quote: char) -> (r: Option<usize>)
    requires
        i <= chars.len(),
    ensures
        r is Some <==> closing_quote(chars@, i as int, quote) is Some,
        r matches Some(close) ==> closing_quote(chars@, i as int, quote) == Some(close as int)
            && i <= close < chars.len(),
{
    let mut j: usize = i;
    while j < chars.len()
        invariant
            i <= j <= chars.len(),
            closing_quote(chars@, i as int, quote) == closing_quote(chars@, j as int, quote),
        decreases chars.len() - j,
    {
        let c = chars[j];
        if c == quote {
            return Some(j);
        } else if c == '\\' {
            if j + 1 < chars.len() {
                j = j + 2;
            } else {
                return None;
            }
        } else {
            j = j + 1;
        }
    }
    None
}

fn escape_char(c: char) -> (r: Option<char>)
    ensures
        r == escape_value(c),
{
    if c == '"' {
        Some('"')
    } else if c == 'n' {
        Some('\n')
    } else if c == 'r' {
        Some('\r')
    } else if c == 't' {
        Some('\t')
    } else if c == '\\' {
        Some('\\')
    } else {
        None
    }
}

fn unescape_text(chars: &Vec<char>, from: usize, to: usize) -> (r: Option<String>)
    requires
        from <= to <= chars.len(),
    ensures
        r is Some <==> unescape(chars@, from as int, to as int) is Some,
        r matches Some(text) ==> unescape(chars@, from as int, to as int) == Some(text@),
{
    let mut out = String::new();
    let mut k: usize = from;
    while k < to
        invariant
            from <= k <= to <= chars.len(),
            unescape(chars@, from as int, to as int) == prefixed(
                out@,
                unescape(chars@, k as int, to as int),
            ),
        decreases to - k,
    {
        let ghost before = out@;
        let c = chars[k];
        if c != '\\' {
            out.push(c);
            proof {
                let rest = unescape(chars@, k + 1, to as int);
                if rest is Some {
                    assert(before + (seq![c] + rest.unwrap()) =~= before.push(c) + rest.unwrap());
                }
            }
            k = k + 1;
        } else if k + 1 < to {
            match escape_char(chars[k + 1]) {
                Some(v) => {
                    out.push(v);
                    proof {
                        let rest = unescape(chars@, k + 2, to as int);
                        if rest is Some {
                            assert(before + (seq![v] + rest.unwrap()) =~= before.push(v)
                                + rest.unwrap());
                        }
                    }
                    k = k + 2;
                },
                None => {
                    return None;
                },
            }
        } else {
            return None;
        }
    }
    proof {
        assert(out@ + Seq::<char>::empty() =~= out@);
    }
    Some(out)
}

fn scan_quoted_token(chars: &Vec<char>, i: usize) -> (r: (Token, usize))
    requires
        i < chars.len(),
        chars@[i as int] == '"' || chars@[i as int] == '\'',
    ensures
        scan_quoted(chars@, i as int) == (Scanned { token: Some(r.0@), next: r.1 as int }),
        i < r.1 <= chars.len(),
{
    let quote = chars[i];
    match find_closing_quote(chars, i + 1, quote) {
        None => (Token::Error, chars.len()),
        Some(close) => {
            if quote == '\'' {
                (Token::SingleQuotedString(string_of(chars, i + 1, close)), close + 1)
            } else {
                match unescape_text(chars, i + 1, close) {
                    Some(text) => (Token::DoubleQuotedString(text), close + 1),
                    None => (Token::Error, close + 1),
                }
            }
        },
    }
}

fn holds(chars: &Vec<char>, i: usize, c: char) -> (b: bool)
    ensures
        b == has_char(chars@, i as int, c),
{
    i < chars.len() && chars[i] == c
}

fn scan_operator_token(chars: &Vec<char>, i: usize) -> (r: (Token, usize))
    requires
        i < chars.len(),
    ensures
        scan_operator(chars@, i as int) == (Scanned { token: Some(r.0@), next: r.1 as int }),
        i < r.1 <= chars.len(),
{
    let c = chars[i];
    if c == '<' {
        if holds(chars, i + 1, '<') {
            if holds(chars, i + 2, '<') {
                (Token::HereString, i + 3)
            } else {
                (Token::HereDoc, i + 2)
            }
        } else {
            (Token::RedirInput, i + 1)
        }
    } else if c == '>' {
        if holds(chars, i + 1, '>') {
            (Token::RedirAppend, i + 2)
        } else if holds(chars, i + 1, '|') {
            (Token::RedirClobber, i + 2)
        } else {
            (Token::Redir, i + 1)
        }
    } else if c == '|' {
        if holds(chars, i + 1, '|') {
            (Token::OrOr, i + 2)
        } else {
            (Token::Pipe, i + 1)
        }
    } else if c == '&' && holds(chars, i + 1, '&') {
        (Token::AndAnd, i + 2)
    } else {
        (Token::Error, i + 1)
    }
}

fn scan_token(chars: &Vec<char>, i: usize) -> (r: (Option<Token>, usize))
    requires
        i < chars.len(),
    ensures
        scan(chars@, i as int).next == r.1,
        match r.0 {
            Some(t) => scan(chars@, i as int).token == Some(t@),
            None => scan(chars@, i as int).token is None,
        },
        i < r.1 <= chars.len(),
{
    let c = chars[i];
    proof {
        lemma_scan_advances(chars@, i as int);
    }
    if is_skipped_char(c) {
        (None, i + 1)
    } else if c == ' ' {
        (Some(Token::Space), find_spaces_end(chars, i))
    } else if is_word_character(c) {
        let end = find_word_end(chars, i);
        (Some(Token::Word(string_of(chars, i, end))), end)
    } else if c == '"' || c == '\'' {
        let (token, next) = scan_quoted_token(chars, i);
        (Some(token), next)
    } else {
        let (token, next) = scan_operator_token(chars, i);
        (Some(token), next)
    }
}

/// Turns `input` into its tokens, in order, closed by `Eof`.
///
/// Lexing never fails: text that matches no rule becomes `Error` tokens, and
/// the status is always `0`.
#[must_use]
pub fn lex(input: &str, _options: Options) -> (r: (i32, Vec<Token>))
    ensures
        r.0 == 0,
        token_views(r.1@) == lex_spec(input@),
{
    let chars = chars_of(input);
    let mut tokens: Vec<Token> = Vec::new();
    let mut i: usize = 0;
    assert(token_views(tokens@) + lex_from(chars@, 0) =~= lex_from(chars@, 0));
    while i < chars.len()
        invariant
            i <= chars.len(),
            lex_spec(chars@) == token_views(tokens@) + lex_from(chars@, i as int),
        decreases chars.len() - i,
    {
        let ghost before = tokens@;
        let (token, next) = scan_token(&chars, i);
        match token {
            Some(t) => {
                tokens.push(t);
                assert(token_views(tokens@) + lex_from(chars@, next as int) =~= token_views(before)
                    + (seq![t@] + lex_from(chars@, next as int)));
            },
            None => {},
        }
        i = next;
    }
    let ghost before = tokens@;
    tokens.push(Token::Eof);
    assert(token_views(tokens@) =~= token_views(before) + seq![TokenView::Eof]);
    (0, tokens)
}


proof fn lemma_lex_from_whitespace(s: Seq<char>, i: int)
    requires
        0 <= i,
        forall|k: int| 0 <= k < s.len() ==> is_skipped(#[trigger] s[k]),
    ensures
        lex_from(s, i) == seq![TokenView::Eof],
    decreases s.len() - i,
{
    if i < s.len() {
        lemma_lex_from_whitespace(s, i + 1);
    }
}

/// Text made only of dropped whitespace (tab, carriage return, form feed,
/// newline) has no token but the closing `Eof`.
pub proof fn lemma_lex_whitespace_only(s: Seq<char>)
    requires
        forall|k: int| 0 <= k < s.len() ==> is_skipped(#[trigger] s[k]),
    ensures
        lex_spec(s) == seq![TokenView::Eof],
{
    lemma_lex_from_whitespace(s, 0);
}

proof fn lemma_lex_from_single_eof(s: Seq<char>, i: int)
    requires
        0 <= i,
    ensures
        lex_from(s, i).len() >= 1,
        lex_from(s, i).last() == TokenView::Eof,
        forall|k: int| 0 <= k < lex_from(s, i).len() - 1 ==> !(#[trigger] lex_from(s, i)[k] is Eof),
    decreases s.len() - i,
{
    if i < s.len() {
        lemma_scan_advances(s, i);
        lemma_lex_from_single_eof(s, scan(s, i).next);
        let rest = lex_from(s, scan(s, i).next);
        if let Some(t) = scan(s, i).token {
            assert(!(t is Eof));
            let all = seq![t] + rest;
            assert(all.last() == rest.last());
            assert forall|k: int| 0 <= k < all.len() - 1 implies !(#[trigger] all[k] is Eof) by {
                if k > 0 {
                    assert(all[k] == rest[k - 1]);
                }
            }
        }
    }
}

/// The tokens of any text end with `Eof`, and hold no other `Eof`.
pub proof fn lemma_lex_single_eof(s: Seq<char>)
    ensures
        lex_spec(s).len() >= 1,
        lex_spec(s).last() == TokenView::Eof,
        forall|k: int| 0 <= k < lex_spec(s).len() - 1 ==> !(#[trigger] lex_spec(s)[k] is Eof),
{
    lemma_lex_from_single_eof(s, 0);
}


/// Lexes what was read of a file: `None` stands for a file that could not be
/// opened or read, and gives the status `1` and no tokens; text is lexed as
/// [`lex`] does.
#[must_use]
pub fn lex_input(contents: Option<&str>, options: Options) -> (r: (i32, Vec<Token>))
    ensures
        contents is None ==> r.0 == 1 && r.1@.len() == 0,
        contents is Some ==> r.0 == 0 && token_views(r.1@) == lex_spec(contents->Some_0@),
{
    match contents {
        Some(text) => lex(text, options),
        None => (1, Vec::new()),
    }
}

/// Operator longest-match: three `<` are one `HereString`, never a `HereDoc`
/// and a `RedirInput`, and two `>` are one `RedirAppend`, never two `Redir`.
pub proof fn lemma_longest_match()
    ensures
        lex_spec(seq!['<', '<', '<']) == seq![TokenView::HereString, TokenView::Eof],
        lex_spec(seq!['>', '>']) == seq![TokenView::RedirAppend, TokenView::Eof],
{
    let angles = seq!['<', '<', '<'];
    assert(scan(angles, 0) == Scanned { token: Some(TokenView::HereString), next: 3 });
    assert(lex_from(angles, 3) == seq![TokenView::Eof]);
    assert(lex_from(angles, 0) =~= seq![TokenView::HereString] + lex_from(angles, 3));
    let arrows = seq!['>', '>'];
    assert(scan(arrows, 0) == Scanned { token: Some(TokenView::RedirAppend), next: 2 });
    assert(lex_from(arrows, 2) == seq![TokenView::Eof]);
    assert(lex_from(arrows, 0) =~= seq![TokenView::RedirAppend] + lex_from(arrows, 2));
}

/// A sequence of tokens.
pub type Tokens = Vec<Token>;


} // verus!
