use vstd::prelude::*;
use vstd::string::StringExecFns;
use crate::lex::{Token, TokenView, Tokens, token_views};
use crate::lookahead::Lookahead;
use crate::options::Options;
use crate::text::string_views;

verus! {

/// One parsed directive of a command line.
#[derive(Clone, Debug, PartialEq, Eq, PartialOrd, Ord, Hash)]
pub enum ParsedToken {
    /// A command: its name and its arguments.
    Command(String, Vec<String>),
    /// `> target`
    Redir(String),
    /// `|`: the slots left and right of the connector.
    Pipe(usize, usize),
    /// `<<`: the slot of this directive, and the collected body.
    HereDoc(usize, String),
    /// `<<<`: the slot of this directive, and the text.
    HereString(usize, String),
    /// `>| target`
    RedirClobber(String),
    /// `>> target`
    RedirAppend(String),
    /// `< target`
    RedirInput(String),
    /// `&&`: the slots left and right of the connector.
    AndAnd(usize, usize),
    /// `||`: the slots left and right of the connector.
    OrOr(usize, usize),
    /// End of the directives; always the last one, and only there.
    Eof,
    /// A malformed construct, with what was wrong.
    Error(String),
    /// Quoted text; adjacent quoted literals merge into one.
    String(String),
    /// A word boundary.
    Delimiter,
}

/// A [`ParsedToken`] as plain mathematics.
pub enum ParsedTokenView {
    Command(Seq<char>, Seq<Seq<char>>),
    Redir(Seq<char>),
    Pipe(int, int),
    HereDoc(int, Seq<char>),
    HereString(int, Seq<char>),
    RedirClobber(Seq<char>),
    RedirAppend(Seq<char>),
    RedirInput(Seq<char>),
    AndAnd(int, int),
    OrOr(int, int),
    Eof,
    Error(Seq<char>),
    String(Seq<char>),
    Delimiter,
}

impl View for ParsedToken {
    type V = ParsedTokenView;

    open spec fn view(&self) -> ParsedTokenView {
        match self {
            ParsedToken::Command(name, args) => ParsedTokenView::Command(
                name@,
                string_views(args@),
            ),
            ParsedToken::Redir(t) => ParsedTokenView::Redir(t@),
            ParsedToken::Pipe(l, r) => ParsedTokenView::Pipe(*l as int, *r as int),
            ParsedToken::HereDoc(i, b) => ParsedTokenView::HereDoc(*i as int, b@),
            ParsedToken::HereString(i, b) => ParsedTokenView::HereString(*i as int, b@),
            ParsedToken::RedirClobber(t) => ParsedTokenView::RedirClobber(t@),
            ParsedToken::RedirAppend(t) => ParsedTokenView::RedirAppend(t@),
            ParsedToken::RedirInput(t) => ParsedTokenView::RedirInput(t@),
            ParsedToken::AndAnd(l, r) => ParsedTokenView::AndAnd(*l as int, *r as int),
            ParsedToken::OrOr(l, r) => ParsedTokenView::OrOr(*l as int, *r as int),
            ParsedToken::Eof => ParsedTokenView::Eof,
            ParsedToken::Error(m) => ParsedTokenView::Error(m@),
            ParsedToken::String(t) => ParsedTokenView::String(t@),
            ParsedToken::Delimiter => ParsedTokenView::Delimiter,
        }
    }
}

/// The views of a sequence of directives, in order.
pub open spec fn directive_views(directives: Seq<ParsedToken>) -> Seq<ParsedTokenView> {
    directives.map_values(|d: ParsedToken| d@)
}

/// The message of the directive that stands for an `Error` token.
pub open spec fn msg_token() -> Seq<char> {
    "Error parsing token"@
}

/// The message for a redirection operator that no word follows.
pub open spec fn msg_redirection() -> Seq<char> {
    "Expected a filename after redirection"@
}

/// The message for a heredoc whose terminator is missing or never comes back.
pub open spec fn msg_heredoc() -> Seq<char> {
    "HereDoc: End token not found"@
}

/// The message for a herestring operator that no word follows.
pub open spec fn msg_herestring() -> Seq<char> {
    "HereString: No string found"@
}

/// The text of the token at position `i`, if there is a token there and it
/// is a `Word`.
pub open spec fn word_at(tokens: Seq<TokenView>, i: int) -> Option<Seq<char>> {
    if 0 <= i < tokens.len() {
        match tokens[i] {
            TokenView::Word(w) => Some(w),
            _ => None,
        }
    } else {
        None
    }
}

/// The characters that a backslash protects inside double quotes: the
/// backslash goes, the character stays.
pub open spec fn is_protected(c: char) -> bool {
    c == '$' || c == '`' || c == '"' || c == '\\' || c == '!'
}

/// The second escape pass over the text of a double-quoted literal, from
/// position `from` on.
///
/// A backslash before a protected character is dropped. A bare backtick gets
/// a backslash in front, and so does a bare `$` that `(` or `{` follows.
/// Everything else stays as it is.
pub open spec fn protect(s: Seq<char>, from: int) -> Seq<char>
    decreases s.len() - from,
{
    if !(0 <= from < s.len()) {
        Seq::empty()
    } else if s[from] == '\\' && from + 1 < s.len() && is_protected(s[from + 1]) {
        seq![s[from + 1]] + protect(s, from + 2)
    } else if s[from] == '`' {
        seq!['\\', '`'] + protect(s, from + 1)
    } else if s[from] == '$' && from + 1 < s.len() && (s[from + 1] == '(' || s[from + 1]
        == '{') {
        seq!['\\', '$'] + protect(s, from + 1)
    } else {
        seq![s[from]] + protect(s, from + 1)
    }
}

/// Whether the input ends at position `i`: there is no token there, or the
/// token is `Eof`.
pub open spec fn ends_input(tokens: Seq<TokenView>, i: int) -> bool {
    !(0 <= i < tokens.len()) || tokens[i] is Eof
}

/// The position of the first word from `i` on; tokens that are no words are
/// passed over. `None` when the input ends first.
pub open spec fn next_word(tokens: Seq<TokenView>, i: int) -> Option<int>
    decreases tokens.len() - i,
{
    if ends_input(tokens, i) {
        None
    } else if tokens[i] is Word {
        Some(i)
    } else {
        next_word(tokens, i + 1)
    }
}

/// `head` put in front of the body of a heredoc, where one was found.
pub open spec fn with_body_prefix(head: Seq<char>, found: Option<(Seq<char>, int)>) -> Option<
    (Seq<char>, int),
> {
    match found {
        Some((body, end)) => Some((head + body, end)),
        None => None,
    }
}

/// The body and the end of a heredoc whose terminator is `end_word`, read
/// from position `i` on: the texts of the words before the first word equal to
/// `end_word`, concatenated, and the position of that word. Tokens that are no
/// words are passed over and leave nothing in the body. `None` when the input
/// ends before the terminator returns.
pub open spec fn heredoc_body(tokens: Seq<TokenView>, i: int, end_word: Seq<char>) -> Option<
    (Seq<char>, int),
>
    decreases tokens.len() - i,
{
    if ends_input(tokens, i) {
        None
    } else {
        match tokens[i] {
            TokenView::Word(w) => if w == end_word {
                Some((Seq::empty(), i))
            } else {
                with_body_prefix(w, heredoc_body(tokens, i + 1, end_word))
            },
            _ => heredoc_body(tokens, i + 1, end_word),
        }
    }
}

/// The heredoc whose operator stands at position `pos`: the first word after
/// the operator is its terminator, and what follows that word is read as its
/// body. The body and the position of the terminator's return, or `None`
/// when the input ends before a terminator is found or before it returns.
pub open spec fn heredoc(tokens: Seq<TokenView>, pos: int) -> Option<(Seq<char>, int)> {
    match next_word(tokens, pos + 1) {
        Some(at) => heredoc_body(tokens, at + 1, tokens[at]->Word_0),
        None => None,
    }
}

/// The directive that the redirection operator `op` makes of `target`.
pub open spec fn redirection(op: TokenView, target: Seq<char>) -> ParsedTokenView {
    match op {
        TokenView::Redir => ParsedTokenView::Redir(target),
        TokenView::RedirAppend => ParsedTokenView::RedirAppend(target),
        TokenView::RedirClobber => ParsedTokenView::RedirClobber(target),
        _ => ParsedTokenView::RedirInput(target),
    }
}

/// The slot to the left of a connector that will stand in slot `slot`: the
/// one before it, or slot `0` where the connector comes first.
pub open spec fn left_slot(slot: int) -> int {
    if slot > 0 {
        slot - 1
    } else {
        0
    }
}

/// The directive that the connector `op` makes of the slots `left` and `right`.
pub open spec fn connector(op: TokenView, left: int, right: int) -> ParsedTokenView {
    match op {
        TokenView::Pipe => ParsedTokenView::Pipe(left, right),
        TokenView::AndAnd => ParsedTokenView::AndAnd(left, right),
        _ => ParsedTokenView::OrOr(left, right),
    }
}

/// `out` after quoted text arrives: the text joins an open `String`, else it
/// opens a new one.
pub open spec fn with_text(out: Seq<ParsedTokenView>, text: Seq<char>) -> Seq<ParsedTokenView> {
    if out.len() > 0 && out.last() is String {
        out.drop_last().push(ParsedTokenView::String(out.last()->String_0 + text))
    } else {
        out.push(ParsedTokenView::String(text))
    }
}

/// `out` after a word arrives: the word is an argument of an open `Command`,
/// else it opens a new one.
pub open spec fn with_word(out: Seq<ParsedTokenView>, word: Seq<char>) -> Seq<ParsedTokenView> {
    if out.len() > 0 && out.last() is Command {
        out.drop_last().push(
            ParsedTokenView::Command(out.last()->Command_0, out.last()->Command_1.push(word)),
        )
    } else {
        out.push(ParsedTokenView::Command(word, Seq::empty()))
    }
}

/// `out` after a run of spaces arrives.
pub open spec fn with_space(out: Seq<ParsedTokenView>) -> Seq<ParsedTokenView> {
    if out.len() > 0 && out.last() is String {
        with_text(out, seq![' '])
    } else if out.len() > 0 && (out.last() is Delimiter || out.last() is Command) {
        out
    } else {
        out.push(ParsedTokenView::Delimiter)
    }
}

/// The state of the parser between two tokens: the directives so far and the
/// position of the next token to read.
pub struct ParseState {
    pub out: Seq<ParsedTokenView>,
    pub next: int,
}

/// What the parser does with the token at position `pos`, which is no `Eof`:
/// the directives after it, and the position of the next token to read.
///
/// - An `Error` token gives an `Error` directive.
/// - A connector gives its directive with the slot before it and the slot
///   after it.
/// - A redirection or a herestring looks at the token that follows it: a
///   word is taken as its operand and is not read again; anything else is
///   left to be read, and the directive is an `Error`.
/// - A heredoc looks ahead for its terminator, the first word after it, and
///   for its body, the words after that up to the terminator's return;
///   tokens that are no words are passed over. All of these are then taken.
///   Where the input ends before the terminator is found or returns, nothing
///   is taken and the directive is an `Error`.
/// - Quoted text joins an open `String` or opens one; of a double-quoted
///   literal the protected text is taken, and where that is empty nothing
///   happens.
/// - A word joins an open `Command` as an argument, or opens one.
/// - A space joins an open `String`, is dropped after a `Delimiter` or an
///   open `Command`, and is a `Delimiter` otherwise.
pub open spec fn parse_step(tokens: Seq<TokenView>, pos: int, out: Seq<ParsedTokenView>) -> ParseState {
    match tokens[pos] {
        TokenView::Error => ParseState {
            out: out.push(ParsedTokenView::Error(msg_token())),
            next: pos + 1,
        },
        TokenView::Pipe | TokenView::AndAnd | TokenView::OrOr => ParseState {
            out: out.push(connector(tokens[pos], left_slot(out.len() as int), out.len() as int + 1)),
            next: pos + 1,
        },
        TokenView::Redir | TokenView::RedirAppend | TokenView::RedirClobber | TokenView::RedirInput => {
            match word_at(tokens, pos + 1) {
                Some(target) => ParseState {
                    out: out.push(redirection(tokens[pos], target)),
                    next: pos + 2,
                },
                None => ParseState {
                    out: out.push(ParsedTokenView::Error(msg_redirection())),
                    next: pos + 1,
                },
            }
        },
        TokenView::HereDoc => match heredoc(tokens, pos) {
            Some((body, end)) => ParseState {
                out: out.push(ParsedTokenView::HereDoc(out.len() as int, body)),
                next: end + 1,
            },
            None => ParseState {
                out: out.push(ParsedTokenView::Error(msg_heredoc())),
                next: pos + 1,
            },
        },
        TokenView::HereString => match word_at(tokens, pos + 1) {
            Some(text) => ParseState {
                out: out.push(ParsedTokenView::HereString(out.len() as int, text)),
                next: pos + 2,
            },
            None => ParseState {
                out: out.push(ParsedTokenView::Error(msg_herestring())),
                next: pos + 1,
            },
        },
        TokenView::DoubleQuotedString(s) => ParseState {
            out: if protect(s, 0).len() == 0 {
                out
            } else {
                with_text(out, protect(s, 0))
            },
            next: pos + 1,
        },
        TokenView::SingleQuotedString(s) => ParseState { out: with_text(out, s), next: pos + 1 },
        TokenView::Word(w) => ParseState { out: with_word(out, w), next: pos + 1 },
        TokenView::Space => ParseState { out: with_space(out), next: pos + 1 },
        TokenView::Eof => ParseState { out: out.push(ParsedTokenView::Eof), next: pos + 1 },
    }
}

/// A word that is found lies at or after the start of the search, within the
/// tokens.
pub proof fn lemma_next_word_bounds(tokens: Seq<TokenView>, i: int)
    requires
        0 <= i,
    ensures
        next_word(tokens, i) matches Some(at) ==> i <= at < tokens.len() && tokens[at] is Word,
    decreases tokens.len() - i,
{
    if !ends_input(tokens, i) && !(tokens[i] is Word) {
        lemma_next_word_bounds(tokens, i + 1);
    }
}

/// A heredoc ends at or after the position its body starts at, on its
/// terminator, within the tokens.
pub proof fn lemma_heredoc_body_bounds(tokens: Seq<TokenView>, i: int, end_word: Seq<char>)
    requires
        0 <= i,
    ensures
        heredoc_body(tokens, i, end_word) matches Some((_, end)) ==> i <= end < tokens.len()
            && tokens[end] == TokenView::Word(end_word),
    decreases tokens.len() - i,
{
    if !ends_input(tokens, i) {
        match tokens[i] {
            TokenView::Word(w) => {
                if w != end_word {
                    lemma_heredoc_body_bounds(tokens, i + 1, end_word);
                }
            },
            _ => {
                lemma_heredoc_body_bounds(tokens, i + 1, end_word);
            },
        }
    }
}

/// Every step consumes at least one token, stays within the tokens, and adds
/// at most one directive.
pub proof fn lemma_parse_step_advances(
    tokens: Seq<TokenView>,
    pos: int,
    out: Seq<ParsedTokenView>,
)
    requires
        0 <= pos < tokens.len(),
    ensures
        pos < parse_step(tokens, pos, out).next <= tokens.len(),
        out.len() <= parse_step(tokens, pos, out).out.len() <= out.len() + 1,
{
    lemma_next_word_bounds(tokens, pos + 1);
    if let Some(at) = next_word(tokens, pos + 1) {
        lemma_heredoc_body_bounds(tokens, at + 1, tokens[at]->Word_0);
    }
}

/// The directives that come of `tokens` from position `pos` on, after `out`.
///
/// The first `Eof` token ends the directives, and so does the end of the
/// tokens: tokens without an `Eof` are read as if one followed them.
pub open spec fn parse_from(tokens: Seq<TokenView>, pos: int, out: Seq<ParsedTokenView>) -> Seq<
    ParsedTokenView,
>
    decreases tokens.len() - pos,
{
    if !(0 <= pos < tokens.len()) || tokens[pos] is Eof {
        out.push(ParsedTokenView::Eof)
    } else {
        proof {
            lemma_parse_step_advances(tokens, pos, out);
        }
        parse_from(tokens, parse_step(tokens, pos, out).next, parse_step(tokens, pos, out).out)
    }
}

/// The directives of `tokens`: what [`parse`] returns.
pub open spec fn parse_spec(tokens: Seq<TokenView>) -> Seq<ParsedTokenView> {
    parse_from(tokens, 0, Seq::empty())
}

fn protect_text(text: &String) -> (r: String)
    ensures
        r@ == protect(text@, 0),
{
    let chars = crate::text::chars_of(text.as_str());
    let mut out = String::new();
    let mut k: usize = 0;
    assert(out@ + protect(chars@, 0) =~= protect(chars@, 0));
    while k < chars.len()
        invariant
            k <= chars.len(),
            chars@ == text@,
            protect(chars@, 0) == out@ + protect(chars@, k as int),
        decreases chars.len() - k,
    {
        let ghost before = out@;
        let c = chars[k];
        if c == '\\' && k + 1 < chars.len() && is_protected_char(chars[k + 1]) {
            out.push(chars[k + 1]);
            assert(out@ + protect(chars@, k + 2) =~= before + (seq![chars@[k + 1]] + protect(
                chars@,
                k + 2,
            )));
            k = k + 2;
        } else if c == '`' {
            out.push('\\');
            out.push('`');
            assert(out@ + protect(chars@, k + 1) =~= before + (seq!['\\', '`'] + protect(
                chars@,
                k + 1,
            )));
            k = k + 1;
        } else if c == '$' && k + 1 < chars.len() && (chars[k + 1] == '(' || chars[k + 1]
            == '{') {
            out.push('\\');
            out.push('$');
            assert(out@ + protect(chars@, k + 1) =~= before + (seq!['\\', '$'] + protect(
                chars@,
                k + 1,
            )));
            k = k + 1;
        } else {
            out.push(c);
            assert(out@ + protect(chars@, k + 1) =~= before + (seq![c] + protect(chars@, k + 1)));
            k = k + 1;
        }
    }
    assert(out@ + Seq::<char>::empty() =~= out@);
    out
}

fn is_protected_char(c: char) -> (b: bool)
    ensures
        b == is_protected(c),
{
    c == '$' || c == '`' || c == '"' || c == '\\' || c == '!'
}

fn push_text(parsed: &mut Vec<ParsedToken>, text: &String)
    ensures
        directive_views(final(parsed)@) == with_text(directive_views(old(parsed)@), text@),
{
    let ghost before = parsed@;
    match parsed.pop() {
        Some(ParsedToken::String(open)) => {
            let mut open = open;
            open.append(text.as_str());
            parsed.push(ParsedToken::String(open));
            assert(directive_views(parsed@) =~= with_text(directive_views(before), text@));
        },
        Some(other) => {
            parsed.push(other);
            assert(parsed@ =~= before);
            parsed.push(ParsedToken::String(text.clone()));
            assert(directive_views(parsed@) =~= with_text(directive_views(before), text@));
        },
        None => {
            parsed.push(ParsedToken::String(text.clone()));
            assert(directive_views(parsed@) =~= with_text(directive_views(before), text@));
        },
    }
}

fn push_word(parsed: &mut Vec<ParsedToken>, word: String)
    ensures
        directive_views(final(parsed)@) == with_word(directive_views(old(parsed)@), word@),
{
    let ghost before = parsed@;
    match parsed.pop() {
        Some(ParsedToken::Command(name, args)) => {
            let mut args = args;
            let ghost old_args = args@;
            args.push(word);
            assert(string_views(args@) =~= string_views(old_args).push(word@));
            parsed.push(ParsedToken::Command(name, args));
            assert(directive_views(parsed@) =~= with_word(directive_views(before), word@));
        },
        Some(other) => {
            parsed.push(other);
            assert(parsed@ =~= before);
            let args: Vec<String> = Vec::new();
            assert(string_views(args@) =~= Seq::<Seq<char>>::empty());
            parsed.push(ParsedToken::Command(word, args));
            assert(directive_views(parsed@) =~= with_word(directive_views(before), word@));
        },
        None => {
            let args: Vec<String> = Vec::new();
            assert(string_views(args@) =~= Seq::<Seq<char>>::empty());
            parsed.push(ParsedToken::Command(word, args));
            assert(directive_views(parsed@) =~= with_word(directive_views(before), word@));
        },
    }
}

fn push_space(parsed: &mut Vec<ParsedToken>)
    ensures
        directive_views(final(parsed)@) == with_space(directive_views(old(parsed)@)),
{
    let ghost before = parsed@;
    match parsed.pop() {
        Some(ParsedToken::String(open)) => {
            let mut open = open;
            let ghost old_text = open@;
            open.push(' ');
            assert(open@ =~= old_text + seq![' ']);
            parsed.push(ParsedToken::String(open));
            assert(directive_views(parsed@) =~= with_space(directive_views(before)));
        },
        Some(ParsedToken::Delimiter) => {
            parsed.push(ParsedToken::Delimiter);
            assert(parsed@ =~= before);
        },
        Some(ParsedToken::Command(name, args)) => {
            parsed.push(ParsedToken::Command(name, args));
            assert(parsed@ =~= before);
        },
        Some(other) => {
            parsed.push(other);
            assert(parsed@ =~= before);
            parsed.push(ParsedToken::Delimiter);
            assert(directive_views(parsed@) =~= with_space(directive_views(before)));
        },
        None => {
            parsed.push(ParsedToken::Delimiter);
            assert(directive_views(parsed@) =~= with_space(directive_views(before)));
        },
    }
}

fn push_directive(parsed: &mut Vec<ParsedToken>, directive: ParsedToken)
    ensures
        final(parsed)@ == old(parsed)@.push(directive),
        directive_views(final(parsed)@) == directive_views(old(parsed)@).push(directive@),
{
    let ghost before = parsed@;
    parsed.push(directive);
    assert(directive_views(parsed@) =~= directive_views(before).push(directive@));
}

fn error_directive(message: &str) -> (d: ParsedToken)
    ensures
        d@ == ParsedTokenView::Error(message@),
{
    ParsedToken::Error(message.to_owned())
}


fn peek_word(stream: &mut Lookahead<Token>) -> (r: Option<String>)
    ensures
        final(stream)@ == old(stream)@,
        match r {
            Some(w) => word_at(token_views(old(stream)@.items), old(stream)@.peek) == Some(w@),
            None => word_at(token_views(old(stream)@.items), old(stream)@.peek) is None,
        },
{
    match stream.current() {
        Some(Token::Word(w)) => Some(w),
        _ => None,
    }
}

/// What the stream shows at its peek position.
enum Seen {
    Word(String),
    Other,
    End,
}

fn look(stream: &mut Lookahead<Token>) -> (r: Seen)
    ensures
        final(stream)@ == old(stream)@,
        match r {
            Seen::Word(w) => !ends_input(token_views(old(stream)@.items), old(stream)@.peek)
                && token_views(old(stream)@.items)[old(stream)@.peek] == TokenView::Word(w@),
            Seen::Other => !ends_input(token_views(old(stream)@.items), old(stream)@.peek)
                && !(token_views(old(stream)@.items)[old(stream)@.peek] is Word),
            Seen::End => ends_input(token_views(old(stream)@.items), old(stream)@.peek),
        },
{
    match stream.current() {
        Some(Token::Word(w)) => Seen::Word(w),
        Some(Token::Eof) => Seen::End,
        Some(_) => Seen::Other,
        None => Seen::End,
    }
}

fn skip_to_word(stream: &mut Lookahead<Token>) -> (r: Option<(String, usize)>)
    requires
        0 <= old(stream)@.peek <= old(stream)@.items.len(),
    ensures
        final(stream)@.items == old(stream)@.items,
        final(stream)@.real == old(stream)@.real,
        match r {
            Some((word, passed)) => next_word(
                token_views(old(stream)@.items),
                old(stream)@.peek,
            ) == Some(old(stream)@.peek + passed) && final(stream)@.peek == old(stream)@.peek
                + passed && final(stream)@.peek < old(stream)@.items.len() && token_views(
                old(stream)@.items,
            )[final(stream)@.peek] == TokenView::Word(word@),
            None => next_word(token_views(old(stream)@.items), old(stream)@.peek) is None
                && final(stream)@.peek == old(stream)@.peek,
        },
{
    let ghost tokens = token_views(stream@.items);
    let ghost start = stream@.peek;
    let mut passed: usize = 0;
    proof {
        stream.lemma_items_fit();
    }
    loop
        invariant
            stream@.items == old(stream)@.items,
            stream@.real == old(stream)@.real,
            tokens == token_views(stream@.items),
            start == old(stream)@.peek,
            0 <= start,
            stream@.peek == start + passed,
            start + passed <= stream@.items.len() <= usize::MAX,
            next_word(tokens, start) == next_word(tokens, start + passed),
        decreases stream@.items.len() - start - passed,
    {
        match look(stream) {
            Seen::Word(word) => {
                return Some((word, passed));
            },
            Seen::Other => {
                stream.forward(1);
                passed = passed + 1;
            },
            Seen::End => {
                stream.backward(passed);
                return None;
            },
        }
    }
}

fn read_body(stream: &mut Lookahead<Token>, end_word: &String) -> (r: Option<String>)
    requires
        0 <= old(stream)@.peek <= old(stream)@.items.len(),
    ensures
        final(stream)@.items == old(stream)@.items,
        final(stream)@.real == old(stream)@.real,
        match r {
            Some(body) => heredoc_body(
                token_views(old(stream)@.items),
                old(stream)@.peek,
                end_word@,
            ) == Some((body@, final(stream)@.peek - 1)),
            None => heredoc_body(token_views(old(stream)@.items), old(stream)@.peek, end_word@)
                is None && final(stream)@.peek == old(stream)@.peek,
        },
{
    let ghost tokens = token_views(stream@.items);
    let ghost start = stream@.peek;
    let mut body = String::new();
    let mut passed: usize = 0;
    proof {
        stream.lemma_items_fit();
    }
    assert(with_body_prefix(body@, heredoc_body(tokens, start, end_word@)) =~= heredoc_body(
        tokens,
        start,
        end_word@,
    )) by {
        if let Some((b, e)) = heredoc_body(tokens, start, end_word@) {
            assert(body@ + b =~= b);
        }
    }
    loop
        invariant
            stream@.items == old(stream)@.items,
            stream@.real == old(stream)@.real,
            tokens == token_views(stream@.items),
            start == old(stream)@.peek,
            0 <= start,
            stream@.peek == start + passed,
            start + passed <= stream@.items.len() <= usize::MAX,
            heredoc_body(tokens, start, end_word@) == with_body_prefix(
                body@,
                heredoc_body(tokens, start + passed, end_word@),
            ),
        decreases stream@.items.len() - start - passed,
    {
        let ghost before = body@;
        match look(stream) {
            Seen::Word(word) => {
                if word == *end_word {
                    stream.forward(1);
                    assert(heredoc_body(tokens, start + passed, end_word@) == Some(
                        (Seq::<char>::empty(), start + passed),
                    ));
                    assert(before + Seq::<char>::empty() =~= before);
                    return Some(body);
                }
                assert(heredoc_body(tokens, start + passed, end_word@) == with_body_prefix(
                    word@,
                    heredoc_body(tokens, start + passed + 1, end_word@),
                ));
                body.append(word.as_str());
                stream.forward(1);
                proof {
                    let rest = heredoc_body(tokens, start + passed + 1, end_word@);
                    if let Some((b, e)) = rest {
                        assert(before + (word@ + b) =~= (before + word@) + b);
                    }
                }
                passed = passed + 1;
            },
            Seen::Other => {
                assert(heredoc_body(tokens, start + passed, end_word@) == heredoc_body(
                    tokens,
                    start + passed + 1,
                    end_word@,
                ));
                stream.forward(1);
                passed = passed + 1;
            },
            Seen::End => {
                stream.backward(passed);
                assert(heredoc_body(tokens, start + passed, end_word@) is None);
                return None;
            },
        }
    }
}

fn apply_token(stream: &mut Lookahead<Token>, parsed: &mut Vec<ParsedToken>, token: Token)
    requires
        1 <= old(stream)@.peek <= old(stream)@.items.len(),
        old(stream)@.items[old(stream)@.peek - 1] == token,
        !(token is Eof),
        old(parsed)@.len() < old(stream)@.peek,
    ensures
        final(stream)@.items == old(stream)@.items,
        final(stream)@.real == old(stream)@.real,
        final(stream)@.peek == parse_step(
            token_views(old(stream)@.items),
            old(stream)@.peek - 1,
            directive_views(old(parsed)@),
        ).next,
        directive_views(final(parsed)@) == parse_step(
            token_views(old(stream)@.items),
            old(stream)@.peek - 1,
            directive_views(old(parsed)@),
        ).out,
{
    let slot: usize = parsed.len();
    proof {
        stream.lemma_items_fit();
    }
    match token {
        Token::Error => {
            push_directive(parsed, error_directive("Error parsing token"));
        },
        Token::Pipe => {
            let left: usize = if slot > 0 { slot - 1 } else { 0 };
            push_directive(parsed, ParsedToken::Pipe(left, slot + 1));
        },
        Token::AndAnd => {
            let left: usize = if slot > 0 { slot - 1 } else { 0 };
            push_directive(parsed, ParsedToken::AndAnd(left, slot + 1));
        },
        Token::OrOr => {
            let left: usize = if slot > 0 { slot - 1 } else { 0 };
            push_directive(parsed, ParsedToken::OrOr(left, slot + 1));
        },
        Token::Redir => {
            match peek_word(stream) {
                Some(target) => {
                    stream.forward(1);
                    push_directive(parsed, ParsedToken::Redir(target));
                },
                None => {
                    push_directive(parsed, error_directive("Expected a filename after redirection"));
                },
            }
        },
        Token::RedirAppend => {
            match peek_word(stream) {
                Some(target) => {
                    stream.forward(1);
                    push_directive(parsed, ParsedToken::RedirAppend(target));
                },
                None => {
                    push_directive(parsed, error_directive("Expected a filename after redirection"));
                },
            }
        },
        Token::RedirClobber => {
            match peek_word(stream) {
                Some(target) => {
                    stream.forward(1);
                    push_directive(parsed, ParsedToken::RedirClobber(target));
                },
                None => {
                    push_directive(parsed, error_directive("Expected a filename after redirection"));
                },
            }
        },
        Token::RedirInput => {
            match peek_word(stream) {
                Some(target) => {
                    stream.forward(1);
                    push_directive(parsed, ParsedToken::RedirInput(target));
                },
                None => {
                    push_directive(parsed, error_directive("Expected a filename after redirection"));
                },
            }
        },
        Token::HereDoc => {
            match skip_to_word(stream) {
                Some((end_word, passed)) => {
                    stream.forward(1);
                    match read_body(stream, &end_word) {
                        Some(body) => {
                            push_directive(parsed, ParsedToken::HereDoc(slot, body));
                        },
                        None => {
                            stream.backward(passed + 1);
                            push_directive(parsed, error_directive("HereDoc: End token not found"));
                        },
                    }
                },
                None => {
                    push_directive(parsed, error_directive("HereDoc: End token not found"));
                },
            }
        },
        Token::HereString => {
            match peek_word(stream) {
                Some(text) => {
                    stream.forward(1);
                    push_directive(parsed, ParsedToken::HereString(slot, text));
                },
                None => {
                    push_directive(parsed, error_directive("HereString: No string found"));
                },
            }
        },
        Token::DoubleQuotedString(text) => {
            let protected = protect_text(&text);
            if !protected.as_str().is_empty() {
                push_text(parsed, &protected);
            }
        },
        Token::SingleQuotedString(text) => {
            push_text(parsed, &text);
        },
        Token::Word(word) => {
            push_word(parsed, word);
        },
        Token::Space => {
            push_space(parsed);
        },
        Token::Eof => {},
    }
}


proof fn lemma_next_word_stops_at_eof(tokens: Seq<TokenView>, rest: Seq<TokenView>, i: int)
    requires
        0 <= i <= tokens.len(),
    ensures
        next_word(tokens.push(TokenView::Eof) + rest, i) == next_word(tokens, i),
    decreases tokens.len() - i,
{
    let longer = tokens.push(TokenView::Eof) + rest;
    if i < tokens.len() {
        assert(longer[i] == tokens[i]);
        lemma_next_word_stops_at_eof(tokens, rest, i + 1);
    } else {
        assert(longer[i] is Eof);
    }
}

proof fn lemma_heredoc_body_stops_at_eof(
    tokens: Seq<TokenView>,
    rest: Seq<TokenView>,
    i: int,
    end_word: Seq<char>,
)
    requires
        0 <= i <= tokens.len(),
    ensures
        heredoc_body(tokens.push(TokenView::Eof) + rest, i, end_word) == heredoc_body(
            tokens,
            i,
            end_word,
        ),
    decreases tokens.len() - i,
{
    let longer = tokens.push(TokenView::Eof) + rest;
    if i < tokens.len() {
        assert(longer[i] == tokens[i]);
        lemma_heredoc_body_stops_at_eof(tokens, rest, i + 1, end_word);
    } else {
        assert(longer[i] is Eof);
    }
}

proof fn lemma_parse_from_stops_at_eof(
    tokens: Seq<TokenView>,
    rest: Seq<TokenView>,
    pos: int,
    out: Seq<ParsedTokenView>,
)
    requires
        0 <= pos <= tokens.len(),
    ensures
        parse_from(tokens.push(TokenView::Eof) + rest, pos, out) == parse_from(tokens, pos, out),
    decreases tokens.len() - pos,
{
    let longer = tokens.push(TokenView::Eof) + rest;
    if pos < tokens.len() {
        assert(longer[pos] == tokens[pos]);
        if !(tokens[pos] is Eof) {
            assert(word_at(longer, pos + 1) == word_at(tokens, pos + 1));
            lemma_next_word_bounds(tokens, pos + 1);
            if let Some(at) = next_word(tokens, pos + 1) {
                assert(longer[at] == tokens[at]);
                lemma_heredoc_body_stops_at_eof(tokens, rest, at + 1, tokens[at]->Word_0);
            }
            lemma_next_word_stops_at_eof(tokens, rest, pos + 1);
            assert(heredoc(longer, pos) == heredoc(tokens, pos));
            assert(parse_step(longer, pos, out) == parse_step(tokens, pos, out));
            lemma_parse_step_advances(tokens, pos, out);
            lemma_parse_from_stops_at_eof(
                tokens,
                rest,
                parse_step(tokens, pos, out).next,
                parse_step(tokens, pos, out).out,
            );
        }
    } else {
        assert(longer[pos] is Eof);
    }
}

/// Nothing after the first `Eof` token is read, and tokens without an `Eof`
/// are read as if one followed them: the directives of `tokens`, of `tokens`
/// with an `Eof` appended, and of `tokens` with an `Eof` and anything more
/// appended are the same. A caller that appends an `Eof` that is already
/// there gets no second `Eof` directive.
pub proof fn lemma_parse_stops_at_eof(tokens: Seq<TokenView>, rest: Seq<TokenView>)
    ensures
        parse_spec(tokens.push(TokenView::Eof) + rest) == parse_spec(tokens),
        parse_spec(tokens.push(TokenView::Eof)) == parse_spec(tokens),
        parse_spec(tokens.push(TokenView::Eof).push(TokenView::Eof)) == parse_spec(tokens),
{
    lemma_parse_from_stops_at_eof(tokens, rest, 0, Seq::empty());
    lemma_parse_from_stops_at_eof(tokens, Seq::empty(), 0, Seq::empty());
    assert(tokens.push(TokenView::Eof) + Seq::<TokenView>::empty() =~= tokens.push(
        TokenView::Eof,
    ));
    lemma_parse_from_stops_at_eof(tokens, seq![TokenView::Eof], 0, Seq::empty());
    assert(tokens.push(TokenView::Eof) + seq![TokenView::Eof] =~= tokens.push(
        TokenView::Eof,
    ).push(TokenView::Eof));
}

/// A sequence of directives.
pub type ParsedTokens = Vec<ParsedToken>;

/// The cursor that the parser reads its tokens through.
pub type TokenStream = Lookahead<Token>;

/// Turns tokens into directives.
///
/// An `Eof` is appended to the tokens, they are read through a
/// [`Lookahead`], and parsing ends at the first `Eof`. Malformed constructs
/// become `Error` directives among the others; the status is always `0`.
pub fn parse(in_: Tokens, _options: Options) -> (r: (i32, ParsedTokens))
    ensures
        r.0 == 0,
        directive_views(r.1@) == parse_spec(token_views(in_@)),
{
    let ghost given = token_views(in_@);
    let mut input = in_;
    input.push(Token::Eof);
    let ghost tokens = token_views(input@);
    proof {
        assert(tokens =~= given.push(TokenView::Eof));
        lemma_parse_stops_at_eof(given, Seq::empty());
    }
    let mut stream: TokenStream = Lookahead::from(input);
    let mut parsed: Vec<ParsedToken> = Vec::new();
    let mut done = false;
    assert(directive_views(parsed@) =~= Seq::<ParsedTokenView>::empty());
    while !done
        invariant
            token_views(stream@.items) == tokens,
            stream@.items.len() == tokens.len(),
            done ==> directive_views(parsed@) == parse_spec(tokens),
            !done ==> 0 <= stream@.peek <= tokens.len(),
            !done ==> parsed@.len() <= stream@.peek,
            !done ==> parse_spec(tokens) == parse_from(
                tokens,
                stream@.peek,
                directive_views(parsed@),
            ),
        decreases
                if done {
                    0
                } else {
                    1 + tokens.len() - stream@.peek
                },
    {
        let ghost pos = stream@.peek;
        let ghost out = directive_views(parsed@);
        proof {
            stream.lemma_items_fit();
        }
        match stream.next() {
            None => {
                push_directive(&mut parsed, ParsedToken::Eof);
                done = true;
            },
            Some(Token::Eof) => {
                assert(tokens[pos] is Eof);
                push_directive(&mut parsed, ParsedToken::Eof);
                done = true;
            },
            Some(token) => {
                assert(tokens[pos] == token@);
                proof {
                    lemma_parse_step_advances(tokens, pos, out);
                }
                apply_token(&mut stream, &mut parsed, token);
            },
        }
    }
    (0, parsed)
}


/// What the parser is in the middle of, which the last directive alone
/// decides.
#[derive(Debug, Clone, Copy, PartialEq, Eq)]
pub enum Mode {
    /// Neither a command nor a string is open.
    Idle,
    /// The last directive is a command, which takes further words.
    BuildingCommand,
    /// The last directive is a string, which takes further text and spaces.
    BuildingString,
}

/// The mode of a parser whose directives so far are `out`.
pub open spec fn mode_spec(out: Seq<ParsedTokenView>) -> Mode {
    if out.len() > 0 && out.last() is Command {
        Mode::BuildingCommand
    } else if out.len() > 0 && out.last() is String {
        Mode::BuildingString
    } else {
        Mode::Idle
    }
}

/// The mode of a parser whose directives so far are `directives`.
pub fn mode_of(directives: &Vec<ParsedToken>) -> (mode: Mode)
    ensures
        mode == mode_spec(directive_views(directives@)),
{
    if directives.len() == 0 {
        return Mode::Idle;
    }
    let last = &directives[directives.len() - 1];
    assert(directive_views(directives@).last() == last@);
    match last {
        ParsedToken::Command(_, _) => Mode::BuildingCommand,
        ParsedToken::String(_) => Mode::BuildingString,
        _ => Mode::Idle,
    }
}

/// The slots that the connector at position `at` joins, where both lie
/// within `out`; `None` where there is no connector at `at` or a slot lies
/// outside.
pub open spec fn joined_slots(out: Seq<ParsedTokenView>, at: int) -> Option<(int, int)> {
    if !(0 <= at < out.len()) {
        None
    } else {
        match out[at] {
            ParsedTokenView::Pipe(l, r) | ParsedTokenView::AndAnd(l, r) | ParsedTokenView::OrOr(
                l,
                r,
            ) => if 0 <= l < out.len() && 0 <= r < out.len() {
                Some((l, r))
            } else {
                None
            },
            _ => None,
        }
    }
}

/// Resolves the connector at position `at` against the directives as they
/// are: its left and right slots where both are filled, else `None`.
pub fn connector_slots(directives: &Vec<ParsedToken>, at: usize) -> (r: Option<(usize, usize)>)
    ensures
        match (r, joined_slots(directive_views(directives@), at as int)) {
            (Some(got), Some(expected)) => got.0 == expected.0 && got.1 == expected.1,
            (None, None) => true,
            _ => false,
        },
{
    if at >= directives.len() {
        return None;
    }
    assert(directive_views(directives@)[at as int] == directives@[at as int]@);
    let (left, right) = match &directives[at] {
        ParsedToken::Pipe(l, r) => (*l, *r),
        ParsedToken::AndAnd(l, r) => (*l, *r),
        ParsedToken::OrOr(l, r) => (*l, *r),
        _ => {
            return None;
        },
    };
    if left < directives.len() && right < directives.len() {
        Some((left, right))
    } else {
        None
    }
}


} // verus!
