//! What holds of the parser for every input.

use vstd::prelude::*;
use crate::lex::TokenView;
use crate::parse::{
    heredoc, heredoc_body, joined_slots, left_slot, lemma_next_word_bounds,
    lemma_parse_step_advances, msg_redirection, next_word, parse_from, parse_spec, parse_step,
    protect, with_text, word_at, ParsedTokenView,
};

verus! {

/// No directive of `out` is an `Eof`.
pub open spec fn no_eof(out: Seq<ParsedTokenView>) -> bool {
    forall|k: int| 0 <= k < out.len() ==> !(#[trigger] out[k] is Eof)
}

proof fn lemma_parse_step_adds_no_eof(
    tokens: Seq<TokenView>,
    pos: int,
    out: Seq<ParsedTokenView>,
)
    requires
        0 <= pos < tokens.len(),
        !(tokens[pos] is Eof),
        no_eof(out),
    ensures
        no_eof(parse_step(tokens, pos, out).out),
{
    let after = parse_step(tokens, pos, out).out;
    assert forall|k: int| 0 <= k < after.len() implies !(#[trigger] after[k] is Eof) by {
        if k < out.len() - 1 {
            assert(after[k] == out[k]);
        } else if k == out.len() - 1 && after.len() > out.len() {
            assert(after[k] == out[k]);
        }
    }
}

proof fn lemma_parse_from_single_eof(
    tokens: Seq<TokenView>,
    pos: int,
    out: Seq<ParsedTokenView>,
)
    requires
        0 <= pos,
        no_eof(out),
    ensures
        parse_from(tokens, pos, out).len() >= 1,
        parse_from(tokens, pos, out).last() == ParsedTokenView::Eof,
        no_eof(parse_from(tokens, pos, out).drop_last()),
    decreases tokens.len() - pos,
{
    if pos < tokens.len() && !(tokens[pos] is Eof) {
        lemma_parse_step_advances(tokens, pos, out);
        lemma_parse_step_adds_no_eof(tokens, pos, out);
        let step = parse_step(tokens, pos, out);
        lemma_parse_from_single_eof(tokens, step.next, step.out);
    } else {
        assert(out.push(ParsedTokenView::Eof).drop_last() =~= out);
    }
}

/// The directives of any tokens end with `Eof`, and hold no other `Eof`.
pub proof fn lemma_parse_single_eof(tokens: Seq<TokenView>)
    ensures
        parse_spec(tokens).len() >= 1,
        parse_spec(tokens).last() == ParsedTokenView::Eof,
        no_eof(parse_spec(tokens).drop_last()),
{
    lemma_parse_from_single_eof(tokens, 0, Seq::empty());
}

/// The texts of the `Word` tokens of `tokens` from position `i` on, in order.
pub open spec fn word_texts(tokens: Seq<TokenView>, i: int) -> Seq<Seq<char>>
    decreases tokens.len() - i,
{
    if !(0 <= i < tokens.len()) {
        Seq::empty()
    } else {
        match tokens[i] {
            TokenView::Word(w) => seq![w] + word_texts(tokens, i + 1),
            _ => word_texts(tokens, i + 1),
        }
    }
}

/// Every token of `tokens` is a `Word` or a `Space`.
pub open spec fn only_words_and_spaces(tokens: Seq<TokenView>) -> bool {
    forall|k: int| 0 <= k < tokens.len() ==> (#[trigger] tokens[k] is Word || tokens[k] is Space)
}

proof fn lemma_parse_from_arguments(
    tokens: Seq<TokenView>,
    pos: int,
    name: Seq<char>,
    args: Seq<Seq<char>>,
)
    requires
        0 <= pos <= tokens.len(),
        only_words_and_spaces(tokens),
    ensures
        parse_from(tokens, pos, seq![ParsedTokenView::Command(name, args)]) == seq![
            ParsedTokenView::Command(name, args + word_texts(tokens, pos)),
            ParsedTokenView::Eof,
        ],
    decreases tokens.len() - pos,
{
    let out = seq![ParsedTokenView::Command(name, args)];
    if pos < tokens.len() {
        assert(tokens[pos] is Word || tokens[pos] is Space);
        match tokens[pos] {
            TokenView::Word(w) => {
                assert(parse_step(tokens, pos, out).out =~= seq![
                    ParsedTokenView::Command(name, args.push(w)),
                ]);
                lemma_parse_from_arguments(tokens, pos + 1, name, args.push(w));
                assert(args.push(w) + word_texts(tokens, pos + 1) =~= args + word_texts(
                    tokens,
                    pos,
                ));
            },
            _ => {
                assert(parse_step(tokens, pos, out).out =~= out);
                lemma_parse_from_arguments(tokens, pos + 1, name, args);
            },
        }
    } else {
        assert(args + word_texts(tokens, pos) =~= args);
        assert(out.push(ParsedTokenView::Eof) =~= seq![
            ParsedTokenView::Command(name, args + word_texts(tokens, pos)),
            ParsedTokenView::Eof,
        ]);
    }
}

/// Words, with or without spaces between them, make exactly one command: its
/// name is the first word and its arguments are the other words, in order.
pub proof fn lemma_parse_spaced_words(tokens: Seq<TokenView>)
    requires
        tokens.len() >= 1,
        tokens[0] is Word,
        only_words_and_spaces(tokens),
    ensures
        parse_spec(tokens) == seq![
            ParsedTokenView::Command(tokens[0]->Word_0, word_texts(tokens, 1)),
            ParsedTokenView::Eof,
        ],
{
    let name = tokens[0]->Word_0;
    let first = seq![ParsedTokenView::Command(name, Seq::empty())];
    assert(parse_step(tokens, 0, Seq::empty()).out =~= first);
    lemma_parse_from_arguments(tokens, 1, name, Seq::empty());
    assert(Seq::<Seq<char>>::empty() + word_texts(tokens, 1) =~= word_texts(tokens, 1));
}

/// The tokens that stand for `words`: one `Word` each, nothing between them.
pub open spec fn word_tokens(words: Seq<Seq<char>>) -> Seq<TokenView> {
    words.map_values(|w: Seq<char>| TokenView::Word(w))
}

proof fn lemma_word_texts_of_word_tokens(words: Seq<Seq<char>>, i: int)
    requires
        0 <= i <= words.len(),
    ensures
        word_texts(word_tokens(words), i) == words.skip(i),
    decreases words.len() - i,
{
    if i < words.len() {
        lemma_word_texts_of_word_tokens(words, i + 1);
        assert(seq![words[i]] + words.skip(i + 1) =~= words.skip(i));
    } else {
        assert(words.skip(i) =~= Seq::<Seq<char>>::empty());
    }
}

/// A sequence of words with no operators or quotes parses to exactly one
/// command whose name is the first word and whose arguments are the remaining
/// words, in order.
pub proof fn lemma_parse_words(words: Seq<Seq<char>>)
    requires
        words.len() >= 1,
    ensures
        parse_spec(word_tokens(words)) == seq![
            ParsedTokenView::Command(words[0], words.skip(1)),
            ParsedTokenView::Eof,
        ],
{
    lemma_parse_spaced_words(word_tokens(words));
    lemma_word_texts_of_word_tokens(words, 1);
}

/// Text that the second escape pass leaves alone: it holds no backslash, no
/// backtick and no `$`.
pub open spec fn is_plain(text: Seq<char>) -> bool {
    forall|k: int|
        0 <= k < text.len() ==> {
            let c = #[trigger] text[k];
            c != '\\' && c != '`' && c != '$'
        }
}

proof fn lemma_protect_plain_from(text: Seq<char>, i: int)
    requires
        is_plain(text),
        0 <= i <= text.len(),
    ensures
        protect(text, i) == text.skip(i),
    decreases text.len() - i,
{
    if i < text.len() {
        assert(text[i] != '\\' && text[i] != '`' && text[i] != '$');
        lemma_protect_plain_from(text, i + 1);
        assert(seq![text[i]] + text.skip(i + 1) =~= text.skip(i));
    } else {
        assert(text.skip(i) =~= Seq::<char>::empty());
    }
}

/// The second escape pass changes nothing in plain text.
pub proof fn lemma_protect_plain(text: Seq<char>)
    requires
        is_plain(text),
    ensures
        protect(text, 0) == text,
{
    lemma_protect_plain_from(text, 0);
    assert(text.skip(0) =~= text);
}

/// `double` and `single` are the same tokens but at position `at`, where
/// `double` has `text` in double quotes and `single` has it in single quotes.
pub open spec fn differ_in_quotes(
    double: Seq<TokenView>,
    single: Seq<TokenView>,
    at: int,
    text: Seq<char>,
) -> bool {
    &&& double.len() == single.len()
    &&& 0 <= at < double.len()
    &&& double[at] == TokenView::DoubleQuotedString(text)
    &&& single[at] == TokenView::SingleQuotedString(text)
    &&& forall|k: int| 0 <= k < double.len() && k != at ==> #[trigger] double[k] == single[k]
}

proof fn lemma_next_word_same_in_quotes(
    double: Seq<TokenView>,
    single: Seq<TokenView>,
    at: int,
    text: Seq<char>,
    i: int,
)
    requires
        differ_in_quotes(double, single, at, text),
        0 <= i,
    ensures
        next_word(double, i) == next_word(single, i),
    decreases double.len() - i,
{
    if i < double.len() {
        if i != at {
            assert(double[i] == single[i]);
        }
        lemma_next_word_same_in_quotes(double, single, at, text, i + 1);
    }
}

proof fn lemma_heredoc_body_same_in_quotes(
    double: Seq<TokenView>,
    single: Seq<TokenView>,
    at: int,
    text: Seq<char>,
    i: int,
    end_word: Seq<char>,
)
    requires
        differ_in_quotes(double, single, at, text),
        0 <= i,
    ensures
        heredoc_body(double, i, end_word) == heredoc_body(single, i, end_word),
    decreases double.len() - i,
{
    if i < double.len() {
        if i != at {
            assert(double[i] == single[i]);
        }
        lemma_heredoc_body_same_in_quotes(double, single, at, text, i + 1, end_word);
    }
}

proof fn lemma_parse_from_same_in_quotes(
    double: Seq<TokenView>,
    single: Seq<TokenView>,
    at: int,
    text: Seq<char>,
    pos: int,
    out: Seq<ParsedTokenView>,
)
    requires
        differ_in_quotes(double, single, at, text),
        is_plain(text),
        text.len() > 0,
        0 <= pos,
    ensures
        parse_from(double, pos, out) == parse_from(single, pos, out),
    decreases double.len() - pos,
{
    if pos < double.len() {
        if pos == at {
            lemma_protect_plain(text);
            assert(parse_step(double, pos, out) == parse_step(single, pos, out));
        } else {
            assert(double[pos] == single[pos]);
            if pos + 1 < double.len() && pos + 1 != at {
                assert(double[pos + 1] == single[pos + 1]);
            }
            assert(word_at(double, pos + 1) == word_at(single, pos + 1));
            lemma_next_word_same_in_quotes(double, single, at, text, pos + 1);
            lemma_next_word_bounds(double, pos + 1);
            if let Some(word) = next_word(double, pos + 1) {
                assert(double[word] == single[word]);
                lemma_heredoc_body_same_in_quotes(
                    double,
                    single,
                    at,
                    text,
                    word + 1,
                    double[word]->Word_0,
                );
            }
            assert(heredoc(double, pos) == heredoc(single, pos));
            assert(parse_step(double, pos, out) == parse_step(single, pos, out));
        }
        if !(double[pos] is Eof) {
            lemma_parse_step_advances(double, pos, out);
            let step = parse_step(double, pos, out);
            lemma_parse_from_same_in_quotes(double, single, at, text, step.next, step.out);
        }
    }
}

/// Quote equivalence: wherever it stands among other tokens, a literal of
/// plain, non-empty text gives the same directives in double quotes as in
/// single quotes.
pub proof fn lemma_quotes_equivalent(
    before: Seq<TokenView>,
    text: Seq<char>,
    after: Seq<TokenView>,
)
    requires
        is_plain(text),
        text.len() > 0,
    ensures
        parse_spec(before + seq![TokenView::DoubleQuotedString(text)] + after) == parse_spec(
            before + seq![TokenView::SingleQuotedString(text)] + after,
        ),
{
    let double = before + seq![TokenView::DoubleQuotedString(text)] + after;
    let single = before + seq![TokenView::SingleQuotedString(text)] + after;
    let at = before.len() as int;
    assert(differ_in_quotes(double, single, at, text));
    lemma_parse_from_same_in_quotes(double, single, at, text, 0, Seq::empty());
}

/// A lone literal of plain, non-empty text gives one `String` directive with
/// that text, in double quotes as in single quotes.
pub proof fn lemma_quoted_text_is_one_string(text: Seq<char>)
    requires
        is_plain(text),
        text.len() > 0,
    ensures
        parse_spec(seq![TokenView::DoubleQuotedString(text)]) == seq![
            ParsedTokenView::String(text),
            ParsedTokenView::Eof,
        ],
        parse_spec(seq![TokenView::SingleQuotedString(text)]) == seq![
            ParsedTokenView::String(text),
            ParsedTokenView::Eof,
        ],
{
    lemma_protect_plain(text);
    let expected = seq![ParsedTokenView::String(text), ParsedTokenView::Eof];
    let opened = with_text(Seq::empty(), text);
    assert(opened =~= seq![ParsedTokenView::String(text)]);
    let double = seq![TokenView::DoubleQuotedString(text)];
    assert(parse_step(double, 0, Seq::empty()).out == opened);
    assert(parse_from(double, 1, opened) =~= expected);
    let single = seq![TokenView::SingleQuotedString(text)];
    assert(parse_step(single, 0, Seq::empty()).out == opened);
    assert(parse_from(single, 1, opened) =~= expected);
}

/// Whether `op` is one of the four redirection operators.
pub open spec fn is_redirection(op: TokenView) -> bool {
    op is Redir || op is RedirAppend || op is RedirClobber || op is RedirInput
}

/// Dangling redirection: a command, a space and a redirection operator that
/// nothing follows give the command and an error that asks for a filename.
pub proof fn lemma_dangling_redirection(name: Seq<char>, op: TokenView)
    requires
        is_redirection(op),
    ensures
        parse_spec(seq![TokenView::Word(name), TokenView::Space, op]) == seq![
            ParsedTokenView::Command(name, Seq::empty()),
            ParsedTokenView::Error(msg_redirection()),
            ParsedTokenView::Eof,
        ],
{
    let tokens = seq![TokenView::Word(name), TokenView::Space, op];
    let first = seq![ParsedTokenView::Command(name, Seq::empty())];
    assert(parse_step(tokens, 0, Seq::empty()).out =~= first);
    assert(parse_step(tokens, 1, first).out =~= first);
    let second = first.push(ParsedTokenView::Error(msg_redirection()));
    assert(word_at(tokens, 3) is None);
    assert(parse_step(tokens, 2, first).out =~= second);
    assert(parse_step(tokens, 2, first).next == 3);
    assert(parse_from(tokens, 3, second) =~= seq![
        ParsedTokenView::Command(name, Seq::empty()),
        ParsedTokenView::Error(msg_redirection()),
        ParsedTokenView::Eof,
    ]);
    assert(parse_from(tokens, 2, first) == parse_from(tokens, 3, second));
    assert(parse_from(tokens, 1, first) == parse_from(tokens, 2, first));
    assert(parse_from(tokens, 0, Seq::empty()) == parse_from(tokens, 1, first));
}


/// The texts `lines[i..]`, one after the other with nothing between them.
pub open spec fn joined(lines: Seq<Seq<char>>, i: int) -> Seq<char>
    decreases lines.len() - i,
{
    if !(0 <= i < lines.len()) {
        Seq::empty()
    } else {
        lines[i] + joined(lines, i + 1)
    }
}

/// The tokens of a command `name` with a heredoc: the operator, the
/// terminator `end_word`, one word for each of `lines`, and the terminator
/// again.
pub open spec fn heredoc_tokens(
    name: Seq<char>,
    end_word: Seq<char>,
    lines: Seq<Seq<char>>,
) -> Seq<TokenView> {
    seq![TokenView::Word(name), TokenView::HereDoc, TokenView::Word(end_word)] + word_tokens(
        lines,
    ) + seq![TokenView::Word(end_word)]
}

proof fn lemma_heredoc_body_of_lines(
    name: Seq<char>,
    end_word: Seq<char>,
    lines: Seq<Seq<char>>,
    i: int,
)
    requires
        0 <= i <= lines.len(),
        forall|k: int| 0 <= k < lines.len() ==> #[trigger] lines[k] != end_word,
    ensures
        heredoc_body(heredoc_tokens(name, end_word, lines), 3 + i, end_word) == Some(
            (joined(lines, i), 3 + lines.len() as int),
        ),
    decreases lines.len() - i,
{
    let tokens = heredoc_tokens(name, end_word, lines);
    if i < lines.len() {
        assert(tokens[3 + i] == TokenView::Word(lines[i]));
        assert(lines[i] != end_word);
        lemma_heredoc_body_of_lines(name, end_word, lines, i + 1);
    } else {
        assert(tokens[3 + i] == TokenView::Word(end_word));
    }
}

/// Heredoc round-trip: a command, `<<`, a terminator, any words that differ
/// from the terminator, and the terminator again give the command and one
/// `HereDoc` directive. Its body is the words joined, without the terminator.
pub proof fn lemma_heredoc_round_trip(
    name: Seq<char>,
    end_word: Seq<char>,
    lines: Seq<Seq<char>>,
)
    requires
        forall|k: int| 0 <= k < lines.len() ==> #[trigger] lines[k] != end_word,
    ensures
        parse_spec(heredoc_tokens(name, end_word, lines)) == seq![
            ParsedTokenView::Command(name, Seq::empty()),
            ParsedTokenView::HereDoc(1, joined(lines, 0)),
            ParsedTokenView::Eof,
        ],
{
    let tokens = heredoc_tokens(name, end_word, lines);
    let first = seq![ParsedTokenView::Command(name, Seq::empty())];
    let second = first.push(ParsedTokenView::HereDoc(1, joined(lines, 0)));
    assert(tokens.len() == lines.len() + 4);
    assert(tokens[0] == TokenView::Word(name));
    assert(tokens[1] == TokenView::HereDoc);
    assert(tokens[2] == TokenView::Word(end_word));
    assert(parse_step(tokens, 0, Seq::empty()).out =~= first);
    lemma_heredoc_body_of_lines(name, end_word, lines, 0);
    assert(next_word(tokens, 2) == Some(2int));
    assert(heredoc(tokens, 1) == Some((joined(lines, 0), 3 + lines.len() as int)));
    assert(parse_step(tokens, 1, first).out =~= second);
    assert(parse_step(tokens, 1, first).next == tokens.len());
    assert(parse_from(tokens, tokens.len() as int, second) =~= seq![
        ParsedTokenView::Command(name, Seq::empty()),
        ParsedTokenView::HereDoc(1, joined(lines, 0)),
        ParsedTokenView::Eof,
    ]);
    assert(parse_from(tokens, 1, first) == parse_from(tokens, tokens.len() as int, second));
    assert(parse_from(tokens, 0, Seq::empty()) == parse_from(tokens, 1, first));
}

/// Whether the slots that the directive `d` holds are right for a directive
/// that stands in slot `k`: a connector holds the slot before it (slot `0`
/// where it comes first) and the slot after it, a heredoc or herestring its
/// own slot.
pub open spec fn slot_ok(d: ParsedTokenView, k: int) -> bool {
    match d {
        ParsedTokenView::Pipe(l, r) => l == left_slot(k) && r == k + 1,
        ParsedTokenView::AndAnd(l, r) => l == left_slot(k) && r == k + 1,
        ParsedTokenView::OrOr(l, r) => l == left_slot(k) && r == k + 1,
        ParsedTokenView::HereDoc(i, _) => i == k,
        ParsedTokenView::HereString(i, _) => i == k,
        _ => true,
    }
}

/// Every directive of `out` holds the slots that are right for its place.
pub open spec fn slots_ok(out: Seq<ParsedTokenView>) -> bool {
    forall|k: int| 0 <= k < out.len() ==> slot_ok(#[trigger] out[k], k)
}

proof fn lemma_parse_step_keeps_slots(
    tokens: Seq<TokenView>,
    pos: int,
    out: Seq<ParsedTokenView>,
)
    requires
        0 <= pos < tokens.len(),
        slots_ok(out),
    ensures
        slots_ok(parse_step(tokens, pos, out).out),
{
    let after = parse_step(tokens, pos, out).out;
    assert forall|k: int| 0 <= k < after.len() implies slot_ok(#[trigger] after[k], k) by {
        if k < out.len() - 1 {
            assert(after[k] == out[k]);
        } else if k == out.len() - 1 && after.len() > out.len() {
            assert(after[k] == out[k]);
        }
    }
}

proof fn lemma_parse_from_keeps_slots(
    tokens: Seq<TokenView>,
    pos: int,
    out: Seq<ParsedTokenView>,
)
    requires
        0 <= pos,
        slots_ok(out),
    ensures
        slots_ok(parse_from(tokens, pos, out)),
    decreases tokens.len() - pos,
{
    if pos < tokens.len() && !(tokens[pos] is Eof) {
        lemma_parse_step_advances(tokens, pos, out);
        lemma_parse_step_keeps_slots(tokens, pos, out);
        let step = parse_step(tokens, pos, out);
        lemma_parse_from_keeps_slots(tokens, step.next, step.out);
    } else {
        let done = out.push(ParsedTokenView::Eof);
        assert forall|k: int| 0 <= k < done.len() implies slot_ok(#[trigger] done[k], k) by {
            if k < out.len() {
                assert(done[k] == out[k]);
            }
        }
    }
}

/// Whether `d` holds no slot that lies outside a sequence of `len` directives.
pub open spec fn slots_within(d: ParsedTokenView, len: int) -> bool {
    match d {
        ParsedTokenView::Pipe(l, r) => 0 <= l < len && 0 <= r < len,
        ParsedTokenView::AndAnd(l, r) => 0 <= l < len && 0 <= r < len,
        ParsedTokenView::OrOr(l, r) => 0 <= l < len && 0 <= r < len,
        ParsedTokenView::HereDoc(i, _) => 0 <= i < len,
        ParsedTokenView::HereString(i, _) => 0 <= i < len,
        _ => true,
    }
}

/// When parsing is done every directive holds the slots that are right for
/// its place, and none of them lies outside the directives: the slot to the
/// right of a connector is always filled, at the latest by the closing `Eof`.
pub proof fn lemma_parse_slots(tokens: Seq<TokenView>)
    ensures
        slots_ok(parse_spec(tokens)),
        forall|k: int|
            0 <= k < parse_spec(tokens).len() ==> slots_within(
                #[trigger] parse_spec(tokens)[k],
                parse_spec(tokens).len() as int,
            ),
{
    let all = parse_spec(tokens);
    lemma_parse_from_keeps_slots(tokens, 0, Seq::empty());
    lemma_parse_single_eof(tokens);
    assert forall|k: int| 0 <= k < all.len() implies slots_within(
        #[trigger] all[k],
        all.len() as int,
    ) by {
        assert(slot_ok(all[k], k));
        if k == all.len() - 1 {
            assert(all[k] == ParsedTokenView::Eof);
        }
    }
}


/// Every connector among the directives of any tokens can be resolved: the
/// slots it joins are the one before it (slot `0` where it comes first) and
/// the one after it, and both are filled.
pub proof fn lemma_connectors_resolve(tokens: Seq<TokenView>, at: int)
    requires
        0 <= at < parse_spec(tokens).len(),
        parse_spec(tokens)[at] is Pipe || parse_spec(tokens)[at] is AndAnd || parse_spec(
            tokens,
        )[at] is OrOr,
    ensures
        joined_slots(parse_spec(tokens), at) == Some((left_slot(at), at + 1)),
{
    lemma_parse_slots(tokens);
    let all = parse_spec(tokens);
    assert(slot_ok(all[at], at));
    assert(slots_within(all[at], all.len() as int));
}


/// Only the last directive is ever changed: a step of the parser leaves every
/// directive before the last as it is, and the last one too unless it is an
/// open command or an open string.
pub proof fn lemma_step_changes_only_the_tail(
    tokens: Seq<TokenView>,
    pos: int,
    out: Seq<ParsedTokenView>,
)
    requires
        0 <= pos < tokens.len(),
    ensures
        parse_step(tokens, pos, out).out.len() >= out.len(),
        forall|k: int|
            0 <= k < out.len() - 1 ==> #[trigger] parse_step(tokens, pos, out).out[k] == out[k],
        out.len() > 0 && !(out.last() is Command) && !(out.last() is String) ==> parse_step(
            tokens,
            pos,
            out,
        ).out[out.len() - 1] == out.last(),
{
}

/// A word between two quoted literals ends the run of strings: the literals
/// stay two `String` directives, with the word's command between them.
pub proof fn lemma_word_ends_merge(first: Seq<char>, word: Seq<char>, second: Seq<char>)
    ensures
        parse_spec(
            seq![
                TokenView::SingleQuotedString(first),
                TokenView::Word(word),
                TokenView::SingleQuotedString(second),
            ],
        ) == seq![
            ParsedTokenView::String(first),
            ParsedTokenView::Command(word, Seq::empty()),
            ParsedTokenView::String(second),
            ParsedTokenView::Eof,
        ],
{
    let tokens = seq![
        TokenView::SingleQuotedString(first),
        TokenView::Word(word),
        TokenView::SingleQuotedString(second),
    ];
    let one = seq![ParsedTokenView::String(first)];
    let two = one.push(ParsedTokenView::Command(word, Seq::empty()));
    let three = two.push(ParsedTokenView::String(second));
    assert(parse_step(tokens, 0, Seq::empty()).out =~= one);
    assert(parse_step(tokens, 1, one).out =~= two);
    assert(parse_step(tokens, 2, two).out =~= three);
    assert(parse_from(tokens, 3, three) =~= seq![
        ParsedTokenView::String(first),
        ParsedTokenView::Command(word, Seq::empty()),
        ParsedTokenView::String(second),
        ParsedTokenView::Eof,
    ]);
    assert(parse_from(tokens, 2, two) == parse_from(tokens, 3, three));
    assert(parse_from(tokens, 1, one) == parse_from(tokens, 2, two));
    assert(parse_from(tokens, 0, Seq::empty()) == parse_from(tokens, 1, one));
}


} // verus!
