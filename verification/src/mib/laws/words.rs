//! How the text of a module falls into words.

use crate::mib::lexer::{
    comment_stop, hyphens_at, is_punctuation, is_word_char, lemma_stops, lemma_word_end, quote_stop,
    stripped, tokens, word_end,
};
use vstd::prelude::*;
use vstd::string::*;

verus! {

/// Two hyphens stand at the index.
pub open spec fn has_hyphens(text: Seq<char>, index: int) -> bool {
    0 <= index && index + 1 < text.len() && text[index] == '-' && text[index + 1] == '-'
}

/// The body goes on to its end: it holds no line break, and no two hyphens start in it.
pub open spec fn is_comment_body(body: Seq<char>, behind: Seq<char>) -> bool {
    &&& !body.contains('\n')
    &&& forall|i: int| 0 <= i < body.len() ==> !(#[trigger] has_hyphens(body + behind, i))
}

proof fn lemma_comment_moves(text: Seq<char>, start: int, index: int)
    requires
        0 <= start <= text.len(),
        0 <= index,
    ensures
        comment_stop(text, start + index) == start + comment_stop(text.skip(start), index),
        quote_stop(text, start + index) == start + quote_stop(text.skip(start), index),
    decreases text.len() - index,
{
    if start + index < text.len() {
        lemma_comment_moves(text, start, index + 1);
    }
}

proof fn lemma_stripped_moves(text: Seq<char>, start: int, index: int)
    requires
        0 <= start <= text.len(),
        0 <= index,
    ensures
        stripped(text, start + index) == stripped(text.skip(start), index),
    decreases text.len() - index,
{
    let rest = text.skip(start);
    if start + index < text.len() {
        lemma_comment_moves(text, start, index + 1);
        lemma_comment_moves(text, start, index + 2);
        lemma_stops(rest, index + 1);
        lemma_stops(rest, index + 2);
        lemma_stripped_moves(text, start, index + 1);
        if comment_stop(rest, index + 2) < rest.len() {
            lemma_stripped_moves(text, start, comment_stop(rest, index + 2) + 1);
        }
        if hyphens_at(rest, comment_stop(rest, index + 2)) {
            lemma_stripped_moves(text, start, comment_stop(rest, index + 2) + 2);
        }
        if quote_stop(rest, index + 1) < rest.len() {
            lemma_stripped_moves(text, start, quote_stop(rest, index + 1) + 1);
        }
    }
}

proof fn lemma_comment_runs(text: Seq<char>, index: int, end: int)
    requires
        0 <= index <= end <= text.len(),
        forall|i: int|
            index <= i < end ==> #[trigger] text[i] != '\n' && !hyphens_at(text, i),
        end < text.len() ==> text[end] == '\n' || hyphens_at(text, end),
    ensures
        comment_stop(text, index) == end,
    decreases end - index,
{
    if index < end {
        assert(text[index] != '\n' && !hyphens_at(text, index));
        lemma_comment_runs(text, index + 1, end);
    }
}

proof fn lemma_quote_runs(text: Seq<char>, index: int, end: int)
    requires
        0 <= index <= end <= text.len(),
        forall|i: int| index <= i < end ==> #[trigger] text[i] != '"',
        end < text.len() ==> text[end] == '"',
    ensures
        quote_stop(text, index) == end,
    decreases end - index,
{
    if index < end {
        assert(text[index] != '"');
        lemma_quote_runs(text, index + 1, end);
    }
}

/// What starts no comment and no quoted string stays as it is.
pub proof fn plain_text_is_kept(character: char, rest: Seq<char>)
    requires
        character != '"',
        character == '-' ==> rest.len() == 0 || rest[0] != '-',
    ensures
        stripped(Seq::empty(), 0) == Seq::<char>::empty(),
        stripped(seq![character] + rest, 0) == seq![character] + stripped(rest, 0),
{
    let text = seq![character] + rest;
    lemma_stripped_moves(text, 1, 0);
    assert(text.skip(1) =~= rest);
}

proof fn lemma_comment_body(body: Seq<char>, behind: Seq<char>)
    requires
        is_comment_body(body, behind),
        behind.len() > 0 ==> behind[0] == '\n' || has_hyphens(behind, 0),
    ensures
        comment_stop(seq!['-', '-'] + body + behind, 2) == 2 + body.len(),
{
    let text = seq!['-', '-'] + body + behind;
    let end = 2 + body.len() as int;
    assert forall|i: int| 2 <= i < end implies #[trigger] text[i] != '\n' && !hyphens_at(
        text,
        i,
    ) by {
        assert(text[i] == body[i - 2]);
        assert(body.contains(body[i - 2]));
        assert(!has_hyphens(body + behind, i - 2));
        if i + 1 < text.len() {
            assert(text[i + 1] == (body + behind)[i - 1]);
        }
        assert(text[i] == (body + behind)[i - 2]);
    }
    if behind.len() > 0 {
        assert(text[end] == behind[0]);
        if behind.len() > 1 {
            assert(text[end + 1] == behind[1]);
        }
    }
    lemma_comment_runs(text, 2, end);
}

/// A comment reaches up to the end of its line, which stays, or up to the next two hyphens, for
/// which a space stays, or up to the end of the text.
pub proof fn comments_are_removed(body: Seq<char>, rest: Seq<char>)
    ensures
        is_comment_body(body, seq!['\n'] + rest) ==> stripped(
            seq!['-', '-'] + body + (seq!['\n'] + rest),
            0,
        ) == seq!['\n'] + stripped(rest, 0),
        is_comment_body(body, seq!['-', '-'] + rest) ==> stripped(
            seq!['-', '-'] + body + (seq!['-', '-'] + rest),
            0,
        ) == seq![' '] + stripped(rest, 0),
        is_comment_body(body, Seq::empty()) ==> stripped(
            seq!['-', '-'] + body + Seq::empty(),
            0,
        ) == Seq::<char>::empty(),
{
    let end = 2 + body.len() as int;
    let line = seq!['-', '-'] + body + (seq!['\n'] + rest);
    let inner = seq!['-', '-'] + body + (seq!['-', '-'] + rest);
    assert(line[end] == '\n');
    assert(line.skip(end + 1) =~= rest);
    lemma_stripped_moves(line, end + 1, 0);
    assert(inner[end] == '-');
    assert(inner.skip(end + 2) =~= rest);
    lemma_stripped_moves(inner, end + 2, 0);
    if is_comment_body(body, seq!['\n'] + rest) {
        lemma_comment_body(body, seq!['\n'] + rest);
    }
    if is_comment_body(body, seq!['-', '-'] + rest) {
        lemma_comment_body(body, seq!['-', '-'] + rest);
    }
    if is_comment_body(body, Seq::empty()) {
        lemma_comment_body(body, Seq::empty());
    }
}

/// A quoted string reaches up to the next quote, or up to the end of the text. Two spaces stay.
pub proof fn quoted_strings_are_removed(body: Seq<char>, rest: Seq<char>)
    requires
        !body.contains('"'),
    ensures
        stripped(seq!['"'] + body + (seq!['"'] + rest), 0) == seq![' ', ' '] + stripped(rest, 0),
        stripped(seq!['"'] + body, 0) == seq![' ', ' '],
{
    let end = 1 + body.len() as int;
    let text = seq!['"'] + body + (seq!['"'] + rest);
    let open = seq!['"'] + body;
    assert forall|i: int| 1 <= i < end implies #[trigger] text[i] != '"' by {
        assert(text[i] == body[i - 1]);
        assert(body.contains(body[i - 1]));
    }
    assert forall|i: int| 1 <= i < end implies #[trigger] open[i] != '"' by {
        assert(open[i] == body[i - 1]);
        assert(body.contains(body[i - 1]));
    }
    assert(text[end] == '"');
    lemma_quote_runs(text, 1, end);
    lemma_quote_runs(open, 1, end);
    lemma_stripped_moves(text, end + 1, 0);
    assert(text.skip(end + 1) =~= rest);
}

/// The character can stand in a word: a letter, a digit, an underscore or a hyphen.
pub open spec fn is_in_words(character: char) -> bool {
    'a' <= character <= 'z' || 'A' <= character <= 'Z' || '0' <= character <= '9' || character
        == '_' || character == '-'
}

proof fn lemma_word_moves(text: Seq<char>, start: int, index: int)
    requires
        0 <= start <= text.len(),
        0 <= index,
    ensures
        word_end(text, start + index) == start + word_end(text.skip(start), index),
    decreases text.len() - index,
{
    if start + index < text.len() {
        lemma_word_moves(text, start, index + 1);
    }
}

proof fn lemma_tokens_move(text: Seq<char>, start: int, index: int)
    requires
        0 <= start <= text.len(),
        0 <= index,
    ensures
        tokens(text, start + index) == tokens(text.skip(start), index),
    decreases text.len() - index,
{
    let rest = text.skip(start);
    if start + index < text.len() {
        lemma_word_moves(text, start, index + 1);
        lemma_word_end(rest, index + 1);
        let end = word_end(rest, index + 1);
        assert(text.subrange(start + index, start + end) =~= rest.subrange(index, end));
        lemma_tokens_move(text, start, end);
        lemma_tokens_move(text, start, index + 1);
        if index + 1 < rest.len() {
            lemma_tokens_move(text, start, index + 2);
        }
        if index + 2 < rest.len() {
            lemma_tokens_move(text, start, index + 3);
        }
    }
}

proof fn lemma_word_runs(text: Seq<char>, index: int, end: int)
    requires
        0 <= index <= end <= text.len(),
        forall|i: int| index <= i < end ==> is_word_char(#[trigger] text[i]),
        end < text.len() ==> !is_word_char(text[end]),
    ensures
        word_end(text, index) == end,
    decreases end - index,
{
    if index < end {
        assert(is_word_char(text[index]));
        lemma_word_runs(text, index + 1, end);
    }
}

/// Characters of words that stand together are one word.
pub proof fn words_are_found_whole(word: Seq<char>, rest: Seq<char>)
    requires
        word.len() > 0,
        forall|i: int| 0 <= i < word.len() ==> is_in_words(#[trigger] word[i]),
        rest.len() > 0 ==> !is_in_words(rest[0]),
    ensures
        tokens(word + rest, 0) == seq![word] + tokens(rest, 0),
{
    let text = word + rest;
    let end = word.len() as int;
    assert forall|i: int| 0 <= i < end implies is_word_char(#[trigger] text[i]) by {
        assert(text[i] == word[i]);
        assert(is_in_words(word[i]));
    }
    if rest.len() > 0 {
        assert(text[end] == rest[0]);
    }
    lemma_word_runs(text, 1, end);
    assert(text.subrange(0, end) =~= word);
    lemma_tokens_move(text, end, 0);
    assert(text.skip(end) =~= rest);
}

/// Signs are words of their own: braces, parentheses, commas, semicolons and assignments. Any other
/// character only ends the word before it, and so do two colons.
pub proof fn signs_are_found(character: char, rest: Seq<char>)
    ensures
        tokens(Seq::empty(), 0) == Seq::<Seq<char>>::empty(),
        tokens("::="@ + rest, 0) == seq!["::="@] + tokens(rest, 0),
        rest.len() == 0 || rest[0] != '=' ==> tokens(seq![':', ':'] + rest, 0) == tokens(rest, 0),
        "{}(),;"@.contains(character) ==> tokens(seq![character] + rest, 0) == seq![
            seq![character],
        ] + tokens(rest, 0),
        !"{}(),;"@.contains(character) && !is_in_words(character) && !(character == ':'
            && rest.len() > 0 && rest[0] == ':') ==> tokens(seq![character] + rest, 0) == tokens(
            rest,
            0,
        ),
{
    reveal_strlit("::=");
    reveal_strlit("{}(),;");
    let signs = "{}(),;"@;
    let assignment = "::="@ + rest;
    let colons = seq![':', ':'] + rest;
    let text = seq![character] + rest;
    lemma_tokens_move(assignment, 3, 0);
    assert(assignment.skip(3) =~= rest);
    lemma_tokens_move(colons, 2, 0);
    assert(colons.skip(2) =~= rest);
    lemma_tokens_move(text, 1, 0);
    assert(text.skip(1) =~= rest);
    assert(is_punctuation(character) == signs.contains(character)) by {
        if is_punctuation(character) {
            assert(signs[0] == '{' && signs[1] == '}' && signs[2] == '(' && signs[3] == ')'
                && signs[4] == ',' && signs[5] == ';');
        }
    }
}

} // verus!
