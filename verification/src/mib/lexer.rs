//! The tokens of a MIB module.

use crate::text::{chars_of, string_of, texts};
use vstd::prelude::*;
use vstd::slice::slice_subrange;
use vstd::string::*;

verus! {

/// Whether two hyphens stand at `index`.
pub open spec fn hyphens_at(text: Seq<char>, index: int) -> bool {
    index + 1 < text.len() && text[index] == '-' && text[index + 1] == '-'
}

/// Where the body of a comment stops: at the end of the line, at the next two hyphens, or at the
/// end of the text.
pub open spec fn comment_stop(text: Seq<char>, index: int) -> int
    decreases text.len() - index,
{
    if index >= text.len() || text[index] == '\n' || hyphens_at(text, index) {
        index
    } else {
        comment_stop(text, index + 1)
    }
}

/// Where a quoted string stops: at the next quote, or at the end of the text.
pub open spec fn quote_stop(text: Seq<char>, index: int) -> int
    decreases text.len() - index,
{
    if index >= text.len() || text[index] == '"' {
        index
    } else {
        quote_stop(text, index + 1)
    }
}

pub proof fn lemma_stops(text: Seq<char>, index: int)
    ensures
        comment_stop(text, index) >= index,
        quote_stop(text, index) >= index,
        comment_stop(text, index) < text.len() ==> text[comment_stop(text, index)] == '\n'
            || hyphens_at(text, comment_stop(text, index)),
    decreases text.len() - index,
{
    if index < text.len() {
        lemma_stops(text, index + 1);
    }
}

/// The text from `index` on without comments and quoted strings. A comment leaves the line break
/// that ends it, or a space where hyphens end it; a quoted string leaves two spaces.
pub open spec fn stripped(text: Seq<char>, index: int) -> Seq<char>
    decreases text.len() - index,
{
    if index >= text.len() {
        Seq::empty()
    } else if hyphens_at(text, index) {
        let stop = comment_stop(text, index + 2);
        proof {
            lemma_stops(text, index + 2);
        }
        if stop >= text.len() {
            Seq::empty()
        } else if text[stop] == '\n' {
            seq!['\n'] + stripped(text, stop + 1)
        } else {
            seq![' '] + stripped(text, stop + 2)
        }
    } else if text[index] == '"' {
        let stop = quote_stop(text, index + 1);
        proof {
            lemma_stops(text, index + 1);
        }
        if stop >= text.len() {
            seq![' ', ' ']
        } else {
            seq![' ', ' '] + stripped(text, stop + 1)
        }
    } else {
        seq![text[index]] + stripped(text, index + 1)
    }
}

/// Removes comments and quoted strings.
pub fn strip_comments_and_strings(contents: &str) -> (r: String)
    ensures
        r@ == stripped(contents@, 0),
{
    let text = chars_of(contents);
    let mut output = String::new();
    let mut index: usize = 0;
    while index < text.len()
        invariant
            text@ == contents@,
            output@ + stripped(text@, index as int) == stripped(contents@, 0),
        decreases text@.len() - index,
    {
        let ghost before = output@;
        let ghost start = index as int;
        if text[index] == '-' && text.len() - index > 1 && text[index + 1] == '-' {
            index = index + 2;
            let ghost body = index as int;
            while index < text.len() && text[index] != '\n' && !(text[index] == '-' && text.len()
                - index > 1 && text[index + 1] == '-')
                invariant
                    body <= index <= text@.len(),
                    comment_stop(text@, index as int) == comment_stop(text@, body),
                decreases text@.len() - index,
            {
                index += 1;
            }
            if index < text.len() {
                if text[index] == '\n' {
                    output.push('\n');
                    index = index + 1;
                    assert(before.push('\n') + stripped(text@, index as int) =~= before + (seq![
                        '\n',
                    ] + stripped(text@, index as int)));
                } else {
                    output.push(' ');
                    index = index + 2;
                    assert(before.push(' ') + stripped(text@, index as int) =~= before + (seq![' ']
                        + stripped(text@, index as int)));
                }
            } else {
                assert(stripped(text@, start) =~= Seq::empty());
                assert(stripped(text@, index as int) =~= Seq::empty());
            }
        } else if text[index] == '"' {
            output.push(' ');
            index = index + 1;
            let ghost body = index as int;
            while index < text.len() && text[index] != '"'
                invariant
                    body <= index <= text@.len(),
                    quote_stop(text@, index as int) == quote_stop(text@, body),
                decreases text@.len() - index,
            {
                index += 1;
            }
            output.push(' ');
            if index < text.len() {
                index = index + 1;
                assert(output@ + stripped(text@, index as int) =~= before + (seq![' ', ' ']
                    + stripped(text@, index as int)));
            } else {
                assert(stripped(text@, start) == seq![' ', ' ']);
                assert(output@ + stripped(text@, index as int) =~= before + seq![' ', ' ']);
            }
        } else {
            output.push(text[index]);
            index = index + 1;
            assert(output@ + stripped(text@, index as int) =~= before + (seq![text@[start]]
                + stripped(text@, index as int)));
        }
    }
    assert(output@ =~= output@ + stripped(text@, index as int));
    output
}

/// The characters that words are made of.
pub open spec fn is_word_char(character: char) -> bool {
    ||| 'a' <= character <= 'z'
    ||| 'A' <= character <= 'Z'
    ||| '0' <= character <= '9'
    ||| character == '_'
    ||| character == '-'
}

/// The characters that are tokens of their own.
pub open spec fn is_punctuation(character: char) -> bool {
    ||| character == '{'
    ||| character == '}'
    ||| character == '('
    ||| character == ')'
    ||| character == ','
    ||| character == ';'
}

/// Where the word that goes on at `index` ends.
pub open spec fn word_end(text: Seq<char>, index: int) -> int
    decreases text.len() - index,
{
    if index >= text.len() || !is_word_char(text[index]) {
        index
    } else {
        word_end(text, index + 1)
    }
}

pub proof fn lemma_word_end(text: Seq<char>, index: int)
    requires
        index <= text.len(),
    ensures
        index <= word_end(text, index) <= text.len(),
    decreases text.len() - index,
{
    if index < text.len() && is_word_char(text[index]) {
        lemma_word_end(text, index + 1);
    }
}

/// The tokens of the text from `index` on: words, assignment signs and punctuation. Everything else
/// only separates them, two colons that no equals sign follows included.
pub open spec fn tokens(text: Seq<char>, index: int) -> Seq<Seq<char>>
    decreases text.len() - index,
{
    if index >= text.len() {
        Seq::empty()
    } else if is_word_char(text[index]) {
        let end = word_end(text, index + 1);
        proof {
            lemma_word_end(text, index + 1);
        }
        seq![text.subrange(index, end)] + tokens(text, end)
    } else if text[index] == ':' && index + 1 < text.len() && text[index + 1] == ':' {
        if index + 2 < text.len() && text[index + 2] == '=' {
            seq!["::="@] + tokens(text, index + 3)
        } else {
            tokens(text, index + 2)
        }
    } else if is_punctuation(text[index]) {
        seq![seq![text[index]]] + tokens(text, index + 1)
    } else {
        tokens(text, index + 1)
    }
}

fn word_char(character: char) -> (r: bool)
    ensures
        r == is_word_char(character),
{
    ('a' <= character && character <= 'z') || ('A' <= character && character <= 'Z') || ('0'
        <= character && character <= '9') || character == '_' || character == '-'
}

/// Splits a text into tokens.
pub fn tokenize(contents: &str) -> (r: Vec<String>)
    ensures
        texts(r@) == tokens(contents@, 0),
{
    let text = chars_of(contents);
    let mut found: Vec<String> = Vec::new();
    let mut index: usize = 0;
    while index < text.len()
        invariant
            text@ == contents@,
            texts(found@) + tokens(text@, index as int) == tokens(contents@, 0),
        decreases text@.len() - index,
    {
        let ghost before = texts(found@);
        let character = text[index];
        if word_char(character) {
            let start: usize = index;
            index = index + 1;
            while index < text.len() && word_char(text[index])
                invariant
                    start < index <= text@.len(),
                    word_end(text@, index as int) == word_end(text@, start + 1),
                decreases text@.len() - index,
            {
                index += 1;
            }
            let word = string_of(slice_subrange(text.as_slice(), start, index));
            found.push(word);
            assert(texts(found@) =~= before.push(word@));
            assert(texts(found@) + tokens(text@, index as int) =~= before + (seq![word@] + tokens(
                text@,
                index as int,
            )));
        } else if character == ':' && text.len() - index > 1 && text[index + 1] == ':' {
            if text.len() - index > 2 && text[index + 2] == '=' {
                found.push("::=".to_owned());
                index = index + 3;
                assert(texts(found@) =~= before.push("::="@));
                assert(texts(found@) + tokens(text@, index as int) =~= before + (seq!["::="@]
                    + tokens(text@, index as int)));
            } else {
                index = index + 2;
            }
        } else if character == '{' || character == '}' || character == '(' || character == ')'
            || character == ',' || character == ';' {
            let mut sign = String::new();
            sign.push(character);
            index = index + 1;
            found.push(sign);
            assert(texts(found@) =~= before.push(seq![character]));
            assert(texts(found@) + tokens(text@, index as int) =~= before + (seq![seq![character]]
                + tokens(text@, index as int)));
        } else {
            index = index + 1;
        }
    }
    assert(texts(found@) =~= texts(found@) + tokens(text@, index as int));
    found
}

/// ASN.1 value references, such as names of object identifiers, start with a lowercase letter.
pub open spec fn value_name(token: Seq<char>) -> bool {
    token.len() > 0 && 'a' <= token[0] <= 'z'
}

/// ASN.1 module and type references start with an uppercase letter.
pub open spec fn module_reference(token: Seq<char>) -> bool {
    token.len() > 0 && 'A' <= token[0] <= 'Z'
}

fn first_char(token: &str) -> (r: Option<char>)
    ensures
        r == (if token@.len() > 0 {
            Some(token@[0])
        } else {
            None
        }),
{
    for character in it: token.chars()
        invariant
            it.seq() == token@,
            it.index() == 0,
    {
        return Some(character);
    }
    None
}

/// Whether a token is a value reference.
pub fn is_value_name(token: &str) -> (r: bool)
    ensures
        r == value_name(token@),
{
    match first_char(token) {
        Some(first) => 'a' <= first && first <= 'z',
        None => false,
    }
}

/// Whether a token is a module or type reference.
pub fn is_module_reference(token: &str) -> (r: bool)
    ensures
        r == module_reference(token@),
{
    match first_char(token) {
        Some(first) => 'A' <= first && first <= 'Z',
        None => false,
    }
}

} // verus!
