//! What the display hints of octet strings mean.

use crate::ber::{be_value, lemma_be_value_bound, lemma_pow256_monotone, pow256};
use crate::display::{
    delimiter_text, digits_end, field_number, field_text, field_width, fields, formatted_octets,
    hinted_octets, is_octet_format, lemma_digits_end, lemma_fields_consume, octet_format_at,
    octet_formats, octet_formats_from, OctetFormat,
};
use crate::text::{
    is_decimal_digit, is_numeral, numeral_value, numerals_read_back, read_unsigned, utf8_lossy,
};
use vstd::prelude::*;
use vstd::string::*;

verus! {

/// The character can stand between fields: it is no digit and no asterisk.
pub open spec fn delimits(character: char) -> bool {
    !('0' <= character <= '9') && character != '*'
}

/// One specification of a hint: an asterisk where it repeats, the length, the letter, and what
/// stands between and behind the fields.
pub open spec fn specification(format: OctetFormat, number: Seq<char>) -> Seq<char> {
    (if format.repeat {
        seq!['*']
    } else {
        Seq::empty()
    }) + number + seq![format.format] + (match format.separator {
        Some(separator) => seq![separator],
        None => Seq::empty(),
    }) + (match format.terminator {
        Some(terminator) => seq![terminator],
        None => Seq::empty(),
    })
}

/// The text specifies the format. A length of zero means one, and only what repeats is terminated.
pub open spec fn specifies(text: Seq<char>, number: Seq<char>, format: OctetFormat) -> bool {
    &&& text == specification(format, number)
    &&& forall|i: int| 0 <= i < number.len() ==> '0' <= #[trigger] number[i] <= '9'
    &&& read_unsigned(number, usize::MAX as nat) matches Some(length) && format.length as int == (
    if length == 0 {
        1
    } else {
        length as int
    })
    &&& "adotx"@.contains(format.format)
    &&& format.separator matches Some(separator) ==> delimits(separator)
    &&& format.terminator matches Some(terminator) ==> delimits(terminator) && format.repeat
        && format.separator is Some
}

proof fn lemma_letters(character: char)
    ensures
        "adotx"@.contains(character) == is_octet_format(character),
{
    reveal_strlit("adotx");
    let letters = "adotx"@;
    if character == 'a' {
        assert(letters[0] == character);
    } else if character == 'd' {
        assert(letters[1] == character);
    } else if character == 'o' {
        assert(letters[2] == character);
    } else if character == 't' {
        assert(letters[3] == character);
    } else if character == 'x' {
        assert(letters[4] == character);
    }
}

proof fn lemma_digits_move(hint: Seq<char>, start: int, index: int)
    requires
        0 <= start <= hint.len(),
        0 <= index,
    ensures
        digits_end(hint, start + index) == start + digits_end(hint.skip(start), index),
    decreases hint.len() - index,
{
    if start + index < hint.len() && is_decimal_digit(hint[start + index]) {
        lemma_digits_move(hint, start, index + 1);
    }
}

proof fn lemma_formats_move(hint: Seq<char>, start: int, index: int)
    requires
        0 <= start <= hint.len(),
        0 <= index,
    ensures
        octet_formats_from(hint, start + index) == octet_formats_from(hint.skip(start), index),
    decreases hint.len() - index,
{
    let rest = hint.skip(start);
    if start + index < hint.len() {
        let repeat = hint[start + index] == '*';
        let from = if repeat {
            index + 1
        } else {
            index
        };
        lemma_digits_move(hint, start, from);
        lemma_digits_end(rest, from);
        let end = digits_end(rest, from);
        assert(hint.subrange(start + from, start + end) =~= rest.subrange(from, end));
        match octet_format_at(rest, index) {
            Some((format, next)) => {
                assert(octet_format_at(hint, start + index) == Some((format, start + next)));
                lemma_formats_move(hint, start, next);
            },
            None => {
                assert(octet_format_at(hint, start + index) is None);
            },
        }
    }
}

proof fn lemma_digits_run(hint: Seq<char>, start: int, end: int)
    requires
        0 <= start <= end <= hint.len(),
        forall|i: int| start <= i < end ==> '0' <= #[trigger] hint[i] <= '9',
        end < hint.len() ==> !('0' <= hint[end] <= '9'),
    ensures
        digits_end(hint, start) == end,
    decreases end - start,
{
    if start < end {
        assert('0' <= hint[start] <= '9');
        lemma_digits_run(hint, start + 1, end);
    }
}

/// A hint is read specification by specification.
pub proof fn hints_are_read_in_order(
    text: Seq<char>,
    number: Seq<char>,
    format: OctetFormat,
    rest: Seq<char>,
)
    requires
        specifies(text, number, format),
        rest.len() > 0 ==> !delimits(rest[0]),
    ensures
        octet_formats(text + rest) == (if rest.len() == 0 {
            Some(seq![format])
        } else {
            match octet_formats(rest) {
                Some(formats) => Some(seq![format] + formats),
                None => None,
            }
        }),
{
    let hint = text + rest;
    lemma_letters(format.format);
    let start: int = if format.repeat {
        1
    } else {
        0
    };
    let end = start + number.len();
    assert forall|i: int| start <= i < end implies '0' <= #[trigger] hint[i] <= '9' by {
        assert(hint[i] == number[i - start]);
    }
    assert(hint[end] == format.format);
    lemma_digits_run(hint, start, end);
    assert(hint.subrange(start, end) =~= number);
    if !format.repeat {
        assert(number.len() > 0) by {
            if number.len() == 0 {
                assert(number =~= Seq::<char>::empty());
            }
        }
        assert(hint[0] == number[0]);
    }
    match format.separator {
        Some(separator) => {
            assert(hint[end + 1] == separator);
            match format.terminator {
                Some(terminator) => {
                    assert(hint[end + 2] == terminator);
                },
                None => {
                    if rest.len() > 0 {
                        assert(hint[end + 2] == rest[0]);
                    }
                },
            }
        },
        None => {
            if rest.len() > 0 {
                assert(hint[end + 1] == rest[0]);
            }
        },
    }
    let next = text.len() as int;
    assert(octet_format_at(hint, 0) == Some((format, next)));
    lemma_formats_move(hint, next, 0);
    assert(hint.skip(next) =~= rest);
    if rest.len() == 0 {
        assert(seq![format] + Seq::<OctetFormat>::empty() =~= seq![format]);
    }
}

/// A hint that is read starts with a specification of its first format, and the rest of it is a
/// hint of the other formats.
pub proof fn hints_are_specifications(hint: Seq<char>)
    ensures
        octet_formats(hint) matches Some(formats) ==> formats.len() > 0 && exists|
            text: Seq<char>,
            number: Seq<char>,
        |
            {
                &&& #[trigger] specifies(text, number, formats[0])
                &&& text.len() <= hint.len()
                &&& hint.take(text.len() as int) == text
                &&& hint.skip(text.len() as int).len() == 0 ==> formats.len() == 1
                &&& hint.skip(text.len() as int).len() > 0 ==> octet_formats(
                    hint.skip(text.len() as int),
                ) == Some(formats.skip(1))
            },
{
    if octet_formats(hint) is Some {
        let formats = octet_formats(hint)->0;
        let (format, next) = octet_format_at(hint, 0)->0;
        let start: int = if format.repeat {
            1
        } else {
            0
        };
        let end = digits_end(hint, start);
        lemma_digits_end(hint, start);
        lemma_digits_are_digits(hint, start);
        let number = hint.subrange(start, end);
        let text = hint.take(next);
        lemma_letters(format.format);
        lemma_formats_move(hint, next, 0);
        let rest = octet_formats_from(hint, next)->0;
        assert(formats == seq![format] + rest);
        assert(formats.skip(1) =~= rest);
        assert(text =~= specification(format, number));
        assert(specifies(text, number, formats[0]));
    }
}

proof fn lemma_digits_are_digits(hint: Seq<char>, start: int)
    requires
        0 <= start,
    ensures
        forall|i: int|
            start <= i < digits_end(hint, start) ==> '0' <= #[trigger] hint[i] <= '9',
    decreases hint.len() - start,
{
    if start < hint.len() && is_decimal_digit(hint[start]) {
        lemma_digits_are_digits(hint, start + 1);
    }
}

/// The base of a format's numbers.
pub open spec fn base_of(format: OctetFormat) -> int {
    if format.format == 'd' {
        10
    } else if format.format == 'o' {
        8
    } else {
        16
    }
}

/// A field of text is the text that its octets encode. A field of a number that has all its octets,
/// and no more of them than fit, reads as the number that they stand for. A field that the value
/// ends in reads as if octets of zero followed.
pub proof fn fields_read_back(octets: Seq<u8>, format: OctetFormat)
    ensures
        format.format == 'a' || format.format == 't' ==> field_text(octets, format) == utf8_lossy(
            octets,
        ),
        "dox"@.contains(format.format) && octets.len() == format.length && 0 < octets.len() <= 16
            ==> {
            &&& is_numeral(field_text(octets, format), base_of(format))
            &&& numeral_value(field_text(octets, format), base_of(format)) == be_value(octets)
        },
        "dox"@.contains(format.format) && octets.len() < format.length ==> field_text(
            octets,
            format,
        ) == field_text(octets.push(0), format),
{
    reveal_strlit("dox");
    if "dox"@.contains(format.format) {
        assert(format.format == 'd' || format.format == 'o' || format.format == 'x');
        let number = field_number(octets, field_width(format));
        numerals_read_back(number, base_of(format) as nat);
        if octets.len() == format.length && 0 < octets.len() <= 16 {
            lemma_be_value_bound(octets);
            lemma_pow256_monotone(octets.len(), 16);
            assert(pow256(16) == 0x1_0000_0000_0000_0000_0000_0000_0000_0000nat) by {
                reveal_with_fuel(pow256, 17);
            }
            assert(be_value(octets) * pow256(0) == be_value(octets)) by (nonlinear_arith)
                requires
                    pow256(0) == 1,
            ;
        }
        if octets.len() < format.length {
            let more = octets.push(0);
            assert(more.drop_last() =~= octets);
            let missing = (format.length - octets.len()) as nat;
            let less = (missing - 1) as nat;
            assert(be_value(more) == be_value(octets) * 256);
            assert(be_value(octets) * pow256(missing) == be_value(more) * pow256(less))
                by (nonlinear_arith)
                requires
                    pow256(missing) == 256 * pow256(less),
                    be_value(more) == be_value(octets) * 256,
            ;
        }
    }
}

/// The character, if octets follow.
pub open spec fn written_before(delimiter: Option<char>, rest: Seq<u8>) -> Seq<char> {
    match delimiter {
        Some(character) => if rest.len() > 0 {
            seq![character]
        } else {
            Seq::empty()
        },
        None => Seq::empty(),
    }
}

/// The format at the index, or the last one behind it.
pub open spec fn format_for(formats: Seq<OctetFormat>, index: nat) -> OctetFormat {
    formats[if index < formats.len() {
        index as int
    } else {
        formats.len() - 1
    }]
}

/// A format that does not repeat shows one field, of its length or of what is left, and the next
/// format shows the rest.
pub proof fn formats_take_turns(octets: Seq<u8>, formats: Seq<OctetFormat>, index: nat, width: int)
    requires
        formats.len() > 0,
        octets.len() > 0,
        !format_for(formats, index).repeat,
        format_for(formats, index).length > 0,
        width == vstd::math::min(
            octets.len() as int,
            format_for(formats, index).length as int,
        ),
    ensures
        formatted_octets(octets, formats, index) == field_text(
            octets.take(width),
            format_for(formats, index),
        ) + written_before(format_for(formats, index).separator, octets.skip(width))
            + written_before(format_for(formats, index).terminator, octets.skip(width))
            + formatted_octets(octets.skip(width), formats, index + 1),
{
    let format = format_for(formats, index);
    let rest = octets.skip(width);
    reveal_with_fuel(fields, 2);
    let text = field_text(octets.take(width), format) + delimiter_text(format.separator, rest);
    assert(text + Seq::<char>::empty() =~= text);
    assert(fields(octets, format, 1) == (text, rest));
}

/// A format that repeats takes the number of its fields from an octet before them, and the next
/// format shows the rest.
pub proof fn formats_repeat_as_often_as_counted(
    octets: Seq<u8>,
    formats: Seq<OctetFormat>,
    index: nat,
)
    requires
        formats.len() > 0,
        octets.len() > 0,
        format_for(formats, index).repeat,
    ensures
        ({
            let format = format_for(formats, index);
            let shown = fields(octets.skip(1), format, octets[0] as nat);
            formatted_octets(octets, formats, index) == shown.0 + written_before(
                format.terminator,
                shown.1,
            ) + formatted_octets(shown.1, formats, index + 1)
        }),
{
}

/// Several fields are shown one behind the other, each of the format's length or of what is left,
/// with the separator between them.
pub proof fn fields_follow_each_other(
    octets: Seq<u8>,
    format: OctetFormat,
    count: nat,
    more: nat,
    width: int,
)
    requires
        format.length > 0,
        width == vstd::math::min(octets.len() as int, format.length as int),
    ensures
        fields(octets, format, 0) == (Seq::<char>::empty(), octets),
        octets.len() == 0 ==> fields(octets, format, count) == (Seq::<char>::empty(), octets),
        octets.len() > 0 ==> fields(octets, format, 1) == (
            field_text(octets.take(width), format) + written_before(
                format.separator,
                octets.skip(width),
            ),
            octets.skip(width),
        ),
        fields(octets, format, count + more) == (
            fields(octets, format, count).0 + fields(
                fields(octets, format, count).1,
                format,
                more,
            ).0,
            fields(fields(octets, format, count).1, format, more).1,
        ),
    decreases count,
{
    reveal_with_fuel(fields, 2);
    if octets.len() > 0 {
        let rest = octets.skip(width);
        let text = field_text(octets.take(width), format) + delimiter_text(format.separator, rest);
        assert(text + Seq::<char>::empty() =~= text);
        if count > 0 {
            let less = (count - 1) as nat;
            let next = vstd::math::min(rest.len() as int, format.length as int);
            fields_follow_each_other(rest, format, less, more, next);
            let (front, middle) = fields(rest, format, less);
            let (back, behind) = fields(middle, format, more);
            assert(fields(octets, format, count) == (text + front, middle));
            assert((count + more - 1) as nat == less + more);
            assert(fields(octets, format, count + more) == (text + (front + back), behind));
            assert(text + (front + back) =~= text + front + back);
        } else {
            assert(Seq::<char>::empty() + fields(octets, format, more).0 =~= fields(
                octets,
                format,
                more,
            ).0);
        }
    }
}

/// Nothing is shown of no octets, and the last format is used again for as long as octets are left.
pub proof fn last_formats_are_used_again(octets: Seq<u8>, formats: Seq<OctetFormat>, index: nat)
    requires
        formats.len() > 0,
    ensures
        octets.len() == 0 ==> formatted_octets(octets, formats, index) == Seq::<char>::empty(),
        index + 1 >= formats.len() ==> formatted_octets(octets, formats, index)
            == formatted_octets(octets, formats, index + 1),
    decreases octets.len(),
{
    if octets.len() > 0 && index + 1 >= formats.len() {
        let format = format_for(formats, index);
        lemma_fields_consume(octets.skip(1), format, octets[0] as nat);
        lemma_fields_consume(octets, format, 1);
        let rest = if format.repeat {
            fields(octets.skip(1), format, octets[0] as nat).1
        } else {
            fields(octets, format, 1).1
        };
        last_formats_are_used_again(rest, formats, index + 1);
    }
}

/// A hint shows octets by its formats, from the first one on. What is no hint shows nothing.
pub proof fn hints_show_octets(octets: Seq<u8>, hint: Seq<char>)
    ensures
        octet_formats(hint) matches Some(formats) ==> hinted_octets(octets, hint) == Some(
            formatted_octets(octets, formats, 0),
        ),
        octet_formats(hint) is None ==> hinted_octets(octets, hint) is None,
        hint.len() == 0 ==> hinted_octets(octets, hint) is None,
{
}

} // verus!
