//! Renders variable binding values the way Net-SNMP's `snmptrapd` prints them, using the MIB syntax
//! of the object when it is known.

use crate::ber::{be_value, pow256};
use crate::mib::resolver::{resolve_text, MibResolver};
use crate::mib::table::SymbolView;
use crate::model::{BoundValue, NetworkAddress, ObjectValue, ObjectView, VarBindView};
use crate::text::{
    chars_of, decimal, is_decimal_digit, lossy_text, numeral, opt_text, parse_unsigned,
    push_numeral, push_zero_padded, read_unsigned, render_decimal, render_numeral, render_signed,
    signed_decimal, string_of, utf8_lossy, zero_padded,
};
use vstd::prelude::*;
use vstd::slice::slice_subrange;
use vstd::string::*;

verus! {

/// The base ASN.1 or SMI type that a MIB object's `SYNTAX` ultimately refers to.
#[derive(Clone, Copy, Debug, PartialEq, Eq, Structural)]
pub enum BaseSyntax {
    Integer,
    Unsigned,
    Counter,
    TimeTicks,
    IpAddress,
    /// The SMIv1 `NetworkAddress` type, which Net-SNMP shows as colon-separated hexadecimal.
    NetworkAddress,
    OctetString,
    ObjectIdentifier,
    Bits,
    Opaque,
}

/// The syntax of a MIB object after resolving textual conventions.
#[derive(Clone, Debug, PartialEq, Eq)]
pub struct ValueSyntax {
    pub base: BaseSyntax,
    /// The labels of an enumerated INTEGER or of the bits of a BITS value.
    pub named_numbers: Vec<(i64, String)>,
    /// The RFC 2579 `DISPLAY-HINT` of the textual convention, if any.
    pub display_hint: Option<String>,
    /// The object's `UNITS`, appended to numeric values.
    pub units: Option<String>,
}

/// A [`ValueSyntax`] as mathematical values.
pub ghost struct SyntaxView {
    pub base: BaseSyntax,
    pub named_numbers: Seq<(i64, Seq<char>)>,
    pub display_hint: Option<Seq<char>>,
    pub units: Option<Seq<char>>,
}

/// The labels as characters.
pub open spec fn labels_view(labels: Seq<(i64, String)>) -> Seq<(i64, Seq<char>)> {
    labels.map_values(|label: (i64, String)| (label.0, label.1@))
}

impl View for ValueSyntax {
    type V = SyntaxView;

    open spec fn view(&self) -> SyntaxView {
        SyntaxView {
            base: self.base,
            named_numbers: labels_view(self.named_numbers@),
            display_hint: opt_text(self.display_hint),
            units: opt_text(self.units),
        }
    }
}

/// The upper-case hexadecimal digit.
pub open spec fn upper_digit(digit: nat) -> char {
    if digit < 10 {
        (48 + digit) as char
    } else {
        (55 + digit) as char
    }
}

/// An octet as two upper-case hexadecimal digits.
pub open spec fn upper_hex(octet: u8) -> Seq<char> {
    seq![upper_digit(octet as nat / 16), upper_digit(octet as nat % 16)]
}

fn upper_char(digit: u8) -> (r: char)
    requires
        digit < 16,
    ensures
        r == upper_digit(digit as nat),
{
    if digit < 10 {
        (48 + digit) as char
    } else {
        (55 + digit) as char
    }
}

fn push_upper_hex(output: &mut String, octet: u8)
    ensures
        final(output)@ == old(output)@ + upper_hex(octet),
{
    output.push(upper_char(octet / 16));
    output.push(upper_char(octet % 16));
    assert(output@ =~= old(output)@ + upper_hex(octet));
}

/// Raw octets as Net-SNMP prints a `Hex-STRING`: a space after every octet and a line break after
/// every 16 octets when more follow.
pub open spec fn hex_dump(bytes: Seq<u8>) -> Seq<char>
    decreases bytes.len(),
{
    if bytes.len() == 0 {
        Seq::empty()
    } else {
        let index = bytes.len() - 1;
        let before = hex_dump(bytes.drop_last());
        let broken = if index > 0 && index % 16 == 0 {
            before.push('\n')
        } else {
            before
        };
        (broken + upper_hex(bytes.last())).push(' ')
    }
}

/// Formats raw bytes as hexadecimal the way Net-SNMP prints a `Hex-STRING`: a space after every
/// octet and a line break after every 16 octets when more follow.
pub fn display_hex(bytes: &[u8]) -> (r: String)
    ensures
        r@ == hex_dump(bytes@),
{
    let mut output = String::new();
    for index in 0..bytes.len()
        invariant
            output@ == hex_dump(bytes@.take(index as int)),
    {
        assert(bytes@.take(index + 1).drop_last() =~= bytes@.take(index as int));
        if index > 0 && index % 16 == 0 {
            output.push('\n');
        }
        push_upper_hex(&mut output, bytes[index]);
        output.push(' ');
    }
    assert(bytes@.take(bytes@.len() as int) =~= bytes@);
    output
}

/// The first label of a number from `index` on.
pub open spec fn label_from(labels: Seq<(i64, Seq<char>)>, number: int, index: int) -> Option<
    Seq<char>,
>
    decreases labels.len() - index,
{
    if index >= labels.len() {
        None
    } else if labels[index].0 == number {
        Some(labels[index].1)
    } else {
        label_from(labels, number, index + 1)
    }
}

/// The first label of a number.
pub open spec fn label_of(labels: Seq<(i64, Seq<char>)>, number: int) -> Option<Seq<char>> {
    label_from(labels, number, 0)
}

fn find_label(labels: &[(i64, String)], number: i128) -> (r: Option<&String>)
    ensures
        match r {
            Some(label) => label_of(labels_view(labels@), number as int) == Some(label@),
            None => label_of(labels_view(labels@), number as int) is None,
        },
{
    for index in 0..labels.len()
        invariant
            label_from(labels_view(labels@), number as int, index as int) == label_of(
                labels_view(labels@),
                number as int,
            ),
    {
        assert(labels_view(labels@)[index as int] == (labels@[index as int].0,
            labels@[index as int].1@));
        if labels[index].0 as i128 == number {
            return Some(&labels[index].1);
        }
    }
    None
}

/// The number of decimals that a hint gives behind its `d`: a hyphen and a number.
pub open spec fn hinted_decimals(rest: Seq<char>) -> Option<nat> {
    if rest.len() > 0 && rest[0] == '-' {
        read_unsigned(rest.skip(1), usize::MAX as nat)
    } else {
        None
    }
}

/// A number with a decimal point before its last digits. A number with no more digits than decimals
/// has nothing before the point, and zeros behind it.
pub open spec fn with_decimals(value: int, decimals: nat) -> Seq<char> {
    let digits = decimal((if value < 0 {
        -value
    } else {
        value
    }) as nat);
    let sign = if value < 0 {
        "-"@
    } else {
        ""@
    };
    if digits.len() > decimals {
        let split = digits.len() - decimals;
        sign + digits.take(split) + "."@ + digits.skip(split)
    } else {
        sign + "."@ + zero_padded(digits, decimals)
    }
}

/// A number by an RFC 2579 integer display hint.
pub open spec fn hinted_integer(value: int, hint: Seq<char>) -> Option<Seq<char>> {
    if hint.len() == 0 {
        None
    } else {
        let rest = hint.skip(1);
        if hint[0] == 'd' {
            if rest.len() == 0 {
                Some(signed_decimal(value))
            } else {
                match hinted_decimals(rest) {
                    None => None,
                    Some(decimals) => if decimals == 0 {
                        Some(signed_decimal(value))
                    } else {
                        Some(with_decimals(value, decimals))
                    },
                }
            }
        } else if rest.len() != 0 {
            None
        } else if hint[0] == 'x' {
            Some(numeral((value % 0x1_0000_0000_0000_0000) as nat, 16))
        } else if hint[0] == 'o' {
            Some(numeral((value % 0x1_0000_0000_0000_0000) as nat, 8))
        } else if hint[0] == 'b' {
            Some(zero_padded(numeral((value % 0x1_0000_0000) as nat, 2), 32))
        } else {
            None
        }
    }
}

fn render_with_decimals(value: i64, decimals: usize) -> (r: String)
    ensures
        r@ == with_decimals(value as int, decimals as nat),
{
    let wide: i128 = value as i128;
    let magnitude: u128 = if wide < 0 {
        (-wide) as u128
    } else {
        wide as u128
    };
    let sign: String = if wide < 0 {
        "-".to_owned()
    } else {
        "".to_owned()
    };
    let text = render_numeral(magnitude, 10);
    let digits = chars_of(text.as_str());
    if digits.len() > decimals {
        let split: usize = digits.len() - decimals;
        let whole = string_of(slice_subrange(digits.as_slice(), 0, split));
        let fraction = string_of(slice_subrange(digits.as_slice(), split, digits.len()));
        assert(whole@ =~= digits@.take(split as int));
        assert(fraction@ =~= digits@.skip(split as int));
        sign.concat(whole.as_str()).concat(".").concat(fraction.as_str())
    } else {
        let mut output = sign.concat(".");
        push_zero_padded(&mut output, text.as_str(), decimals);
        output
    }
}

fn to_unsigned(value: i64) -> (r: u128)
    ensures
        r == value as int % 0x1_0000_0000_0000_0000,
{
    let wide: i128 = value as i128;
    if wide < 0 {
        (wide + 0x1_0000_0000_0000_0000) as u128
    } else {
        wide as u128
    }
}

/// Applies an RFC 2579 integer display hint (`d`, `d-N`, `x`, `o`, or `b`) the way Net-SNMP does:
/// `d-2` shows 5 as `.05`, and `b` shows 32 binary digits.
pub fn display_hinted_integer(value: i64, hint: &str) -> (r: Option<String>)
    ensures
        opt_text(r) == hinted_integer(value as int, hint@),
{
    let chars = chars_of(hint);
    if chars.len() == 0 {
        return None;
    }
    let format: char = chars[0];
    let ghost rest = hint@.skip(1);
    if format == 'd' {
        if chars.len() == 1 {
            return Some(render_signed(value));
        }
        if chars[1] != '-' {
            return None;
        }
        let number = slice_subrange(chars.as_slice(), 2, chars.len());
        assert(number@ =~= rest.skip(1));
        return match parse_unsigned(number, usize::MAX as u64) {
            None => None,
            Some(decimals) => if decimals == 0 {
                Some(render_signed(value))
            } else {
                Some(render_with_decimals(value, decimals as usize))
            },
        };
    }
    if chars.len() != 1 {
        return None;
    }
    if format == 'x' {
        Some(render_numeral(to_unsigned(value), 16))
    } else if format == 'o' {
        Some(render_numeral(to_unsigned(value), 8))
    } else if format == 'b' {
        let low: u128 = to_unsigned(value) % 0x1_0000_0000;
        assert(low == value as int % 0x1_0000_0000);
        let mut output = String::new();
        push_zero_padded(&mut output, render_numeral(low, 2).as_str(), 32);
        assert(output@ =~= zero_padded(numeral(low as nat, 2), 32));
        Some(output)
    } else {
        None
    }
}

/// An integer as an enumeration or by its display hint, or else in decimal.
pub open spec fn shown_integer(value: int, syntax: Option<SyntaxView>) -> Seq<char> {
    match syntax {
        None => signed_decimal(value),
        Some(syntax) => if syntax.named_numbers.len() > 0 {
            match label_of(syntax.named_numbers, value) {
                Some(label) => label + "("@ + signed_decimal(value) + ")"@,
                None => signed_decimal(value),
            }
        } else {
            match syntax.display_hint {
                Some(hint) => match hinted_integer(value, hint) {
                    Some(text) => text,
                    None => signed_decimal(value),
                },
                None => signed_decimal(value),
            }
        },
    }
}

/// The syntax as mathematical values, if there is one.
pub open spec fn opt_syntax(syntax: Option<&ValueSyntax>) -> Option<SyntaxView> {
    match syntax {
        Some(syntax) => Some(syntax@),
        None => None,
    }
}

/// Formats an integer as an enumeration or by its display hint, or else in decimal.
pub fn display_integer(value: i64, syntax: Option<&ValueSyntax>) -> (r: String)
    ensures
        r@ == shown_integer(value as int, opt_syntax(syntax)),
{
    match syntax {
        None => render_signed(value),
        Some(syntax) => {
            if syntax.named_numbers.len() > 0 {
                match find_label(syntax.named_numbers.as_slice(), value as i128) {
                    Some(label) => label.clone().concat("(").concat(
                        render_signed(value).as_str(),
                    ).concat(")"),
                    None => render_signed(value),
                }
            } else {
                match &syntax.display_hint {
                    Some(hint) => match display_hinted_integer(value, hint.as_str()) {
                        Some(text) => text,
                        None => render_signed(value),
                    },
                    None => render_signed(value),
                }
            }
        },
    }
}

/// Hundredths of a second as days, hours, minutes and seconds, behind their number.
pub open spec fn shown_timeticks(ticks: u32) -> Seq<char> {
    let seconds = ticks as nat / 100;
    let days = seconds / 86_400;
    let count = "("@ + decimal(ticks as nat) + ") "@;
    let time = decimal((seconds / 3_600) % 24) + ":"@ + zero_padded(
        decimal((seconds / 60) % 60),
        2,
    ) + ":"@ + zero_padded(decimal(seconds % 60), 2) + "."@ + zero_padded(
        decimal(ticks as nat % 100),
        2,
    );
    if days == 0 {
        count + time
    } else if days == 1 {
        count + "1 day, "@ + time
    } else {
        count + decimal(days) + " days, "@ + time
    }
}

/// Formats hundredths of a second as days, hours, minutes and seconds, behind their number.
pub fn display_timeticks(ticks: u32) -> (r: String)
    ensures
        r@ == shown_timeticks(ticks),
{
    let seconds: u32 = ticks / 100;
    let days: u32 = seconds / 86_400;
    let mut time = render_decimal(((seconds / 3_600) % 24) as u64).concat(":");
    push_zero_padded(&mut time, render_decimal(((seconds / 60) % 60) as u64).as_str(), 2);
    time.append(":");
    push_zero_padded(&mut time, render_decimal((seconds % 60) as u64).as_str(), 2);
    time.append(".");
    push_zero_padded(&mut time, render_decimal((ticks % 100) as u64).as_str(), 2);
    let count = "(".to_owned().concat(render_decimal(ticks as u64).as_str()).concat(") ");
    if days == 0 {
        count.concat(time.as_str())
    } else if days == 1 {
        count.concat("1 day, ").concat(time.as_str())
    } else {
        count.concat(render_decimal(days as u64).as_str()).concat(" days, ").concat(time.as_str())
    }
}

/// An octet that is printed as text.
pub open spec fn is_printable(octet: u8) -> bool {
    0x20 <= octet <= 0x7e || 0x09 <= octet <= 0x0d
}

/// The text with a backslash before every quote and backslash.
pub open spec fn escaped(text: Seq<char>) -> Seq<char>
    decreases text.len(),
{
    if text.len() == 0 {
        Seq::empty()
    } else {
        let before = escaped(text.drop_last());
        let marked = if text.last() == '"' || text.last() == '\\' {
            before.push('\\')
        } else {
            before
        };
        marked.push(text.last())
    }
}

/// Escapes `"` and `\` like Net-SNMP does in quoted text.
pub fn push_escaped(output: &mut String, text: &str)
    ensures
        final(output)@ == old(output)@ + escaped(text@),
{
    let chars = chars_of(text);
    for index in 0..chars.len()
        invariant
            chars@ == text@,
            output@ == old(output)@ + escaped(text@.take(index as int)),
    {
        let ghost before = escaped(text@.take(index as int));
        let character = chars[index];
        assert(text@.take(index + 1).drop_last() =~= text@.take(index as int));
        if character == '"' || character == '\\' {
            output.push('\\');
        }
        output.push(character);
        assert(output@ =~= old(output)@ + escaped(text@.take(index + 1)));
    }
    assert(text@.take(text@.len() as int) =~= text@);
}

/// The characters that octets of ASCII stand for.
pub open spec fn ascii_text(bytes: Seq<u8>) -> Seq<char> {
    bytes.map_values(|octet: u8| octet as char)
}

/// Octets without a display hint: printable text is quoted, anything else is shown as hexadecimal.
pub open spec fn shown_octets(bytes: Seq<u8>) -> Seq<char> {
    if forall|i: int| 0 <= i < bytes.len() ==> is_printable(#[trigger] bytes[i]) {
        "\""@ + escaped(ascii_text(bytes)) + "\""@
    } else {
        hex_dump(bytes)
    }
}

/// Formats an OCTET STRING without a display hint: printable text is quoted, anything else is shown
/// as hexadecimal.
pub fn display_octets(bytes: &[u8]) -> (r: String)
    ensures
        r@ == shown_octets(bytes@),
{
    let mut text = String::new();
    for index in 0..bytes.len()
        invariant
            forall|i: int| 0 <= i < index ==> is_printable(#[trigger] bytes@[i]),
            text@ == ascii_text(bytes@).take(index as int),
    {
        let octet: u8 = bytes[index];
        if !((0x20 <= octet && octet <= 0x7e) || (0x09 <= octet && octet <= 0x0d)) {
            assert(!is_printable(bytes@[index as int]));
            return display_hex(bytes);
        }
        text.push(octet as char);
        assert(ascii_text(bytes@).take(index + 1) =~= ascii_text(bytes@).take(index as int).push(
            octet as char,
        ));
    }
    assert(text@ =~= ascii_text(bytes@));
    let mut output = "\"".to_owned();
    push_escaped(&mut output, text.as_str());
    output.append("\"");
    output
}

/// The weight of a bit, counted from the most significant one.
pub open spec fn bit_weight(bit: int) -> int {
    if bit == 0 {
        128
    } else if bit == 1 {
        64
    } else if bit == 2 {
        32
    } else if bit == 3 {
        16
    } else if bit == 4 {
        8
    } else if bit == 5 {
        4
    } else if bit == 6 {
        2
    } else {
        1
    }
}

/// Whether the bit at `position` is set, counted through the octets from the most significant bit
/// of the first.
pub open spec fn bit_is_set(bytes: Seq<u8>, position: int) -> bool {
    (bytes[position / 8] as int / bit_weight(position % 8)) % 2 == 1
}

/// A set bit: its position, behind its label where it has one, and a space.
pub open spec fn shown_bit(labels: Seq<(i64, Seq<char>)>, position: nat) -> Seq<char> {
    match label_of(labels, position as int) {
        Some(label) => label + "("@ + decimal(position) + ") "@,
        None => decimal(position) + " "@,
    }
}

/// The set bits before `count`, in order.
pub open spec fn shown_set_bits(
    bytes: Seq<u8>,
    labels: Seq<(i64, Seq<char>)>,
    count: nat,
) -> Seq<char>
    decreases count,
{
    if count == 0 {
        Seq::empty()
    } else {
        let before = shown_set_bits(bytes, labels, (count - 1) as nat);
        if bit_is_set(bytes, count - 1) {
            before + shown_bit(labels, (count - 1) as nat)
        } else {
            before
        }
    }
}

/// BITS as hexadecimal followed by each set bit.
pub open spec fn shown_bits(bytes: Seq<u8>, labels: Seq<(i64, Seq<char>)>) -> Seq<char> {
    hex_dump(bytes) + shown_set_bits(bytes, labels, bytes.len() * 8)
}

fn weight_of_bit(bit: u8) -> (r: u8)
    ensures
        r == bit_weight(bit as int),
{
    match bit {
        0 => 128,
        1 => 64,
        2 => 32,
        3 => 16,
        4 => 8,
        5 => 4,
        6 => 2,
        _ => 1,
    }
}

/// Formats BITS as hexadecimal followed by each set bit, labeled when the MIB names it, for
/// example `92 01 sunday(0) wednesday(3) 15 `.
pub fn display_bits(bytes: &[u8], labels: &[(i64, String)]) -> (r: String)
    ensures
        r@ == shown_bits(bytes@, labels_view(labels@)),
{
    let mut output = display_hex(bytes);
    let ghost names = labels_view(labels@);
    for index in 0..bytes.len()
        invariant
            names == labels_view(labels@),
            output@ == hex_dump(bytes@) + shown_set_bits(bytes@, names, (index * 8) as nat),
    {
        let mut bit: u8 = 0;
        while bit < 8
            invariant
                names == labels_view(labels@),
                bit <= 8,
                index < bytes@.len(),
                output@ == hex_dump(bytes@) + shown_set_bits(
                    bytes@,
                    names,
                    (index * 8 + bit) as nat,
                ),
            decreases 8 - bit,
        {
            let ghost before = shown_set_bits(bytes@, names, (index * 8 + bit) as nat);
            let weight: u8 = weight_of_bit(bit);
            let position: u128 = index as u128 * 8 + bit as u128;
            proof {
                assert(position as int / 8 == index);
                assert(position as int % 8 == bit);
            }
            if (bytes[index] / weight) % 2 == 1 {
                match find_label(labels, position as i128) {
                    Some(label) => {
                        output.append(label.as_str());
                        output.append("(");
                        push_numeral(&mut output, position, 10);
                        output.append(") ");
                    },
                    None => {
                        push_numeral(&mut output, position, 10);
                        output.append(" ");
                    },
                }
                assert(output@ =~= hex_dump(bytes@) + (before + shown_bit(
                    names,
                    position as nat,
                )));
            }
            bit += 1;
        }
    }
    output
}

/// One octet-format specification of an RFC 2579 display hint.
#[derive(Clone, Copy, Debug, PartialEq, Eq)]
pub struct OctetFormat {
    pub repeat: bool,
    pub length: usize,
    pub format: char,
    pub separator: Option<char>,
    pub terminator: Option<char>,
}

/// Where the digits that go on at `index` end.
pub open spec fn digits_end(hint: Seq<char>, index: int) -> int
    decreases hint.len() - index,
{
    if index >= hint.len() || !is_decimal_digit(hint[index]) {
        index
    } else {
        digits_end(hint, index + 1)
    }
}

pub proof fn lemma_digits_end(hint: Seq<char>, index: int)
    ensures
        index <= digits_end(hint, index),
        index <= hint.len() ==> digits_end(hint, index) <= hint.len(),
    decreases hint.len() - index,
{
    if index < hint.len() && is_decimal_digit(hint[index]) {
        lemma_digits_end(hint, index + 1);
    }
}

/// The letters of the formats.
pub open spec fn is_octet_format(character: char) -> bool {
    ||| character == 'a'
    ||| character == 'd'
    ||| character == 'o'
    ||| character == 't'
    ||| character == 'x'
}

/// The separator or terminator at `index`: anything that cannot start the next specification.
pub open spec fn delimiter_at(hint: Seq<char>, index: int) -> Option<char> {
    if 0 <= index < hint.len() && !is_decimal_digit(hint[index]) && hint[index] != '*' {
        Some(hint[index])
    } else {
        None
    }
}

/// The specification that starts at `index`, and where the next one starts. Net-SNMP displays at
/// least one octet per field, even for a zero length.
pub open spec fn octet_format_at(hint: Seq<char>, index: int) -> Option<(OctetFormat, int)> {
    let repeat = hint[index] == '*';
    let start = if repeat {
        index + 1
    } else {
        index
    };
    let end = digits_end(hint, start);
    match read_unsigned(hint.subrange(start, end), usize::MAX as nat) {
        None => None,
        Some(length) => if end >= hint.len() || !is_octet_format(hint[end]) {
            None
        } else {
            let separator = delimiter_at(hint, end + 1);
            let behind = if separator is Some {
                end + 2
            } else {
                end + 1
            };
            let terminator = if repeat {
                delimiter_at(hint, behind)
            } else {
                None
            };
            let next = if terminator is Some {
                behind + 1
            } else {
                behind
            };
            Some(
                (
                    OctetFormat {
                        repeat,
                        length: if length == 0 {
                            1
                        } else {
                            length as usize
                        },
                        format: hint[end],
                        separator,
                        terminator,
                    },
                    next,
                ),
            )
        },
    }
}

/// The specifications from `index` on.
pub open spec fn octet_formats_from(hint: Seq<char>, index: int) -> Option<Seq<OctetFormat>>
    decreases hint.len() - index,
{
    if !(0 <= index < hint.len()) {
        Some(Seq::empty())
    } else {
        match octet_format_at(hint, index) {
            None => None,
            Some((format, next)) => {
                proof {
                    lemma_digits_end(hint, index);
                    lemma_digits_end(hint, index + 1);
                }
                match octet_formats_from(hint, next) {
                    None => None,
                    Some(rest) => Some(seq![format] + rest),
                }
            },
        }
    }
}

/// The specifications of an RFC 2579 octet-string display hint, of which there must be one.
pub open spec fn octet_formats(hint: Seq<char>) -> Option<Seq<OctetFormat>> {
    if hint.len() == 0 {
        None
    } else {
        octet_formats_from(hint, 0)
    }
}

fn find_delimiter(hint: &[char], index: usize) -> (r: Option<char>)
    ensures
        r == delimiter_at(hint@, index as int),
{
    if index < hint.len() && !('0' <= hint[index] && hint[index] <= '9') && hint[index] != '*' {
        Some(hint[index])
    } else {
        None
    }
}

fn parse_octet_format(hint: &[char], index: usize) -> (r: Option<(OctetFormat, usize)>)
    requires
        index < hint@.len(),
    ensures
        match r {
            Some((format, next)) => octet_format_at(hint@, index as int) == Some(
                (format, next as int),
            ) && index < next <= hint@.len(),
            None => octet_format_at(hint@, index as int) is None,
        },
{
    let repeat: bool = hint[index] == '*';
    let start: usize = if repeat {
        index + 1
    } else {
        index
    };
    let mut end: usize = start;
    while end < hint.len() && '0' <= hint[end] && hint[end] <= '9'
        invariant
            start <= end <= hint@.len(),
            digits_end(hint@, end as int) == digits_end(hint@, start as int),
        decreases hint@.len() - end,
    {
        end += 1;
    }
    let length: usize = match parse_unsigned(slice_subrange(hint, start, end), usize::MAX as u64) {
        Some(length) => length as usize,
        None => {
            return None;
        },
    };
    if end >= hint.len() {
        return None;
    }
    let format: char = hint[end];
    if !(format == 'a' || format == 'd' || format == 'o' || format == 't' || format == 'x') {
        return None;
    }
    let separator: Option<char> = find_delimiter(hint, end + 1);
    let behind: usize = if separator.is_some() {
        end + 2
    } else {
        end + 1
    };
    let terminator: Option<char> = if repeat {
        find_delimiter(hint, behind)
    } else {
        None
    };
    let next: usize = if terminator.is_some() {
        behind + 1
    } else {
        behind
    };
    let length: usize = if length == 0 {
        1
    } else {
        length
    };
    Some((OctetFormat { repeat, length, format, separator, terminator }, next))
}

/// Parses an RFC 2579 octet-string display hint.
pub fn parse_octet_hint(hint: &str) -> (r: Option<Vec<OctetFormat>>)
    ensures
        match r {
            Some(formats) => octet_formats(hint@) == Some(formats@) && formats@.len() > 0,
            None => octet_formats(hint@) is None,
        },
{
    let chars = chars_of(hint);
    if chars.len() == 0 {
        return None;
    }
    let mut formats: Vec<OctetFormat> = Vec::new();
    let mut index: usize = 0;
    while index < chars.len()
        invariant
            chars@ == hint@,
            chars@.len() > 0,
            index <= chars@.len(),
            index > 0 ==> formats@.len() > 0,
            match octet_formats_from(hint@, index as int) {
                Some(rest) => octet_formats(hint@) == Some(formats@ + rest),
                None => octet_formats(hint@) is None,
            },
        decreases chars@.len() - index,
    {
        match parse_octet_format(chars.as_slice(), index) {
            Some((format, next)) => {
                let ghost before = formats@;
                formats.push(format);
                proof {
                    if let Some(rest) = octet_formats_from(hint@, next as int) {
                        assert(before + (seq![format] + rest) =~= formats@ + rest);
                    }
                }
                index = next;
            },
            None => {
                return None;
            },
        }
    }
    assert(formats@ + Seq::<OctetFormat>::empty() =~= formats@);
    Some(formats)
}

/// How many octets a field takes, as far as there are any.
pub open spec fn field_width(format: OctetFormat) -> nat {
    if format.length == 0 {
        1
    } else {
        format.length as nat
    }
}

/// The number of a field, modulo `2` to the power of 128. Like in Net-SNMP, a field that runs past
/// the end of the value is completed with zero octets.
pub open spec fn field_number(octets: Seq<u8>, width: nat) -> nat {
    let missing = if octets.len() < width {
        (width - octets.len()) as nat
    } else {
        0
    };
    (be_value(octets) * pow256(missing)) % 0x1_0000_0000_0000_0000_0000_0000_0000_0000nat
}

/// A field: text, or a number in the base of its format.
pub open spec fn field_text(octets: Seq<u8>, format: OctetFormat) -> Seq<char> {
    if format.format == 'a' || format.format == 't' {
        utf8_lossy(octets)
    } else if format.format == 'd' {
        numeral(field_number(octets, field_width(format)), 10)
    } else if format.format == 'o' {
        numeral(field_number(octets, field_width(format)), 8)
    } else {
        numeral(field_number(octets, field_width(format)), 16)
    }
}

/// The delimiter, written only while octets remain.
pub open spec fn delimiter_text(delimiter: Option<char>, rest: Seq<u8>) -> Seq<char> {
    if delimiter is Some && rest.len() > 0 {
        seq![delimiter->0]
    } else {
        Seq::empty()
    }
}

/// At most `count` fields of the octets, and the octets behind them.
pub open spec fn fields(octets: Seq<u8>, format: OctetFormat, count: nat) -> (Seq<char>, Seq<u8>)
    decreases count,
{
    if count == 0 || octets.len() == 0 {
        (Seq::empty(), octets)
    } else {
        let width = if field_width(format) < octets.len() {
            field_width(format) as int
        } else {
            octets.len() as int
        };
        let rest = octets.skip(width);
        let (text, behind) = fields(rest, format, (count - 1) as nat);
        (
            field_text(octets.take(width), format) + delimiter_text(format.separator, rest) + text,
            behind,
        )
    }
}

pub proof fn lemma_fields_consume(octets: Seq<u8>, format: OctetFormat, count: nat)
    ensures
        fields(octets, format, count).1.len() <= octets.len(),
        count > 0 && octets.len() > 0 ==> fields(octets, format, count).1.len() < octets.len(),
    decreases count,
{
    if count > 0 && octets.len() > 0 {
        let width = if field_width(format) < octets.len() {
            field_width(format) as int
        } else {
            octets.len() as int
        };
        lemma_fields_consume(octets.skip(width), format, (count - 1) as nat);
    }
}

/// The octets by the formats from the given one on. The last format is reused until the octets are
/// exhausted, and separators and terminators are only written while octets remain. A repeated
/// format starts with an octet that counts its fields.
pub open spec fn formatted_octets(octets: Seq<u8>, formats: Seq<OctetFormat>, index: nat) -> Seq<
    char,
>
    decreases octets.len(),
{
    if octets.len() == 0 {
        Seq::empty()
    } else {
        let format = if index < formats.len() {
            formats[index as int]
        } else {
            formats.last()
        };
        let (text, rest) = if format.repeat {
            fields(octets.skip(1), format, octets[0] as nat)
        } else {
            fields(octets, format, 1)
        };
        proof {
            lemma_fields_consume(octets.skip(1), format, octets[0] as nat);
            lemma_fields_consume(octets, format, 1);
        }
        text + delimiter_text(format.terminator, rest) + formatted_octets(rest, formats, index + 1)
    }
}

/// The octets by an RFC 2579 octet-string display hint.
pub open spec fn hinted_octets(octets: Seq<u8>, hint: Seq<char>) -> Option<Seq<char>> {
    match octet_formats(hint) {
        Some(formats) => Some(formatted_octets(octets, formats, 0)),
        None => None,
    }
}

fn shifted(number: u128, octet: u8) -> (r: u128)
    ensures
        r == (number * 256 + octet) % 0x1_0000_0000_0000_0000_0000_0000_0000_0000int,
{
    (number % 0x1_0000_0000_0000_0000_0000_0000_0000_00) * 256 + octet as u128
}

proof fn lemma_zeros_modulo(value: nat, count: nat)
    requires
        count >= 16,
    ensures
        (value * pow256(count)) % 0x1_0000_0000_0000_0000_0000_0000_0000_0000nat == 0,
    decreases count,
{
    let modulus: int = 0x1_0000_0000_0000_0000_0000_0000_0000_0000int;
    if count == 16 {
        assert(pow256(16) == modulus) by {
            reveal_with_fuel(pow256, 17);
        }
        assert((value as int * modulus) % modulus == 0) by {
            vstd::arithmetic::div_mod::lemma_mod_multiples_basic(value as int, modulus);
        }
    } else {
        lemma_zeros_modulo(value, (count - 1) as nat);
        let less = value * pow256((count - 1) as nat);
        assert(value * pow256(count) == 256 * less) by (nonlinear_arith)
            requires
                pow256(count) == 256 * pow256((count - 1) as nat),
                less == value * pow256((count - 1) as nat),
        ;
        let times = less as int / modulus;
        vstd::arithmetic::div_mod::lemma_fundamental_div_mod(less as int, modulus);
        assert(256 * less == (256 * times) * modulus) by (nonlinear_arith)
            requires
                less == modulus * times,
        ;
        vstd::arithmetic::div_mod::lemma_mod_multiples_basic(256 * times, modulus);
    }
}

fn read_field_number(octets: &[u8], width: usize) -> (r: u128)
    ensures
        r == field_number(octets@, width as nat),
{
    let ghost modulus: int = 0x1_0000_0000_0000_0000_0000_0000_0000_0000int;
    let mut number: u128 = 0;
    for index in 0..octets.len()
        invariant
            modulus == 0x1_0000_0000_0000_0000_0000_0000_0000_0000int,
            number == be_value(octets@.take(index as int)) as int % modulus,
    {
        proof {
            assert(octets@.take(index + 1).drop_last() =~= octets@.take(index as int));
        }
        number = shifted(number, octets[index]);
    }
    assert(octets@.take(octets@.len() as int) =~= octets@);
    let missing: usize = if octets.len() < width {
        width - octets.len()
    } else {
        0
    };
    let value = Ghost(be_value(octets@));
    assert(value@ * pow256(0) == value@) by (nonlinear_arith)
        requires
            pow256(0) == 1,
    ;
    let mut added: usize = 0;
    while added < missing && added < 16
        invariant
            modulus == 0x1_0000_0000_0000_0000_0000_0000_0000_0000int,
            added <= missing,
            added <= 16,
            number == (value@ * pow256(added as nat)) as int % modulus,
        decreases missing - added,
    {
        proof {
            let less = value@ * pow256(added as nat);
            let more = pow256((added + 1) as nat);
            assert(value@ * more == 256 * less) by (nonlinear_arith)
                requires
                    more == 256 * pow256(added as nat),
                    less == value@ * pow256(added as nat),
            ;
        }
        number = shifted(number, 0);
        added += 1;
    }
    proof {
        if missing >= 16 {
            lemma_zeros_modulo(value@, 16);
            lemma_zeros_modulo(value@, missing as nat);
        }
    }
    number
}

fn push_field(output: &mut String, octets: &[u8], format: &OctetFormat)
    ensures
        final(output)@ == old(output)@ + field_text(octets@, *format),
{
    let width: usize = if format.length == 0 {
        1
    } else {
        format.length
    };
    if format.format == 'a' || format.format == 't' {
        output.append(lossy_text(octets).as_str());
    } else if format.format == 'd' {
        push_numeral(output, read_field_number(octets, width), 10);
    } else if format.format == 'o' {
        push_numeral(output, read_field_number(octets, width), 8);
    } else {
        push_numeral(output, read_field_number(octets, width), 16);
    }
}

fn push_fields(
    output: &mut String,
    octets: &[u8],
    start: usize,
    format: &OctetFormat,
    count: usize,
) -> (r: usize)
    requires
        start <= octets@.len(),
    ensures
        start <= r <= octets@.len(),
        final(output)@ == old(output)@ + fields(
            octets@.skip(start as int),
            *format,
            count as nat,
        ).0,
        octets@.skip(r as int) == fields(octets@.skip(start as int), *format, count as nat).1,
{
    let width: usize = if format.length == 0 {
        1
    } else {
        format.length
    };
    let ghost all = fields(octets@.skip(start as int), *format, count as nat);
    let mut position: usize = start;
    let mut left: usize = count;
    while left > 0 && position < octets.len()
        invariant
            width == field_width(*format),
            start <= position <= octets@.len(),
            output@ + fields(octets@.skip(position as int), *format, left as nat).0 == old(output)@
                + all.0,
            fields(octets@.skip(position as int), *format, left as nat).1 == all.1,
        decreases left,
    {
        let ghost before = output@;
        let ghost rest = octets@.skip(position as int);
        let end: usize = if octets.len() - position > width {
            position + width
        } else {
            octets.len()
        };
        let field = slice_subrange(octets, position, end);
        assert(field@ =~= rest.take(end - position));
        assert(octets@.skip(end as int) =~= rest.skip(end - position));
        push_field(output, field, format);
        if let Some(separator) = format.separator {
            if end < octets.len() {
                output.push(separator);
            }
        }
        assert(output@ =~= before + (field_text(field@, *format) + delimiter_text(
            format.separator,
            octets@.skip(end as int),
        )));
        assert(output@ + fields(octets@.skip(end as int), *format, (left - 1) as nat).0 =~= before
            + fields(rest, *format, left as nat).0);
        position = end;
        left -= 1;
    }
    assert(output@ =~= output@ + fields(octets@.skip(position as int), *format, left as nat).0);
    position
}

/// Applies an RFC 2579 octet-string display hint the way Net-SNMP does. The last format is reused
/// until the value is exhausted, and separators and terminators are only written while octets
/// remain.
pub fn display_hinted_octets(bytes: &[u8], hint: &str) -> (r: Option<String>)
    ensures
        opt_text(r) == hinted_octets(bytes@, hint@),
{
    let formats = match parse_octet_hint(hint) {
        Some(formats) => formats,
        None => {
            return None;
        },
    };
    let mut output = String::new();
    let mut position: usize = 0;
    let mut format_index: usize = 0;
    let ghost all = formatted_octets(bytes@, formats@, 0);
    let ghost mut index: nat = 0;
    assert(bytes@.skip(0) =~= bytes@);
    assert(output@ + all =~= all);
    while position < bytes.len()
        invariant
            position <= bytes@.len(),
            formats@.len() > 0,
            all == formatted_octets(bytes@, formats@, 0),
            format_index < formats@.len(),
            index >= format_index,
            index == format_index || format_index == formats@.len() - 1,
            output@ + formatted_octets(bytes@.skip(position as int), formats@, index) == all,
        decreases bytes@.len() - position,
    {
        let ghost before = output@;
        let ghost rest = bytes@.skip(position as int);
        let format = formats[format_index];
        assert(format == (if index < formats@.len() {
            formats@[index as int]
        } else {
            formats@.last()
        }));
        proof {
            lemma_fields_consume(rest.skip(1), format, rest[0] as nat);
            lemma_fields_consume(rest, format, 1);
        }
        let next: usize = if format.repeat {
            assert(bytes@.skip(position + 1) =~= rest.skip(1));
            push_fields(&mut output, bytes, position + 1, &format, bytes[position] as usize)
        } else {
            push_fields(&mut output, bytes, position, &format, 1)
        };
        let ghost behind = bytes@.skip(next as int);
        let ghost shown = output@;
        if let Some(terminator) = format.terminator {
            if next < bytes.len() {
                output.push(terminator);
            }
        }
        assert(output@ =~= shown + delimiter_text(format.terminator, behind));
        assert(output@ + formatted_octets(behind, formats@, index + 1) =~= before
            + formatted_octets(rest, formats@, index));
        position = next;
        proof {
            index = index + 1;
        }
        if format_index < formats.len() - 1 {
            format_index += 1;
        }
    }
    assert(output@ =~= output@ + formatted_octets(
        bytes@.skip(position as int),
        formats@,
        index,
    ));
    Some(output)
}

/// The text with the units of the syntax behind it, if there are any.
pub open spec fn with_units(text: Seq<char>, syntax: Option<SyntaxView>) -> Seq<char> {
    if syntax is Some && syntax->0.units is Some {
        text + " "@ + syntax->0.units->0
    } else {
        text
    }
}

/// The syntax, if it has the given base.
pub open spec fn syntax_of_base(syntax: Option<SyntaxView>, base: BaseSyntax) -> Option<
    SyntaxView,
> {
    if syntax is Some && syntax->0.base == base {
        syntax
    } else {
        None
    }
}

/// An address in dotted decimal.
pub open spec fn dotted_address(address: NetworkAddress) -> Seq<char> {
    match address {
        NetworkAddress::IPv4(a, b, c, d) => decimal(a as nat) + "."@ + decimal(b as nat) + "."@
            + decimal(c as nat) + "."@ + decimal(d as nat),
    }
}

/// An address in hexadecimal, with colons.
pub open spec fn hex_address(address: NetworkAddress) -> Seq<char> {
    match address {
        NetworkAddress::IPv4(a, b, c, d) => upper_hex(a) + ":"@ + upper_hex(b) + ":"@ + upper_hex(c)
            + ":"@ + upper_hex(d),
    }
}

/// An octet string: BITS, by its display hint, or as text or hexadecimal.
pub open spec fn shown_string(bytes: Seq<u8>, syntax: Option<SyntaxView>) -> Seq<char> {
    if syntax is Some && syntax->0.base == BaseSyntax::Bits {
        shown_bits(bytes, syntax->0.named_numbers)
    } else if syntax is Some && syntax->0.base == BaseSyntax::OctetString
        && syntax->0.display_hint is Some {
        match hinted_octets(bytes, syntax->0.display_hint->0) {
            Some(text) => text,
            None => shown_octets(bytes),
        }
    } else {
        shown_octets(bytes)
    }
}

/// A value as `snmptrapd` prints it. A syntax of another type than the value is ignored.
pub open spec fn shown_object(
    value: ObjectView,
    syntax: Option<SyntaxView>,
    names: Map<Seq<u32>, SymbolView>,
) -> Seq<char> {
    match value {
        ObjectView::Number(number) => with_units(
            shown_integer(number as int, syntax_of_base(syntax, BaseSyntax::Integer)),
            syntax,
        ),
        ObjectView::Gauge32(number) | ObjectView::UInteger32(number) => with_units(
            shown_integer(number as int, syntax_of_base(syntax, BaseSyntax::Unsigned)),
            syntax,
        ),
        ObjectView::Counter32(number) => with_units(decimal(number as nat), syntax),
        ObjectView::Counter64(number) => with_units(decimal(number as nat), syntax),
        ObjectView::TimeTicks(ticks) => with_units(shown_timeticks(ticks), syntax),
        ObjectView::IpAddress(address) => if syntax is Some && syntax->0.base
            == BaseSyntax::NetworkAddress {
            hex_address(address)
        } else {
            dotted_address(address)
        },
        ObjectView::Object(oid) => match resolve_text(names, oid.text) {
            Some(resolution) => resolution.name,
            None => oid.text,
        },
        ObjectView::String(bytes) => shown_string(bytes, syntax),
        ObjectView::Empty => "NULL"@,
        ObjectView::Opaque(bytes) | ObjectView::NsapAddress(bytes) => hex_dump(bytes),
        ObjectView::BitString { unused_bits: _, data } => hex_dump(data),
        ObjectView::UnknownSimple(value) | ObjectView::UnknownApplication(value) => hex_dump(
            value.bytes,
        ),
    }
}

/// What a variable is bound to, as `snmptrapd` prints it.
pub open spec fn shown_value(
    value: VarBindView,
    syntax: Option<SyntaxView>,
    names: Map<Seq<u32>, SymbolView>,
) -> Seq<char> {
    match value {
        VarBindView::Value(value) => shown_object(value, syntax, names),
        VarBindView::Unspecified => "NULL"@,
        VarBindView::NoSuchObject => "No Such Object available on this agent at this OID"@,
        VarBindView::NoSuchInstance => "No Such Instance currently exists at this OID"@,
        VarBindView::EndOfMibView => {
            "No more variables left in this MIB View (It is past the end of the MIB tree)"@
        },
    }
}

fn add_units(text: String, syntax: Option<&ValueSyntax>) -> (r: String)
    ensures
        r@ == with_units(text@, opt_syntax(syntax)),
{
    if let Some(syntax) = syntax {
        if let Some(units) = &syntax.units {
            return text.concat(" ").concat(units.as_str());
        }
    }
    text
}

fn filter_base<'a>(syntax: Option<&'a ValueSyntax>, base: BaseSyntax) -> (r: Option<
    &'a ValueSyntax,
>)
    ensures
        opt_syntax(r) == syntax_of_base(opt_syntax(syntax), base),
{
    match syntax {
        Some(syntax) => if syntax.base == base {
            Some(syntax)
        } else {
            None
        },
        None => None,
    }
}

/// Formats an address in dotted decimal.
pub fn format_network_address(value: NetworkAddress) -> (r: String)
    ensures
        r@ == dotted_address(value),
{
    match value {
        NetworkAddress::IPv4(a, b, c, d) => {
            let mut output = render_decimal(a as u64);
            output.append(".");
            push_numeral(&mut output, b as u128, 10);
            output.append(".");
            push_numeral(&mut output, c as u128, 10);
            output.append(".");
            push_numeral(&mut output, d as u128, 10);
            output
        },
    }
}

fn display_hex_address(value: NetworkAddress) -> (r: String)
    ensures
        r@ == hex_address(value),
{
    match value {
        NetworkAddress::IPv4(a, b, c, d) => {
            let mut output = String::new();
            push_upper_hex(&mut output, a);
            output.append(":");
            push_upper_hex(&mut output, b);
            output.append(":");
            push_upper_hex(&mut output, c);
            output.append(":");
            push_upper_hex(&mut output, d);
            assert(output@ =~= hex_address(value));
            output
        },
    }
}

fn display_string(bytes: &[u8], syntax: Option<&ValueSyntax>) -> (r: String)
    ensures
        r@ == shown_string(bytes@, opt_syntax(syntax)),
{
    if let Some(syntax) = syntax {
        if syntax.base == BaseSyntax::Bits {
            return display_bits(bytes, syntax.named_numbers.as_slice());
        }
        if syntax.base == BaseSyntax::OctetString {
            if let Some(hint) = &syntax.display_hint {
                if let Some(text) = display_hinted_octets(bytes, hint.as_str()) {
                    return text;
                }
            }
        }
    }
    display_octets(bytes)
}

/// Formats a value like `snmptrapd`.
pub fn display_object(
    value: &ObjectValue,
    syntax: Option<&ValueSyntax>,
    resolver: &MibResolver,
) -> (r: String)
    ensures
        r@ == shown_object(value@, opt_syntax(syntax), resolver@),
{
    match value {
        ObjectValue::Number(number) => add_units(
            display_integer(*number as i64, filter_base(syntax, BaseSyntax::Integer)),
            syntax,
        ),
        ObjectValue::Gauge32(number) | ObjectValue::UInteger32(number) => add_units(
            display_integer(*number as i64, filter_base(syntax, BaseSyntax::Unsigned)),
            syntax,
        ),
        ObjectValue::Counter32(number) => add_units(render_decimal(*number as u64), syntax),
        ObjectValue::Counter64(number) => add_units(render_decimal(*number), syntax),
        ObjectValue::TimeTicks(ticks) => add_units(display_timeticks(*ticks), syntax),
        ObjectValue::IpAddress(address) => match filter_base(syntax, BaseSyntax::NetworkAddress) {
            Some(_) => display_hex_address(*address),
            None => format_network_address(*address),
        },
        ObjectValue::Object(oid) => match resolver.resolve(oid.text.as_str()) {
            Some(resolution) => resolution.name,
            None => oid.text.clone(),
        },
        ObjectValue::String(bytes) => display_string(bytes.as_slice(), syntax),
        ObjectValue::Empty => "NULL".to_owned(),
        ObjectValue::Opaque(bytes) | ObjectValue::NsapAddress(bytes) => display_hex(
            bytes.as_slice(),
        ),
        ObjectValue::BitString { unused_bits: _, data } => display_hex(data.as_slice()),
        ObjectValue::UnknownSimple(value) | ObjectValue::UnknownApplication(value) => display_hex(
            value.bytes.as_slice(),
        ),
    }
}

/// Formats a value like the text `snmptrapd` prints after the value's type label, for example
/// `down(2)`, `0:1a:2b:3c:4d:5e`, or `(123456) 0:20:34.56`.
pub fn display_value(
    value: &BoundValue,
    syntax: Option<&ValueSyntax>,
    resolver: &MibResolver,
) -> (r: String)
    ensures
        r@ == shown_value(value@, opt_syntax(syntax), resolver@),
{
    match value {
        BoundValue::Value(value) => display_object(value, syntax, resolver),
        BoundValue::Unspecified => "NULL".to_owned(),
        BoundValue::NoSuchObject => {
            "No Such Object available on this agent at this OID".to_owned()
        },
        BoundValue::NoSuchInstance => "No Such Instance currently exists at this OID".to_owned(),
        BoundValue::EndOfMibView => {
            "No more variables left in this MIB View (It is past the end of the MIB tree)".to_owned()
        },
    }
}

} // verus!
