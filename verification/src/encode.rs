//! Writing Basic Encoding Rules elements, in the shortest form.

use crate::ber::{
    be_value, integer_content, lemma_pow256_is_pow, length_at, pow256, tag_number_end, tlv_at,
    twos_complement, TlvView,
};
use crate::error::ParseErrorView;
use vstd::layout::size_of;
use vstd::prelude::*;

verus! {

/// The shortest octets that stand for the number, most significant octet first.
pub open spec fn be_octets(value: nat) -> Seq<u8>
    decreases value,
{
    if value < 256 {
        seq![value as u8]
    } else {
        be_octets(value / 256).push((value % 256) as u8)
    }
}

/// The shortest octets that stand for the number in two's complement, most significant octet
/// first.
pub open spec fn integer_octets(value: int) -> Seq<u8>
    decreases
            if value < 0 {
                -value
            } else {
                value
            },
{
    if -128 <= value < 128 {
        seq![(value % 256) as u8]
    } else {
        integer_octets(value / 256).push((value % 256) as u8)
    }
}

/// The octets of a length field.
pub open spec fn length_octets(length: nat) -> Seq<u8> {
    if length < 128 {
        seq![length as u8]
    } else {
        seq![(128 + be_octets(length).len()) as u8] + be_octets(length)
    }
}

/// The octets of a tag number above the last one, each with the continuation bit.
pub open spec fn high_tag_octets(tag: nat) -> Seq<u8>
    decreases tag,
{
    if tag == 0 {
        Seq::empty()
    } else {
        high_tag_octets(tag / 128).push((128 + tag % 128) as u8)
    }
}

/// The identifier octets of an element.
pub open spec fn identifier_octets(class: u8, constructed: bool, tag: u32) -> Seq<u8> {
    let lead = (class % 4) * 64 + if constructed {
        32int
    } else {
        0
    };
    if tag < 31 {
        seq![(lead + tag) as u8]
    } else {
        seq![(lead + 31) as u8] + high_tag_octets(tag as nat / 128).push((tag % 128) as u8)
    }
}

/// An element with a one-octet identifier.
pub open spec fn tlv_octets(tag: u8, content: Seq<u8>) -> Seq<u8> {
    seq![tag] + length_octets(content.len()) + content
}

/// An element with the identifier that its class, form and tag number give.
pub open spec fn ber_value_octets(
    class: u8,
    constructed: bool,
    tag: u32,
    content: Seq<u8>,
) -> Seq<u8> {
    identifier_octets(class, constructed, tag) + length_octets(content.len()) + content
}

pub(crate) proof fn lemma_be_octets_count(value: nat, count: nat)
    requires
        value < pow256(count),
        count > 0,
    ensures
        0 < be_octets(value).len() <= count,
    decreases count,
{
    if value >= 256 {
        if count == 1 {
            assert(pow256(1) == 256) by {
                reveal_with_fuel(pow256, 2);
            }
        }
        assert(value / 256 < pow256((count - 1) as nat));
        lemma_be_octets_count(value / 256, (count - 1) as nat);
    }
}

/// A `usize` takes no more octets than its size.
proof fn lemma_usize_octets(value: usize)
    ensures
        0 < be_octets(value as nat).len() <= size_of::<usize>() <= 8,
{
    broadcast use vstd::layout::layout_of_primitives;

    vstd::layout::unsigned_int_max_values();
    lemma_pow256_is_pow(size_of::<usize>());
    lemma_be_octets_count(value as nat, size_of::<usize>());
}

fn push_be_octets(value: usize, output: &mut Vec<u8>)
    ensures
        final(output)@ == old(output)@ + be_octets(value as nat),
    decreases value,
{
    if value < 256 {
        output.push(value as u8);
    } else {
        push_be_octets(value / 256, output);
        output.push((value % 256) as u8);
    }
}

fn be_octets_len(value: usize) -> (r: usize)
    ensures
        r == be_octets(value as nat).len(),
    decreases value,
{
    if value < 256 {
        1
    } else {
        proof {
            lemma_usize_octets(value);
        }
        be_octets_len(value / 256) + 1
    }
}

/// Writes a length field.
pub fn encode_length(length: usize, output: &mut Vec<u8>)
    ensures
        final(output)@ == old(output)@ + length_octets(length as nat),
{
    if length < 128 {
        output.push(length as u8);
        return ;
    }
    proof {
        lemma_usize_octets(length);
    }
    output.push((128 + be_octets_len(length)) as u8);
    push_be_octets(length, output);
}

fn push_all(output: &mut Vec<u8>, octets: &[u8])
    ensures
        final(output)@ == old(output)@ + octets@,
{
    for index in 0..octets.len()
        invariant
            output@ == old(output)@ + octets@.take(index as int),
    {
        assert(octets@.take(index + 1) =~= octets@.take(index as int).push(octets@[index as int]));
        output.push(octets[index]);
    }
    assert(octets@.take(octets@.len() as int) =~= octets@);
}

/// An element with a one-octet identifier.
pub fn encode_tlv(tag: u8, content: &[u8]) -> (r: Vec<u8>)
    ensures
        r@ == tlv_octets(tag, content@),
{
    let mut value: Vec<u8> = Vec::new();
    value.push(tag);
    encode_length(content.len(), &mut value);
    push_all(&mut value, content);
    value
}

/// A SEQUENCE.
pub fn encode_sequence(content: &[u8]) -> (r: Vec<u8>)
    ensures
        r@ == tlv_octets(0x30, content@),
{
    encode_tlv(0x30, content)
}

fn push_high_tag_octets(tag: u32, output: &mut Vec<u8>)
    ensures
        final(output)@ == old(output)@ + high_tag_octets(tag as nat),
    decreases tag,
{
    if tag > 0 {
        push_high_tag_octets(tag / 128, output);
        output.push((128 + tag % 128) as u8);
    }
}

/// Writes the identifier of an element. Of the class only the two low bits count.
pub fn encode_identifier(class: u8, constructed: bool, tag: u32, output: &mut Vec<u8>)
    ensures
        final(output)@ == old(output)@ + identifier_octets(class, constructed, tag),
{
    let lead: u8 = (class % 4) * 64 + if constructed {
        32
    } else {
        0
    };
    if tag < 31 {
        output.push(lead + tag as u8);
        return ;
    }
    output.push(lead + 31);
    push_high_tag_octets(tag / 128, output);
    output.push((tag % 128) as u8);
}

/// An element with the given identifier.
pub fn encode_ber_value(class: u8, constructed: bool, tag: u32, content: &[u8]) -> (r: Vec<u8>)
    ensures
        r@ == ber_value_octets(class, constructed, tag, content@),
{
    let mut value: Vec<u8> = Vec::new();
    encode_identifier(class, constructed, tag, &mut value);
    encode_length(content.len(), &mut value);
    push_all(&mut value, content);
    value
}

fn push_unsigned(value: u64, output: &mut Vec<u8>)
    ensures
        final(output)@ == old(output)@ + integer_octets(value as int),
    decreases value,
{
    if value < 128 {
        output.push(value as u8);
    } else {
        push_unsigned(value / 256, output);
        output.push((value % 256) as u8);
    }
}

/// The content of an INTEGER that is not negative.
pub fn encode_unsigned_integer_content(value: u64) -> (r: Vec<u8>)
    ensures
        r@ == integer_octets(value as int),
{
    let mut content: Vec<u8> = Vec::new();
    push_unsigned(value, &mut content);
    content
}

/// An unsigned number under an application tag.
pub fn encode_application_integer(tag: u8, value: u64) -> (r: Vec<u8>)
    ensures
        r@ == tlv_octets(tag, integer_octets(value as int)),
{
    encode_tlv(tag, encode_unsigned_integer_content(value).as_slice())
}

/// An INTEGER that is not negative.
pub fn encode_integer_u64(value: u64) -> (r: Vec<u8>)
    ensures
        r@ == tlv_octets(0x02, integer_octets(value as int)),
{
    encode_tlv(0x02, encode_unsigned_integer_content(value).as_slice())
}

fn push_signed(value: i64, output: &mut Vec<u8>)
    ensures
        final(output)@ == old(output)@ + integer_octets(value as int),
    decreases
            if value < 0 {
                -value
            } else {
                value as int
            },
{
    let high: i64 = if value >= 0 {
        value / 256
    } else {
        -1 - (-1 - value) / 256
    };
    let low: u8 = (value - high * 256) as u8;
    if -128 <= value && value < 128 {
        output.push(low);
    } else {
        push_signed(high, output);
        output.push(low);
    }
}

/// An INTEGER.
pub fn encode_integer_i64(value: i64) -> (r: Vec<u8>)
    ensures
        r@ == tlv_octets(0x02, integer_octets(value as int)),
{
    let mut content: Vec<u8> = Vec::new();
    push_signed(value, &mut content);
    encode_tlv(0x02, content.as_slice())
}

proof fn lemma_be_value_of_octets(value: nat)
    ensures
        be_value(be_octets(value)) == value,
    decreases value,
{
    if value < 256 {
        assert(be_octets(value).drop_last() =~= Seq::empty());
        reveal_with_fuel(be_value, 2);
    } else {
        lemma_be_value_of_octets(value / 256);
        assert(be_octets(value).drop_last() =~= be_octets(value / 256));
    }
}

proof fn lemma_twos_complement_push(octets: Seq<u8>, last: u8)
    requires
        octets.len() > 0,
    ensures
        twos_complement(octets.push(last)) == twos_complement(octets) * 256 + last,
{
    assert(octets.push(last).drop_last() =~= octets);
}

/// An INTEGER content stands for the number that was written.
pub proof fn integer_octets_stand_for_value(value: int)
    ensures
        integer_octets(value).len() > 0,
        twos_complement(integer_octets(value)) == value,
    decreases
            if value < 0 {
                -value
            } else {
                value
            },
{
    if -128 <= value < 128 {
        let octet = (value % 256) as u8;
        assert(integer_octets(value) =~= seq![octet]);
        assert(seq![octet].drop_last() =~= Seq::empty());
        reveal_with_fuel(be_value, 2);
        reveal_with_fuel(pow256, 2);
    } else {
        integer_octets_stand_for_value(value / 256);
        lemma_twos_complement_push(integer_octets(value / 256), (value % 256) as u8);
    }
}

/// No other octets that stand for the number are fewer than those of its INTEGER content.
pub proof fn integer_octets_are_shortest(value: int, octets: Seq<u8>)
    requires
        octets.len() > 0,
        twos_complement(octets) == value,
    ensures
        integer_octets(value).len() <= octets.len(),
    decreases octets.len(),
{
    if !(-128 <= value < 128) {
        if octets.len() == 1 {
            assert(octets.drop_last() =~= Seq::empty());
            reveal_with_fuel(be_value, 2);
            reveal_with_fuel(pow256, 2);
        } else {
            let front = octets.drop_last();
            assert(front.push(octets.last()) =~= octets);
            lemma_twos_complement_push(front, octets.last());
            assert(twos_complement(front) == value / 256);
            integer_octets_are_shortest(value / 256, front);
        }
    }
}

pub(crate) proof fn lemma_integer_octets_count(value: int, count: nat)
    requires
        count > 0,
        -128 * pow256((count - 1) as nat) <= value < 128 * pow256((count - 1) as nat),
    ensures
        integer_octets(value).len() <= count,
    decreases count,
{
    if !(-128 <= value < 128) {
        if count == 1 {
            assert(pow256(0) == 1);
        }
        assert(pow256((count - 1) as nat) == 256 * pow256((count - 2) as nat));
        lemma_integer_octets_count(value / 256, (count - 1) as nat);
    }
}

/// What [`encode_integer_i64`] writes as content, [`crate::ber::decode_ber_integer_i64`] reads
/// back.
pub proof fn decoding_undoes_encoding(value: i64)
    ensures
        integer_content(integer_octets(value as int)) == Ok::<_, ParseErrorView>(value),
{
    integer_octets_stand_for_value(value as int);
    assert(pow256(7) == 0x100_0000_0000_0000) by {
        reveal_with_fuel(pow256, 8);
    }
    lemma_integer_octets_count(value as int, 8);
}

/// A length field reads back as the length.
pub proof fn length_reads_back(prefix: Seq<u8>, length: usize, rest: Seq<u8>)
    requires
        (prefix + length_octets(length as nat) + rest).len() <= usize::MAX,
    ensures
        length_at(prefix + length_octets(length as nat) + rest, prefix.len() as int) == Ok::<
            _,
            ParseErrorView,
        >((length as nat, (prefix.len() + length_octets(length as nat).len()) as int)),
{
    let octets = length_octets(length as nat);
    let data = prefix + octets + rest;
    let offset = prefix.len() as int;
    assert(data[offset] == octets[0]);
    if length >= 128 {
        lemma_usize_octets(length);
        lemma_be_value_of_octets(length as nat);
        let count = be_octets(length as nat).len();
        assert(data.subrange(offset + 1, offset + 1 + count) =~= be_octets(length as nat));
    }
}

proof fn lemma_high_tag_octets_continue(tag: nat)
    ensures
        forall|index: int|
            0 <= index < high_tag_octets(tag).len() ==> #[trigger] high_tag_octets(tag)[index]
                >= 0x80,
    decreases tag,
{
    if tag > 0 {
        lemma_high_tag_octets_continue(tag / 128);
        let front = high_tag_octets(tag / 128);
        let all = high_tag_octets(tag);
        assert forall|index: int| 0 <= index < all.len() implies #[trigger] all[index] >= 0x80 by {
            if index < front.len() {
                assert(all[index] == front[index]);
            }
        }
    }
}

proof fn lemma_tag_number_end(data: Seq<u8>, start: int, end: int)
    requires
        0 <= start <= end < data.len(),
        forall|index: int| start <= index < end ==> #[trigger] data[index] >= 0x80,
        data[end] < 0x80,
    ensures
        tag_number_end(data, start) == Some(end + 1),
    decreases end - start,
{
    if start < end {
        lemma_tag_number_end(data, start + 1, end);
    }
}

/// An element reads back, wherever it stands: the identifier's first octet, and the content in its
/// place behind identifier and length.
pub proof fn ber_value_reads_back(
    prefix: Seq<u8>,
    class: u8,
    constructed: bool,
    tag: u32,
    content: Seq<u8>,
    rest: Seq<u8>,
)
    requires
        (prefix + ber_value_octets(class, constructed, tag, content) + rest).len() <= usize::MAX,
    ensures
        ({
            let data = prefix + ber_value_octets(class, constructed, tag, content) + rest;
            let start = (prefix.len() + identifier_octets(class, constructed, tag).len()
                + length_octets(content.len()).len()) as int;
            &&& tlv_at(data, prefix.len() as int) == Ok::<_, ParseErrorView>(
                TlvView {
                    tag: identifier_octets(class, constructed, tag)[0],
                    content_start: start,
                    content_end: start + content.len(),
                },
            )
            &&& data.subrange(start, start + content.len()) == content
        }),
{
    reveal(tlv_at);
    let identifier = identifier_octets(class, constructed, tag);
    let length = length_octets(content.len());
    let data = prefix + ber_value_octets(class, constructed, tag, content) + rest;
    let offset = prefix.len() as int;
    assert(data =~= (prefix + identifier) + length + (content + rest));
    length_reads_back(prefix + identifier, content.len() as usize, content + rest);
    assert(data[offset] == identifier[0]);
    if tag >= 31 {
        lemma_high_tag_octets_continue(tag as nat / 128);
        let high = high_tag_octets(tag as nat / 128);
        let end = offset + identifier.len() - 1;
        assert forall|index: int| offset + 1 <= index < end implies #[trigger] data[index]
            >= 0x80 by {
            assert(data[index] == high[index - offset - 1]);
        }
        assert(data[end] == identifier.last());
        lemma_tag_number_end(data, offset + 1, end);
    }
    let start = offset + identifier.len() + length.len();
    assert(data.subrange(start, start + content.len()) =~= content);
}

/// An element with a one-octet identifier reads back, wherever it stands.
pub proof fn tlv_reads_back(prefix: Seq<u8>, tag: u8, content: Seq<u8>, rest: Seq<u8>)
    requires
        tag % 32 != 31,
        (prefix + tlv_octets(tag, content) + rest).len() <= usize::MAX,
    ensures
        ({
            let data = prefix + tlv_octets(tag, content) + rest;
            let start = (prefix.len() + 1 + length_octets(content.len()).len()) as int;
            &&& tlv_at(data, prefix.len() as int) == Ok::<_, ParseErrorView>(
                TlvView { tag, content_start: start, content_end: start + content.len() },
            )
            &&& data.subrange(start, start + content.len()) == content
        }),
{
    reveal(tlv_at);
    let length = length_octets(content.len());
    let data = prefix + tlv_octets(tag, content) + rest;
    assert(data =~= (prefix + seq![tag]) + length + (content + rest));
    length_reads_back(prefix + seq![tag], content.len() as usize, content + rest);
    assert(data[prefix.len() as int] == tag);
    let start = (prefix.len() + 1 + length.len()) as int;
    assert(data.subrange(start, start + content.len()) =~= content);
}

} // verus!
