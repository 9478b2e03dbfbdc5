//! Reading the Basic Encoding Rules as far as SNMP messages use them: tag-length-value elements and
//! INTEGER contents.

use crate::error::{malformed, ParseError, ParseErrorView};
use vstd::arithmetic::power::pow;
use vstd::layout::size_of;
use vstd::prelude::*;
use vstd::slice::slice_subrange;

verus! {

/// The number that the octets stand for, most significant octet first.
pub open spec fn be_value(octets: Seq<u8>) -> nat
    decreases octets.len(),
{
    if octets.len() == 0 {
        0
    } else {
        be_value(octets.drop_last()) * 256 + octets.last() as nat
    }
}

/// `256` to the given power.
pub open spec fn pow256(count: nat) -> nat
    decreases count,
{
    if count == 0 {
        1
    } else {
        256 * pow256((count - 1) as nat)
    }
}

/// The number that the octets stand for in two's complement, most significant octet first.
pub open spec fn twos_complement(octets: Seq<u8>) -> int {
    if octets.len() > 0 && octets[0] >= 0x80 {
        be_value(octets) - pow256(octets.len())
    } else {
        be_value(octets) as int
    }
}

pub proof fn lemma_be_value_bound(octets: Seq<u8>)
    ensures
        be_value(octets) < pow256(octets.len()),
    decreases octets.len(),
{
    if octets.len() > 0 {
        lemma_be_value_bound(octets.drop_last());
    }
}

pub proof fn lemma_pow256_monotone(less: nat, more: nat)
    requires
        less <= more,
    ensures
        0 < pow256(less) <= pow256(more),
    decreases more,
{
    if less < more {
        lemma_pow256_monotone(less, (more - 1) as nat);
    } else if more > 0 {
        lemma_pow256_monotone((less - 1) as nat, (more - 1) as nat);
    }
}

proof fn lemma_pow256_8()
    ensures
        pow256(8) == 0x1_0000_0000_0000_0000,
        pow256(7) == 0x100_0000_0000_0000,
{
    reveal_with_fuel(pow256, 9);
}

pub proof fn lemma_pow256_is_pow(count: nat)
    ensures
        pow256(count) == pow(256, count),
    decreases count,
{
    reveal(pow);
    if count > 0 {
        lemma_pow256_is_pow((count - 1) as nat);
    }
}

/// A number of no more octets than a `usize` has fits a `usize`.
proof fn lemma_be_value_fits_usize(octets: Seq<u8>)
    requires
        octets.len() <= size_of::<usize>(),
    ensures
        be_value(octets) <= usize::MAX,
{
    lemma_be_value_bound(octets);
    lemma_pow256_monotone(octets.len(), size_of::<usize>());
    lemma_pow256_is_pow(size_of::<usize>());
    vstd::layout::unsigned_int_max_values();
}

/// The length field at `offset`: the length itself and where the content starts.
pub open spec fn length_at(data: Seq<u8>, offset: int) -> Result<(nat, int), ParseErrorView> {
    if !(0 <= offset < data.len()) {
        Err(ParseErrorView::MalformedMessage("truncated BER length"@))
    } else if data[offset] < 0x80 {
        Ok((data[offset] as nat, offset + 1))
    } else {
        let count = data[offset] - 0x80;
        if count == 0 || count > size_of::<usize>() {
            Err(ParseErrorView::MalformedMessage("unsupported BER length encoding"@))
        } else if offset + 1 + count > usize::MAX {
            Err(ParseErrorView::MalformedMessage("BER length overflowed"@))
        } else if offset + 1 + count > data.len() {
            Err(ParseErrorView::MalformedMessage("truncated BER length"@))
        } else {
            Ok((be_value(data.subrange(offset + 1, offset + 1 + count)), offset + 1 + count))
        }
    }
}

/// Reads the length field at `offset`.
pub fn read_ber_length(data: &[u8], offset: usize) -> (r: Result<(usize, usize), ParseError>)
    ensures
        match r {
            Ok((length, next)) => length_at(data@, offset as int) == Ok::<_, ParseErrorView>(
                (length as nat, next as int),
            ),
            Err(error) => length_at(data@, offset as int) == Err::<(nat, int), _>(error@),
        },
{
    if offset >= data.len() {
        return Err(malformed("truncated BER length"));
    }
    let first: u8 = data[offset];
    if first < 0x80 {
        return Ok((first as usize, offset + 1));
    }
    let byte_count: usize = (first - 0x80) as usize;
    if byte_count == 0 || byte_count > core::mem::size_of::<usize>() {
        return Err(malformed("unsupported BER length encoding"));
    }
    let length_start: usize = offset + 1;
    let length_end: usize = match length_start.checked_add(byte_count) {
        Some(length_end) => length_end,
        None => {
            return Err(malformed("BER length overflowed"));
        },
    };
    if length_end > data.len() {
        return Err(malformed("truncated BER length"));
    }
    let octets = slice_subrange(data, length_start, length_end);
    let mut length: usize = 0;
    for index in 0..octets.len()
        invariant
            octets@.len() <= size_of::<usize>(),
            length == be_value(octets@.take(index as int)),
    {
        proof {
            let read = octets@.take(index + 1);
            assert(read.drop_last() =~= octets@.take(index as int));
            lemma_be_value_fits_usize(read);
        }
        length = length * 256 + octets[index] as usize;
    }
    assert(octets@.take(octets@.len() as int) =~= octets@);
    Ok((length, length_end))
}

/// Where a high tag number that continues at `cursor` ends: behind the first octet without the
/// continuation bit.
pub open spec fn tag_number_end(data: Seq<u8>, cursor: int) -> Option<int>
    decreases data.len() - cursor,
{
    if !(0 <= cursor < data.len()) {
        None
    } else if data[cursor] < 0x80 {
        Some(cursor + 1)
    } else {
        tag_number_end(data, cursor + 1)
    }
}

/// One element: its first identifier octet and where its content lies.
pub ghost struct TlvView {
    pub tag: u8,
    pub content_start: int,
    pub content_end: int,
}

/// The element at `offset`.
#[verifier::opaque]
pub open spec fn tlv_at(data: Seq<u8>, offset: int) -> Result<TlvView, ParseErrorView> {
    if !(0 <= offset < data.len()) {
        Err(ParseErrorView::MalformedMessage("truncated BER identifier"@))
    } else {
        let length_offset = if data[offset] % 32 == 31 {
            tag_number_end(data, offset + 1)
        } else {
            Some(offset + 1)
        };
        match length_offset {
            None => Err(
                ParseErrorView::MalformedMessage("truncated high-tag-number BER identifier"@),
            ),
            Some(length_offset) => match length_at(data, length_offset) {
                Err(error) => Err(error),
                Ok((length, content_start)) => if content_start + length > usize::MAX {
                    Err(ParseErrorView::MalformedMessage("BER length overflowed message size"@))
                } else if content_start + length > data.len() {
                    Err(ParseErrorView::MalformedMessage("BER value exceeds message length"@))
                } else {
                    Ok(
                        TlvView {
                            tag: data[offset],
                            content_start,
                            content_end: content_start + length,
                        },
                    )
                },
            },
        }
    }
}

/// One element of a message.
#[derive(Clone, Copy, Debug)]
pub struct BerTlv<'a> {
    pub tag: u8,
    pub content: &'a [u8],
    pub content_start: usize,
    pub content_end: usize,
    pub tlv_end: usize,
}

impl<'a> View for BerTlv<'a> {
    type V = TlvView;

    open spec fn view(&self) -> TlvView {
        TlvView {
            tag: self.tag,
            content_start: self.content_start as int,
            content_end: self.content_end as int,
        }
    }
}

impl<'a> BerTlv<'a> {
    /// The element lies within `data`.
    pub open spec fn within(&self, data: Seq<u8>) -> bool {
        &&& self.content_start <= self.content_end <= data.len()
        &&& self.content@ == data.subrange(self.content_start as int, self.content_end as int)
        &&& self.tlv_end == self.content_end
    }
}

/// Reads the element at `offset`.
pub fn read_tlv_at(data: &[u8], offset: usize) -> (r: Result<BerTlv<'_>, ParseError>)
    ensures
        match r {
            Ok(tlv) => tlv.within(data@) && tlv_at(data@, offset as int) == Ok::<_, ParseErrorView>(
                tlv@,
            ),
            Err(error) => tlv_at(data@, offset as int) == Err::<TlvView, _>(error@),
        },
{
    reveal(tlv_at);
    if offset >= data.len() {
        return Err(malformed("truncated BER identifier"));
    }
    let tag: u8 = data[offset];
    let mut cursor: usize = offset + 1;
    if tag % 32 == 31 {
        let mut done: bool = false;
        while !done
            invariant
                0 < cursor <= data@.len(),
                !done ==> tag_number_end(data@, offset + 1) == tag_number_end(
                    data@,
                    cursor as int,
                ),
                done ==> tag_number_end(data@, offset + 1) == Some(cursor as int),
                offset < data@.len(),
                tag == data@[offset as int],
                tag % 32 == 31,
            decreases data@.len() - cursor,
        {
            if cursor >= data.len() {
                reveal(tlv_at);
                return Err(malformed("truncated high-tag-number BER identifier"));
            }
            let identifier_byte: u8 = data[cursor];
            cursor = cursor + 1;
            done = identifier_byte < 0x80;
        }
    }
    let (length, content_start) = match read_ber_length(data, cursor) {
        Ok(length) => length,
        Err(error) => {
            return Err(error);
        },
    };
    let content_end: usize = match content_start.checked_add(length) {
        Some(content_end) => content_end,
        None => {
            return Err(malformed("BER length overflowed message size"));
        },
    };
    if content_end > data.len() {
        return Err(malformed("BER value exceeds message length"));
    }
    Ok(
        BerTlv {
            tag,
            content: slice_subrange(data, content_start, content_end),
            content_start,
            content_end,
            tlv_end: content_end,
        },
    )
}

/// The value of an INTEGER content, if an `i64` can hold every content of its length.
pub open spec fn integer_content(content: Seq<u8>) -> Result<i64, ParseErrorView> {
    if content.len() == 0 || content.len() > 8 {
        Err(ParseErrorView::MalformedMessage("BER INTEGER cannot be decoded as i64"@))
    } else {
        Ok(twos_complement(content) as i64)
    }
}

/// How the first octet bounds the number.
pub proof fn lemma_be_value_first(octets: Seq<u8>)
    requires
        octets.len() > 0,
    ensures
        octets[0] * pow256((octets.len() - 1) as nat) <= be_value(octets),
        be_value(octets) < (octets[0] + 1) * pow256((octets.len() - 1) as nat),
    decreases octets.len(),
{
    let power = pow256((octets.len() - 1) as nat) as int;
    let first = octets[0] as int;
    if octets.len() == 1 {
        assert(be_value(octets.drop_last()) == 0);
        assert(first * power == first && (first + 1) * power == first + 1) by (nonlinear_arith)
            requires
                power == 1,
        ;
    } else {
        let front = octets.drop_last();
        lemma_be_value_first(front);
        let less = pow256((front.len() - 1) as nat) as int;
        assert(first == front[0]);
        assert(first * power == 256 * (first * less) && (first + 1) * power == 256 * ((first + 1)
            * less)) by (nonlinear_arith)
            requires
                power == 256 * less,
        ;
    }
}

/// An INTEGER content of up to eight octets fits an `i64`.
pub proof fn lemma_twos_complement_fits(content: Seq<u8>)
    requires
        0 < content.len() <= 8,
    ensures
        i64::MIN <= twos_complement(content) <= i64::MAX,
{
    lemma_be_value_first(content);
    lemma_be_value_bound(content);
    let power = pow256((content.len() - 1) as nat);
    let first = content[0] as int;
    lemma_pow256_8();
    lemma_pow256_monotone((content.len() - 1) as nat, 7);
    if first >= 0x80 {
        assert(0x80 * power <= first * power) by (nonlinear_arith)
            requires
                0x80 <= first,
                0 <= power,
        ;
    } else {
        assert((first + 1) * power <= 0x80 * power) by (nonlinear_arith)
            requires
                first + 1 <= 0x80,
                0 <= power,
        ;
    }
}

/// Decodes an INTEGER content.
pub fn decode_ber_integer_i64(content: &[u8]) -> (r: Result<i64, ParseError>)
    ensures
        match r {
            Ok(value) => integer_content(content@) == Ok::<_, ParseErrorView>(value) && value
                == twos_complement(content@),
            Err(error) => integer_content(content@) == Err::<i64, _>(error@),
        },
{
    if content.len() == 0 || content.len() > 8 {
        return Err(malformed("BER INTEGER cannot be decoded as i64"));
    }
    let mut value: i128 = 0;
    let mut modulus: i128 = 1;
    for index in 0..content.len()
        invariant
            content@.len() <= 8,
            value == be_value(content@.take(index as int)),
            modulus == pow256(index as nat),
    {
        proof {
            lemma_be_value_bound(content@.take(index as int));
            assert(content@.take(index + 1).drop_last() =~= content@.take(index as int));
            lemma_pow256_8();
            lemma_pow256_monotone(index as nat, 7);
        }
        value = value * 256 + content[index] as i128;
        modulus = modulus * 256;
    }
    proof {
        assert(content@.take(content@.len() as int) =~= content@);
        lemma_twos_complement_fits(content@);
        lemma_be_value_bound(content@);
        lemma_pow256_8();
        lemma_pow256_monotone(content@.len(), 8);
    }
    if content[0] >= 0x80 {
        Ok((value - modulus) as i64)
    } else {
        Ok(value as i64)
    }
}

} // verus!
