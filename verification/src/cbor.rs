//! The CBOR items that make up the canonical encoding of a message.
//!
//! The bytes are produced by `serde_cbor`; this module states which bytes
//! each call appends, so that an encoding can be spelled out item by item.

use vstd::prelude::*;
use vstd::utf8::encode_utf8;

verus! {

/// The big-endian bytes of `value`, `width` of them.
pub open spec fn be_bytes(value: u64, width: nat) -> Seq<u8>
    decreases width,
{
    if width == 0 {
        Seq::empty()
    } else {
        be_bytes(value / 256, (width - 1) as nat).push((value % 256) as u8)
    }
}

/// The head of a CBOR item: the major type in the top three bits of the
/// first byte, and the argument in the shortest of the five forms.
pub open spec fn cbor_head(major: u8, value: u64) -> Seq<u8>
    recommends
        major < 8,
{
    let top = major * 32;
    if value < 24 {
        seq![(top + value) as u8]
    } else if value < 0x100 {
        seq![(top + 24) as u8] + be_bytes(value, 1)
    } else if value < 0x1_0000 {
        seq![(top + 25) as u8] + be_bytes(value, 2)
    } else if value < 0x1_0000_0000 {
        seq![(top + 26) as u8] + be_bytes(value, 4)
    } else {
        seq![(top + 27) as u8] + be_bytes(value, 8)
    }
}

/// The tag that marks a byte string as CBOR.
pub open spec fn cbor_self_describe() -> Seq<u8> {
    seq![0xd9u8, 0xd9u8, 0xf7u8]
}

/// An unsigned integer as a CBOR item.
pub open spec fn cbor_unsigned(value: u64) -> Seq<u8> {
    cbor_head(0, value)
}

/// A text as a CBOR item: its length in bytes, then its UTF-8 bytes.
pub open spec fn cbor_text(text: Seq<char>) -> Seq<u8> {
    cbor_head(3, encode_utf8(text).len() as u64) + encode_utf8(text)
}

/// The opening of a CBOR map that holds `fields` entries.
pub open spec fn cbor_map_header(fields: usize) -> Seq<u8> {
    cbor_head(5, fields as u64)
}

/// Appending two byte strings in turn appends their concatenation.
pub proof fn lemma_append_two(s: Seq<u8>, a: Seq<u8>, b: Seq<u8>)
    ensures
        (s + a) + b == s + (a + b),
{
    assert((s + a) + b =~= s + (a + b));
}

/// One entry of an encoded record: the field's name, then its value.
pub open spec fn cbor_field(name: Seq<char>, item: Seq<u8>) -> Seq<u8> {
    cbor_text(name) + item
}

/// `serde_cbor::Serializer::self_describe` on a serializer that writes to
/// `out`: it appends the three bytes of tag 55799.
#[verifier::external_body]
pub(crate) fn append_self_describe(out: &mut Vec<u8>)
    ensures
        final(out)@ == old(out)@ + cbor_self_describe(),
{
    serde_cbor::Serializer::new(out).self_describe().unwrap();
}

/// `serialize_struct` of `serde_cbor`'s serializer, writing to `out`: it
/// appends the head of a map of `fields` entries and nothing else; the name
/// is not written.
#[verifier::external_body]
pub(crate) fn append_struct_header(out: &mut Vec<u8>, name: &'static str, fields: usize)
    ensures
        final(out)@ == old(out)@ + cbor_map_header(fields),
{
    let mut serializer = serde_cbor::Serializer::new(out);
    let _ = serde::Serializer::serialize_struct(&mut serializer, name, fields).unwrap();
}

/// `serialize_str` of `serde_cbor`'s serializer, writing to `out`: it appends
/// the head of a text of as many bytes as `text` has, then those bytes.
#[verifier::external_body]
pub(crate) fn append_text(out: &mut Vec<u8>, text: &str)
    ensures
        final(out)@ == old(out)@ + cbor_text(text@),
{
    let mut serializer = serde_cbor::Serializer::new(out);
    serde::Serializer::serialize_str(&mut serializer, text).unwrap();
}

/// `serialize_u8` of `serde_cbor`'s serializer, writing to `out`: it appends
/// `value` as an unsigned integer in its shortest form.
#[verifier::external_body]
pub(crate) fn append_u8(out: &mut Vec<u8>, value: u8)
    ensures
        final(out)@ == old(out)@ + cbor_unsigned(value as u64),
{
    let mut serializer = serde_cbor::Serializer::new(out);
    serde::Serializer::serialize_u8(&mut serializer, value).unwrap();
}

/// `serialize_u64` of `serde_cbor`'s serializer, writing to `out`: it appends
/// `value` as an unsigned integer in its shortest form.
#[verifier::external_body]
pub(crate) fn append_u64(out: &mut Vec<u8>, value: u64)
    ensures
        final(out)@ == old(out)@ + cbor_unsigned(value),
{
    let mut serializer = serde_cbor::Serializer::new(out);
    serde::Serializer::serialize_u64(&mut serializer, value).unwrap();
}

/// Appends a field whose value is a text.
pub(crate) fn append_text_field(out: &mut Vec<u8>, name: &str, value: &str)
    ensures
        final(out)@ == old(out)@ + cbor_field(name@, cbor_text(value@)),
{
    append_text(out, name);
    append_text(out, value);
    proof {
        lemma_append_two(old(out)@, cbor_text(name@), cbor_text(value@));
    }
}

/// Appends a field whose value is a byte-sized number.
pub(crate) fn append_u8_field(out: &mut Vec<u8>, name: &str, value: u8)
    ensures
        final(out)@ == old(out)@ + cbor_field(name@, cbor_unsigned(value as u64)),
{
    append_text(out, name);
    append_u8(out, value);
    proof {
        lemma_append_two(old(out)@, cbor_text(name@), cbor_unsigned(value as u64));
    }
}

/// Appends a field whose value is a number.
pub(crate) fn append_u64_field(out: &mut Vec<u8>, name: &str, value: u64)
    ensures
        final(out)@ == old(out)@ + cbor_field(name@, cbor_unsigned(value)),
{
    append_text(out, name);
    append_u64(out, value);
    proof {
        lemma_append_two(old(out)@, cbor_text(name@), cbor_unsigned(value));
    }
}

} // verus!
