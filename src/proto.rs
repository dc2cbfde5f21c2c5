//! Reading the dispatch confirmation: an encoded transfer response whose field 1 is the
//! sequence number given to the packet. The wire primitives are prost's.

use vstd::prelude::*;

verus! {

/// What prost's key decoder reads from the front of `b`: the tag, the wire type, and what follows.
pub uninterp spec fn key_read(b: Seq<u8>) -> Option<(u32, u8, Seq<u8>)>;

/// What prost's varint decoder reads from the front of `b`: the value, and what follows.
pub uninterp spec fn varint_read(b: Seq<u8>) -> Option<(u64, Seq<u8>)>;

/// What is left of `b` once prost has skipped a field of the given wire type and tag.
pub uninterp spec fn skip_read(wire: u8, tag: u32, b: Seq<u8>) -> Option<Seq<u8>>;

/// Relies on prost::encoding::decode_key: reads a field key; on success it has consumed at
/// least one byte.
#[verifier::external_body]
fn read_key<'a>(b: &'a [u8]) -> (r: Option<(u32, u8, &'a [u8])>)
    ensures
        match r {
            Some(k) => key_read(b@) == Some((k.0, k.1, k.2@)) && k.2@.len() < b@.len(),
            None => key_read(b@) is None,
        },
{
    let mut rest = b;
    match prost::encoding::decode_key(&mut rest) {
        Ok((tag, wire)) => Some((tag, wire as u8, rest)),
        Err(_) => None,
    }
}

/// Relies on prost::encoding::decode_varint: reads one varint; on success it has consumed
/// at least one byte.
#[verifier::external_body]
fn read_varint<'a>(b: &'a [u8]) -> (r: Option<(u64, &'a [u8])>)
    ensures
        match r {
            Some(v) => varint_read(b@) == Some((v.0, v.1@)) && v.1@.len() < b@.len(),
            None => varint_read(b@) is None,
        },
{
    let mut rest = b;
    match prost::encoding::decode_varint(&mut rest) {
        Ok(v) => Some((v, rest)),
        Err(_) => None,
    }
}

/// Relies on prost::encoding::skip_field, with a fresh decode context: skips the value of
/// a field whose key has been read; it never consumes more than it is given.
#[verifier::external_body]
fn skip_value<'a>(wire: u8, tag: u32, b: &'a [u8]) -> (r: Option<&'a [u8]>)
    ensures
        match r {
            Some(rest) => skip_read(wire, tag, b@) == Some(rest@) && rest@.len() <= b@.len(),
            None => skip_read(wire, tag, b@) is None,
        },
{
    let mut rest = b;
    let wire_type = match prost::encoding::WireType::try_from(wire as u64) {
        Ok(w) => w,
        Err(_) => return None,
    };
    match prost::encoding::skip_field(wire_type, tag, &mut rest, prost::encoding::DecodeContext::default()) {
        Ok(()) => Some(rest),
        Err(_) => None,
    }
}

/// The sequence number in what is left of a message, `acc` being the one read so far.
/// Field 1 must be a varint and a later occurrence overrides an earlier one; other
/// fields are skipped.
pub open spec fn sequence_from(b: Seq<u8>, acc: u64) -> Option<u64>
    decreases b.len(),
{
    if b.len() == 0 {
        Some(acc)
    } else {
        match key_read(b) {
            None => None,
            Some(k) => if k.2.len() >= b.len() {
                None
            } else if k.0 == 1 {
                if k.1 != 0 {
                    None
                } else {
                    match varint_read(k.2) {
                        None => None,
                        Some(v) => if v.1.len() >= k.2.len() {
                            None
                        } else {
                            sequence_from(v.1, v.0)
                        },
                    }
                }
            } else {
                match skip_read(k.1, k.0, k.2) {
                    None => None,
                    Some(rest) => if rest.len() > k.2.len() {
                        None
                    } else {
                        sequence_from(rest, acc)
                    },
                }
            },
        }
    }
}

/// The sequence number of an encoded transfer response; zero where field 1 is absent.
pub open spec fn transfer_response_sequence(b: Seq<u8>) -> Option<u64> {
    sequence_from(b, 0)
}

/// Decodes a transfer response into the sequence number it carries.
pub fn decode_transfer_response(b: &[u8]) -> (r: Option<u64>)
    ensures
        r == transfer_response_sequence(b@),
{
    let mut rest: &[u8] = b;
    let mut acc: u64 = 0;
    while rest.len() > 0
        invariant
            sequence_from(rest@, acc) == sequence_from(b@, 0),
        decreases rest@.len(),
    {
        match read_key(rest) {
            None => {
                return None;
            },
            Some((tag, wire, after_key)) => {
                if tag == 1 {
                    if wire != 0 {
                        return None;
                    }
                    match read_varint(after_key) {
                        None => {
                            return None;
                        },
                        Some((v, after)) => {
                            acc = v;
                            rest = after;
                        },
                    }
                } else {
                    match skip_value(wire, tag, after_key) {
                        None => {
                            return None;
                        },
                        Some(after) => {
                            rest = after;
                        },
                    }
                }
            },
        }
    }
    Some(acc)
}

} // verus!
