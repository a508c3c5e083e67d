//! The PROXY-protocol header that an upstream proxy puts before a paste.
//!
//! The header is read by the `proxy_protocol` crate. On a header that stops
//! short that crate does not always answer: it may read past the end of the
//! buffer and panic. Such buffers hold no whole header, so they are told
//! apart here and never handed to it.

use vstd::prelude::*;

verus! {

/// The six bytes `PROXY ` that open a version 1 header.
pub open spec fn v1_mark() -> Seq<u8> {
    seq![0x50u8, 0x52u8, 0x4Fu8, 0x58u8, 0x59u8, 0x20u8]
}

/// The twelve bytes that open a version 2 header.
pub open spec fn v2_mark() -> Seq<u8> {
    seq![
        0x0Du8,
        0x0Au8,
        0x0Du8,
        0x0Au8,
        0x00u8,
        0x0Du8,
        0x0Au8,
        0x51u8,
        0x55u8,
        0x49u8,
        0x54u8,
        0x0Au8,
    ]
}

/// `bytes` begins with `mark`.
pub open spec fn has_prefix(bytes: Seq<u8>, mark: Seq<u8>) -> bool {
    mark.len() <= bytes.len() && bytes.take(mark.len() as int) == mark
}

/// A version 1 header that stops at a carriage return: the buffer ends in
/// one, and none stands between the address family and that last byte, so
/// the line feed that closes the header is missing.
pub open spec fn v1_cut_short(bytes: Seq<u8>) -> bool {
    &&& bytes.len() >= 12
    &&& bytes.last() == 0x0Du8
    &&& forall|i: int| 11 <= i < bytes.len() - 1 ==> bytes[i] != 0x0Du8
}

/// A version 2 header that announces more bytes than the buffer holds
/// behind its fixed sixteen.
pub open spec fn v2_cut_short(bytes: Seq<u8>) -> bool {
    bytes.len() >= 16 && bytes.len() - 16 < bytes[14] * 256 + bytes[15]
}

/// The buffer is one on which the header parser answers.
pub open spec fn parser_answers(bytes: Seq<u8>) -> bool {
    if has_prefix(bytes, v1_mark()) {
        !v1_cut_short(bytes)
    } else if has_prefix(bytes, v2_mark()) {
        !v2_cut_short(bytes)
    } else {
        true
    }
}

/// What `proxy_protocol::parse` leaves of a buffer: the number of bytes
/// behind the header that it read off the front, or `None` where it found
/// no header.
pub uninterp spec fn parsed_remainder(bytes: Seq<u8>) -> Option<usize>;

/// The number of payload bytes behind the PROXY header at the front of
/// `bytes`, or `None` where no whole header stands there.
pub open spec fn payload_behind_header(bytes: Seq<u8>) -> Option<usize> {
    if parser_answers(bytes) {
        parsed_remainder(bytes)
    } else {
        None
    }
}

/// Reads a header off the front of `buf` by `proxy_protocol::parse` and
/// gives the length of what is left. Trusted: the answer depends on the
/// bytes alone, and what is left is no longer than the buffer, since the
/// parser only moves forward in it. Left out are the buffers on which the
/// parser may read past the end and panic: in version 1, after the
/// destination port it takes the carriage return and then one byte more
/// without looking whether there is one; in version 2, it skips the bytes
/// that the header announces beyond the addresses without looking whether
/// they are there.
#[verifier::external_body]
fn parse(buf: &[u8]) -> (rest: Option<usize>)
    requires
        parser_answers(buf@),
    ensures
        rest == parsed_remainder(buf@),
        rest matches Some(n) ==> n <= buf@.len(),
{
    let mut behind: &[u8] = buf;
    match proxy_protocol::parse(&mut behind) {
        Ok(_) => Some(behind.len()),
        Err(_) => None,
    }
}

fn begins_v1(buf: &[u8]) -> (yes: bool)
    ensures
        yes == has_prefix(buf@, v1_mark()),
{
    if buf.len() < 6 {
        return false;
    }
    let yes = buf[0] == 0x50 && buf[1] == 0x52 && buf[2] == 0x4F && buf[3] == 0x58 && buf[4] == 0x59
        && buf[5] == 0x20;
    proof {
        let head = buf@.take(6);
        if yes {
            assert(head =~= v1_mark());
        } else {
            assert(head[0] == buf@[0] && head[1] == buf@[1] && head[2] == buf@[2] && head[3]
                == buf@[3] && head[4] == buf@[4] && head[5] == buf@[5]);
        }
    }
    yes
}

fn begins_v2(buf: &[u8]) -> (yes: bool)
    ensures
        yes == has_prefix(buf@, v2_mark()),
{
    if buf.len() < 12 {
        return false;
    }
    let yes = buf[0] == 0x0D && buf[1] == 0x0A && buf[2] == 0x0D && buf[3] == 0x0A && buf[4] == 0x00
        && buf[5] == 0x0D && buf[6] == 0x0A && buf[7] == 0x51 && buf[8] == 0x55 && buf[9] == 0x49
        && buf[10] == 0x54 && buf[11] == 0x0A;
    proof {
        let head = buf@.take(12);
        if yes {
            assert(head =~= v2_mark());
        } else {
            assert(head[0] == buf@[0] && head[1] == buf@[1] && head[2] == buf@[2] && head[3]
                == buf@[3] && head[4] == buf@[4] && head[5] == buf@[5] && head[6] == buf@[6]
                && head[7] == buf@[7] && head[8] == buf@[8] && head[9] == buf@[9] && head[10]
                == buf@[10] && head[11] == buf@[11]);
        }
    }
    yes
}

fn stops_at_carriage_return(buf: &[u8]) -> (yes: bool)
    ensures
        yes == v1_cut_short(buf@),
{
    let len: usize = buf.len();
    if len < 12 || buf[len - 1] != 0x0D {
        return false;
    }
    let mut i: usize = 11;
    while i < len - 1
        invariant
            11 <= i <= len - 1,
            len == buf@.len(),
            forall|k: int| 11 <= k < i ==> buf@[k] != 0x0Du8,
        decreases len - i,
    {
        if buf[i] == 0x0D {
            return false;
        }
        i = i + 1;
    }
    true
}

fn announces_too_much(buf: &[u8]) -> (yes: bool)
    ensures
        yes == v2_cut_short(buf@),
{
    if buf.len() < 16 {
        return false;
    }
    let announced: usize = buf[14] as usize * 256 + buf[15] as usize;
    buf.len() - 16 < announced
}

/// Whether `buf` is one on which the header parser answers.
pub fn header_can_be_read(buf: &[u8]) -> (yes: bool)
    ensures
        yes == parser_answers(buf@),
{
    if begins_v1(buf) {
        !stops_at_carriage_return(buf)
    } else if begins_v2(buf) {
        !announces_too_much(buf)
    } else {
        true
    }
}

/// The number of payload bytes behind the PROXY header at the front of
/// `buf`, or `None` where no whole header stands there.
pub fn strip_header(buf: &[u8]) -> (rest: Option<usize>)
    ensures
        rest == payload_behind_header(buf@),
        rest matches Some(n) ==> n <= buf@.len(),
{
    if header_can_be_read(buf) {
        parse(buf)
    } else {
        None
    }
}

} // verus!
