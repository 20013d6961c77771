//! Framing of the messages that go to a daemon and come back from it: a
//! length of four bytes, most significant first, in front of the payload.

use vstd::prelude::*;

verus! {

/// The four bytes of a number, most significant first.
pub open spec fn be32(n: int) -> Seq<u8> {
    seq![
        ((n / 0x100_0000) % 256) as u8,
        ((n / 0x1_0000) % 256) as u8,
        ((n / 0x100) % 256) as u8,
        (n % 256) as u8,
    ]
}

/// The number that four bytes stand for, most significant first.
pub open spec fn be32_value(bytes: Seq<u8>) -> int {
    bytes[0] * 0x100_0000 + bytes[1] * 0x1_0000 + bytes[2] * 0x100 + bytes[3]
}

/// The four bytes in front of a payload of `len` bytes. A length that does
/// not fit in four bytes is cut to its low 32 bits.
pub open spec fn prefix_of(len: nat) -> Seq<u8> {
    be32((len % 0x1_0000_0000) as int)
}

/// A payload behind its length.
pub open spec fn framed(payload: Seq<u8>) -> Seq<u8> {
    prefix_of(payload.len()) + payload
}

/// Four bytes stand for the number they were made from.
pub proof fn lemma_be32_round_trip(n: int)
    requires
        0 <= n < 0x1_0000_0000,
    ensures
        be32(n).len() == 4,
        be32_value(be32(n)) == n,
{
    let b = be32(n);
    assert(b[0] == ((n / 0x100_0000) % 256) as u8);
    assert(b[1] == ((n / 0x1_0000) % 256) as u8);
    assert(b[2] == ((n / 0x100) % 256) as u8);
    assert(b[3] == (n % 256) as u8);
}

/// The length in front of a message of `len` bytes.
pub fn length_prefix(len: usize) -> (prefix: [u8; 4])
    ensures
        prefix@ == prefix_of(len as nat),
{
    let low: u64 = (len as u64) % 0x1_0000_0000;
    let prefix: [u8; 4] = [
        ((low / 0x100_0000) % 256) as u8,
        ((low / 0x1_0000) % 256) as u8,
        ((low / 0x100) % 256) as u8,
        (low % 256) as u8,
    ];
    assert(prefix@ =~= prefix_of(len as nat));
    prefix
}

/// A payload behind its length.
pub fn frame(payload: &[u8]) -> (message: Vec<u8>)
    ensures
        message@ == framed(payload@),
{
    let prefix = length_prefix(payload.len());
    let mut message: Vec<u8> = Vec::new();
    message.push(prefix[0]);
    message.push(prefix[1]);
    message.push(prefix[2]);
    message.push(prefix[3]);
    assert(message@ =~= prefix_of(payload@.len()));
    let mut i: usize = 0;
    while i < payload.len()
        invariant
            i <= payload@.len(),
            message@ == prefix_of(payload@.len()) + payload@.take(i as int),
        decreases payload@.len() - i,
    {
        message.push(payload[i]);
        i += 1;
        assert(message@ =~= prefix_of(payload@.len()) + payload@.take(i as int));
    }
    assert(payload@.take(i as int) =~= payload@);
    message
}

/// The length of the payload that follows a length of four bytes.
pub fn payload_length(prefix: &[u8; 4]) -> (len: u32)
    ensures
        len == be32_value(prefix@),
{
    let b0: u32 = prefix[0] as u32;
    let b1: u32 = prefix[1] as u32;
    let b2: u32 = prefix[2] as u32;
    let b3: u32 = prefix[3] as u32;
    b0 * 0x100_0000 + b1 * 0x1_0000 + b2 * 0x100 + b3
}

} // verus!
