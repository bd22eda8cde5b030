//! Framing of messages exchanged on Exocore's libp2p substreams: each message
//! is preceded by a 4 bytes little endian header holding its length, whose
//! high bit tells that a stream of bytes follows the message.
use vstd::prelude::*;
use byteorder::{ByteOrder, LittleEndian};

verus! {

/// Maximum size of a message read from a substream.
pub const MAX_MESSAGE_SIZE: usize = 20971520;

/// Size of the buffer of the channel that receives a stream following a message.
pub const STREAM_BUFFER_SIZE: usize = 1024;

/// High bit of the header, telling that a stream follows the message.
pub const STREAM_MASK: usize = 0x8000_0000;

/// Value of the 4 first bytes of `bytes` read as a little endian integer.
pub open spec fn le_u32_value(bytes: Seq<u8>) -> int {
    bytes[0] as int + 256 * (bytes[1] as int) + 65536 * (bytes[2] as int) + 16777216 * (bytes[3] as int)
}

/// Header value written for a message of `len` bytes, with the stream bit set
/// when a stream follows it.
pub open spec fn encoded_msg_len(len: usize, has_stream: bool) -> u32 {
    (if has_stream { len | (0x8000_0000usize) } else { len }) as u32
}

/// Length and stream flag read from a header value.
pub open spec fn decoded_msg_len(value: u32) -> (usize, bool) {
    ((value & 0x7fff_ffffu32) as usize, value & 0x8000_0000u32 == 0x8000_0000u32)
}

/// Writes `n` in little endian order into the first 4 bytes of `buf`
/// (`byteorder::LittleEndian::write_u32`, which panics on a shorter buffer).
#[verifier::external_body]
fn write_u32_le(buf: &mut [u8], n: u32)
    requires
        old(buf)@.len() >= 4,
    ensures
        final(buf)@.len() == old(buf)@.len(),
        le_u32_value(final(buf)@) == n as int,
        forall|k: int| 4 <= k < old(buf)@.len() ==> #[trigger] final(buf)@[k] == old(buf)@[k],
{
    LittleEndian::write_u32(buf, n);
}

/// Reads the first 4 bytes of `buf` as a little endian integer
/// (`byteorder::LittleEndian::read_u32`, which panics on a shorter buffer).
#[verifier::external_body]
fn read_u32_le(buf: &[u8]) -> (n: u32)
    requires
        buf@.len() >= 4,
    ensures
        n as int == le_u32_value(buf@),
{
    LittleEndian::read_u32(buf)
}

/// Encodes message size and uses high bit to indicate that there is a stream
/// after message.
pub fn encode_msg_len(len: usize, has_stream: bool, into: &mut [u8])
    requires
        old(into)@.len() >= 4,
    ensures
        final(into)@.len() == old(into)@.len(),
        le_u32_value(final(into)@) == encoded_msg_len(len, has_stream) as int,
        forall|k: int| 4 <= k < old(into)@.len() ==> #[trigger] final(into)@[k] == old(into)@[k],
{
    let mut len = len;
    if has_stream {
        len = len | STREAM_MASK;
    }
    #[verifier::truncate]
    let value = len as u32;
    write_u32_le(into, value);
}

/// Decodes message size.
pub fn decode_msg_len(bytes: &[u8]) -> (res: (usize, bool))
    requires
        bytes@.len() >= 4,
    ensures
        le_u32_value(bytes@) <= u32::MAX,
        res == decoded_msg_len(le_u32_value(bytes@) as u32),
{
    let value = read_u32_le(bytes);
    let has_stream = value & 0x8000_0000u32 == 0x8000_0000u32;
    let len = (value & 0x7fff_ffffu32) as usize;
    (len, has_stream)
}

/// Error reading a message header from a substream.
#[derive(Debug, Clone, Copy, PartialEq, Eq, Structural)]
pub enum MessageHeaderError {
    /// The announced message is larger than `MAX_MESSAGE_SIZE`.
    TooLarge,
}

/// Decodes a message header and checks that the announced message isn't larger
/// than `MAX_MESSAGE_SIZE`, in which case the substream gets dropped.
pub fn parse_message_header(bytes: &[u8]) -> (res: Result<(usize, bool), MessageHeaderError>)
    requires
        bytes@.len() >= 4,
    ensures
        le_u32_value(bytes@) <= u32::MAX,
        match res {
            Ok(header) => header == decoded_msg_len(le_u32_value(bytes@) as u32)
                && header.0 <= MAX_MESSAGE_SIZE,
            Err(MessageHeaderError::TooLarge) => decoded_msg_len(le_u32_value(bytes@) as u32).0 > MAX_MESSAGE_SIZE,
        },
{
    let (len, has_stream) = decode_msg_len(bytes);
    if len > MAX_MESSAGE_SIZE {
        Err(MessageHeaderError::TooLarge)
    } else {
        Ok((len, has_stream))
    }
}

/// A header written for a message shorter than 2^31 bytes decodes to the same
/// length and stream flag.
pub proof fn lemma_msg_len_roundtrip(len: usize, has_stream: bool)
    requires
        len < 0x8000_0000usize,
    ensures
        decoded_msg_len(encoded_msg_len(len, has_stream)) == (len, has_stream),
{
    let v = encoded_msg_len(len, has_stream);
    if has_stream {
        assert(((len | 0x8000_0000usize) as u32) & 0x7fff_ffffu32 == len as u32
            && ((len | 0x8000_0000usize) as u32) & 0x8000_0000u32 == 0x8000_0000u32) by (bit_vector)
            requires len < 0x8000_0000usize;
    } else {
        assert((len as u32) & 0x7fff_ffffu32 == len as u32
            && (len as u32) & 0x8000_0000u32 != 0x8000_0000u32) by (bit_vector)
            requires len < 0x8000_0000usize;
    }
}

} // verus!
