//! Binary framed messages: one type byte, a four-byte little-endian payload
//! length, then the payload itself.
use vstd::prelude::*;

verus! {

/// A framed binary message.
#[derive(Debug, Clone)]
pub struct BinaryMessage {
    pub message_type: u8,
    pub data: Vec<u8>,
}

/// Why a frame could not be produced or read.
#[derive(Debug, Clone, Copy, PartialEq, Eq, Structural)]
pub enum BinaryError {
    /// The payload is longer than the length field can express.
    PayloadTooLarge,
    /// The buffer ends before the header or the announced payload is complete.
    Truncated,
}

/// Number of bytes in front of the payload.
pub const HEADER_LEN: usize = 5;

/// The four little-endian bytes of `n`.
pub open spec fn le_bytes(n: u32) -> Seq<u8> {
    seq![
        (n % 256) as u8,
        ((n / 256) % 256) as u8,
        ((n / 65536) % 256) as u8,
        ((n / 16777216) % 256) as u8,
    ]
}

/// The number that four little-endian bytes stand for.
pub open spec fn le_value(b0: u8, b1: u8, b2: u8, b3: u8) -> nat {
    b0 as nat + 256 * (b1 as nat) + 65536 * (b2 as nat) + 16777216 * (b3 as nat)
}

/// The bytes of a frame carrying `payload` under type `t`.
pub open spec fn frame(t: u8, payload: Seq<u8>) -> Seq<u8> {
    seq![t] + le_bytes(payload.len() as u32) + payload
}

/// Length announced by the header of `b` (which holds at least a header).
pub open spec fn announced_len(b: Seq<u8>) -> nat {
    le_value(b[1], b[2], b[3], b[4])
}

/// What a buffer decodes to: its type byte and announced payload, or nothing
/// when the buffer is too short. Bytes after the payload are not read.
pub open spec fn decode_frame(b: Seq<u8>) -> Option<(u8, Seq<u8>)> {
    if b.len() < 5 || b.len() < 5 + announced_len(b) {
        None
    } else {
        Some((b[0], b.subrange(5, 5 + announced_len(b) as int)))
    }
}

proof fn lemma_le_round_trip(n: u32)
    ensures
        le_value(le_bytes(n)[0], le_bytes(n)[1], le_bytes(n)[2], le_bytes(n)[3]) == n as nat,
{
    let b0 = n % 256;
    let b1 = (n / 256) % 256;
    let b2 = (n / 65536) % 256;
    let b3 = (n / 16777216) % 256;
    assert(b0 + 256 * b1 + 65536 * b2 + 16777216 * b3 == n) by (bit_vector)
        requires
            b0 == n % 256,
            b1 == (n / 256) % 256,
            b2 == (n / 65536) % 256,
            b3 == (n / 16777216) % 256,
    ;
}

/// Encoding a payload whose length fits the length field and decoding the
/// result gives back the same type byte and the same payload.
pub proof fn lemma_frame_round_trip(t: u8, payload: Seq<u8>)
    requires
        payload.len() <= u32::MAX,
    ensures
        decode_frame(frame(t, payload)) == Some((t, payload)),
{
    let n = payload.len() as u32;
    let f = frame(t, payload);
    lemma_le_round_trip(n);
    assert(f[1] == le_bytes(n)[0]);
    assert(f[2] == le_bytes(n)[1]);
    assert(f[3] == le_bytes(n)[2]);
    assert(f[4] == le_bytes(n)[3]);
    assert(announced_len(f) == payload.len());
    assert(f.subrange(5, 5 + payload.len() as int) =~= payload);
}

impl BinaryMessage {
    pub fn new(message_type: u8, data: Vec<u8>) -> (r: Self)
        ensures
            r.message_type == message_type,
            r.data@ == data@,
    {
        BinaryMessage { message_type, data }
    }

    /// The frame of this message; fails when the payload is longer than
    /// `u32::MAX` bytes.
    pub fn serialize(&self) -> (r: Result<Vec<u8>, BinaryError>)
        ensures
            self.data@.len() <= u32::MAX ==> (r matches Ok(v) && v@ == frame(
                self.message_type,
                self.data@,
            )),
            self.data@.len() > u32::MAX ==> r == Err::<Vec<u8>, BinaryError>(
                BinaryError::PayloadTooLarge,
            ),
    {
        if self.data.len() > u32::MAX as usize {
            return Err(BinaryError::PayloadTooLarge);
        }
        let n = self.data.len() as u32;
        let mut buffer: Vec<u8> = Vec::new();
        buffer.push(self.message_type);
        buffer.push((n % 256) as u8);
        buffer.push(((n / 256) % 256) as u8);
        buffer.push(((n / 65536) % 256) as u8);
        buffer.push(((n / 16777216) % 256) as u8);
        let mut i: usize = 0;
        while i < self.data.len()
            invariant
                i <= self.data@.len(),
                n as nat == self.data@.len(),
                buffer@ == seq![self.message_type] + le_bytes(n) + self.data@.subrange(0, i as int),
            decreases self.data@.len() - i,
        {
            buffer.push(self.data[i]);
            i = i + 1;
            assert(self.data@.subrange(0, i as int) =~= self.data@.subrange(0, i - 1) + seq![
                self.data@[i - 1],
            ]);
        }
        assert(self.data@.subrange(0, i as int) =~= self.data@);
        assert(buffer@ =~= frame(self.message_type, self.data@));
        Ok(buffer)
    }

    /// Reads a frame from the front of `buffer`.
    pub fn deserialize(buffer: &[u8]) -> (r: Result<BinaryMessage, BinaryError>)
        ensures
            match decode_frame(buffer@) {
                Some((t, p)) => r matches Ok(m) && m.message_type == t && m.data@ == p,
                None => r == Err::<BinaryMessage, BinaryError>(BinaryError::Truncated),
            },
    {
        if buffer.len() < HEADER_LEN {
            return Err(BinaryError::Truncated);
        }
        let message_type = buffer[0];
        let len: u32 = buffer[1] as u32 + 256 * (buffer[2] as u32) + 65536 * (buffer[3] as u32)
            + 16777216 * (buffer[4] as u32);
        let len = len as usize;
        if buffer.len() - HEADER_LEN < len {
            return Err(BinaryError::Truncated);
        }
        let mut data: Vec<u8> = Vec::new();
        let mut i: usize = 0;
        while i < len
            invariant
                i <= len,
                HEADER_LEN + len <= buffer.len(),
                data@ == buffer@.subrange(5, 5 + i),
            decreases len - i,
        {
            data.push(buffer[HEADER_LEN + i]);
            i = i + 1;
            assert(data@ =~= buffer@.subrange(5, 5 + i));
        }
        Ok(BinaryMessage { message_type, data })
    }
}

/// Reads a binary message from `data`.
pub fn parse_binary_message(data: &[u8]) -> (r: Result<BinaryMessage, BinaryError>)
    ensures
        match decode_frame(data@) {
            Some((t, p)) => r matches Ok(m) && m.message_type == t && m.data@ == p,
            None => r == Err::<BinaryMessage, BinaryError>(BinaryError::Truncated),
        },
{
    BinaryMessage::deserialize(data)
}

/// Frames `data` under `message_type`.
pub fn format_binary_message(message_type: u8, data: &[u8]) -> (r: Result<Vec<u8>, BinaryError>)
    ensures
        data@.len() <= u32::MAX ==> (r matches Ok(v) && v@ == frame(message_type, data@)),
        data@.len() > u32::MAX ==> r == Err::<Vec<u8>, BinaryError>(BinaryError::PayloadTooLarge),
{
    let mut copy: Vec<u8> = Vec::new();
    let mut i: usize = 0;
    while i < data.len()
        invariant
            i <= data@.len(),
            copy@ == data@.subrange(0, i as int),
        decreases data@.len() - i,
    {
        copy.push(data[i]);
        i = i + 1;
        assert(copy@ =~= data@.subrange(0, i as int));
    }
    assert(copy@ =~= data@);
    let message = BinaryMessage::new(message_type, copy);
    message.serialize()
}

} // verus!
