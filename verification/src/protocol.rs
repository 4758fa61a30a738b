//! Bounded v1 wire framing for controller commands.
//!
//! A frame is `DR`, version, message type, sequence, payload length, payload,
//! and CRC-32C. Integers are little-endian. The checksum covers the version
//! byte through the end of the payload; the two magic bytes are excluded.

use vstd::prelude::*;
use vstd::utf8::*;
use vstd::string::StringSliceAdditionalSpecFns;

verus! {

/// One microsecond of controller time.
pub type Tick = u64;

pub const MAGIC: [u8; 2] = [0x44, 0x52];

pub const PROTOCOL_VERSION: u8 = 1;

pub const COMMAND_MESSAGE_TYPE: u8 = 1;

pub const QUEUE_STATUS_MESSAGE_TYPE: u8 = 2;

pub const HEADER_LEN: usize = 10;

pub const CHECKSUM_LEN: usize = 4;

pub const MAX_STRING_LEN: usize = 63;

pub const MAX_PAYLOAD_LEN: usize = 128;

pub const MAX_FRAME_LEN: usize = HEADER_LEN + MAX_PAYLOAD_LEN + CHECKSUM_LEN;

pub const QUEUE_STATUS_PAYLOAD_LEN: usize = 22;

pub const QUEUE_STATUS_FRAME_LEN: usize = HEADER_LEN + QUEUE_STATUS_PAYLOAD_LEN + CHECKSUM_LEN;

pub const FLAG_EXECUTE_AT: u8 = 1;

pub const KNOWN_FLAGS: u8 = FLAG_EXECUTE_AT;

pub const QUEUE_STATUS_FLAG_UNDERRUN: u8 = 1;

pub const TAG_HEARTBEAT: u8 = 0;

pub const TAG_SET_HEATER_TARGET: u8 = 1;

pub const TAG_HOME: u8 = 2;

pub const TAG_MOVE: u8 = 3;

#[derive(Debug, Clone, PartialEq, Eq)]
pub enum Command {
    Heartbeat,
    SetHeaterTarget { heater: String, target_milli_c: i64 },
    Home { axis: String, rate_um_s: u64 },
    Move { axis: String, distance_um: i64, rate_um_s: u64 },
}

#[derive(Debug, Clone, PartialEq, Eq)]
pub struct CommandEnvelope {
    pub execute_at: Option<Tick>,
    pub command: Command,
}

#[derive(Debug, Clone, PartialEq, Eq)]
pub struct CommandFrame {
    pub sequence: u32,
    pub envelope: CommandEnvelope,
}

#[derive(Debug, Clone, Copy, PartialEq, Eq, Structural)]
pub struct QueueStatus {
    pub capacity: u16,
    pub fill: u16,
    pub earliest_accepted: Tick,
    pub latest_accepted: Tick,
    pub underrun: bool,
}

#[derive(Debug, Clone, Copy, PartialEq, Eq, Structural)]
pub struct QueueStatusFrame {
    pub sequence: u32,
    pub status: QueueStatus,
}

#[derive(Debug, Clone, Copy, PartialEq, Eq, Structural)]
pub enum EncodeError {
    StringTooLong { length: usize, maximum: usize },
    PayloadTooLong { length: usize, maximum: usize },
    BufferTooSmall { needed: usize, available: usize },
}

#[derive(Debug, Clone, Copy, PartialEq, Eq)]
pub enum DecodeError {
    Truncated { needed: usize, available: usize },
    InvalidMagic { found: [u8; 2] },
    UnsupportedVersion { version: u8 },
    UnsupportedMessageType { message_type: u8 },
    PayloadTooLong { length: usize, maximum: usize },
    TrailingFrameBytes { count: usize },
    ChecksumMismatch { encoded: u32, computed: u32 },
    InvalidPayloadLength { expected: usize, actual: usize },
    InvalidFlags { flags: u8 },
    InvalidStateFlags { flags: u8 },
    UnknownCommandTag { tag: u8 },
    StringTooLong { length: usize, maximum: usize },
    InvalidUtf8,
    TrailingPayloadBytes { count: usize },
}

// ---------------------------------------------------------------------------
// Abstract frames
// ---------------------------------------------------------------------------

/// A command with its names as character sequences.
pub enum CommandModel {
    Heartbeat,
    SetHeaterTarget { heater: Seq<char>, target_milli_c: i64 },
    Home { axis: Seq<char>, rate_um_s: u64 },
    Move { axis: Seq<char>, distance_um: i64, rate_um_s: u64 },
}

/// A command frame as the codec sees it.
pub struct FrameModel {
    pub sequence: u32,
    pub execute_at: Option<u64>,
    pub command: CommandModel,
}

pub open spec fn command_model(command: Command) -> CommandModel {
    match command {
        Command::Heartbeat => CommandModel::Heartbeat,
        Command::SetHeaterTarget { heater, target_milli_c } => CommandModel::SetHeaterTarget {
            heater: heater@,
            target_milli_c,
        },
        Command::Home { axis, rate_um_s } => CommandModel::Home { axis: axis@, rate_um_s },
        Command::Move { axis, distance_um, rate_um_s } => CommandModel::Move {
            axis: axis@,
            distance_um,
            rate_um_s,
        },
    }
}

pub open spec fn frame_model(frame: CommandFrame) -> FrameModel {
    FrameModel {
        sequence: frame.sequence,
        execute_at: frame.envelope.execute_at,
        command: command_model(frame.envelope.command),
    }
}

/// The name a command carries, if any.
pub open spec fn command_name(command: CommandModel) -> Option<Seq<char>> {
    match command {
        CommandModel::Heartbeat => None,
        CommandModel::SetHeaterTarget { heater, .. } => Some(heater),
        CommandModel::Home { axis, .. } => Some(axis),
        CommandModel::Move { axis, .. } => Some(axis),
    }
}

/// A frame the codec can carry: its name fits a one-byte length prefix bound.
pub open spec fn frame_model_wf(frame: FrameModel) -> bool {
    command_name(frame.command) matches Some(name) ==> encode_utf8(name).len() <= MAX_STRING_LEN
}

// ---------------------------------------------------------------------------
// Little-endian integers
// ---------------------------------------------------------------------------

pub open spec fn le16(v: u16) -> Seq<u8> {
    seq![(v & 0xff) as u8, ((v >> 8u16) & 0xff) as u8]
}

pub open spec fn le32(v: u32) -> Seq<u8> {
    seq![
        (v & 0xff) as u8,
        ((v >> 8u32) & 0xff) as u8,
        ((v >> 16u32) & 0xff) as u8,
        ((v >> 24u32) & 0xff) as u8,
    ]
}

pub open spec fn le64(v: u64) -> Seq<u8> {
    seq![
        (v & 0xff) as u8,
        ((v >> 8u64) & 0xff) as u8,
        ((v >> 16u64) & 0xff) as u8,
        ((v >> 24u64) & 0xff) as u8,
        ((v >> 32u64) & 0xff) as u8,
        ((v >> 40u64) & 0xff) as u8,
        ((v >> 48u64) & 0xff) as u8,
        ((v >> 56u64) & 0xff) as u8,
    ]
}

pub open spec fn join16(b0: u8, b1: u8) -> u16 {
    (b0 as u16) | ((b1 as u16) << 8u16)
}

pub open spec fn join32(b0: u8, b1: u8, b2: u8, b3: u8) -> u32 {
    (b0 as u32) | ((b1 as u32) << 8u32) | ((b2 as u32) << 16u32) | ((b3 as u32) << 24u32)
}

pub open spec fn join64(b0: u8, b1: u8, b2: u8, b3: u8, b4: u8, b5: u8, b6: u8, b7: u8) -> u64 {
    (b0 as u64) | ((b1 as u64) << 8u64) | ((b2 as u64) << 16u64) | ((b3 as u64) << 24u64) | ((
    b4 as u64) << 32u64) | ((b5 as u64) << 40u64) | ((b6 as u64) << 48u64) | ((b7 as u64)
        << 56u64)
}

pub open spec fn read_le16(b: Seq<u8>, at: int) -> u16 {
    join16(b[at], b[at + 1])
}

pub open spec fn read_le32(b: Seq<u8>, at: int) -> u32 {
    join32(b[at], b[at + 1], b[at + 2], b[at + 3])
}

pub open spec fn read_le64(b: Seq<u8>, at: int) -> u64 {
    join64(b[at], b[at + 1], b[at + 2], b[at + 3], b[at + 4], b[at + 5], b[at + 6], b[at + 7])
}

proof fn lemma_le16_round_trip(v: u16)
    ensures
        read_le16(le16(v), 0) == v,
{
    let b0 = (v & 0xff) as u8;
    let b1 = ((v >> 8u16) & 0xff) as u8;
    assert(((b0 as u16) | ((b1 as u16) << 8u16)) == v) by (bit_vector)
        requires
            b0 == (v & 0xff) as u8,
            b1 == ((v >> 8u16) & 0xff) as u8,
    ;
}

proof fn lemma_le32_round_trip(v: u32)
    ensures
        read_le32(le32(v), 0) == v,
{
    let b0 = (v & 0xff) as u8;
    let b1 = ((v >> 8u32) & 0xff) as u8;
    let b2 = ((v >> 16u32) & 0xff) as u8;
    let b3 = ((v >> 24u32) & 0xff) as u8;
    assert(((b0 as u32) | ((b1 as u32) << 8u32) | ((b2 as u32) << 16u32) | ((b3 as u32)
        << 24u32)) == v) by (bit_vector)
        requires
            b0 == (v & 0xff) as u8,
            b1 == ((v >> 8u32) & 0xff) as u8,
            b2 == ((v >> 16u32) & 0xff) as u8,
            b3 == ((v >> 24u32) & 0xff) as u8,
    ;
}

proof fn lemma_le64_round_trip(v: u64)
    ensures
        read_le64(le64(v), 0) == v,
{
    let b0 = (v & 0xff) as u8;
    let b1 = ((v >> 8u64) & 0xff) as u8;
    let b2 = ((v >> 16u64) & 0xff) as u8;
    let b3 = ((v >> 24u64) & 0xff) as u8;
    let b4 = ((v >> 32u64) & 0xff) as u8;
    let b5 = ((v >> 40u64) & 0xff) as u8;
    let b6 = ((v >> 48u64) & 0xff) as u8;
    let b7 = ((v >> 56u64) & 0xff) as u8;
    assert(((b0 as u64) | ((b1 as u64) << 8u64) | ((b2 as u64) << 16u64) | ((b3 as u64)
        << 24u64) | ((b4 as u64) << 32u64) | ((b5 as u64) << 40u64) | ((b6 as u64) << 48u64) | ((
    b7 as u64) << 56u64)) == v) by (bit_vector)
        requires
            b0 == (v & 0xff) as u8,
            b1 == ((v >> 8u64) & 0xff) as u8,
            b2 == ((v >> 16u64) & 0xff) as u8,
            b3 == ((v >> 24u64) & 0xff) as u8,
            b4 == ((v >> 32u64) & 0xff) as u8,
            b5 == ((v >> 40u64) & 0xff) as u8,
            b6 == ((v >> 48u64) & 0xff) as u8,
            b7 == ((v >> 56u64) & 0xff) as u8,
    ;
}

proof fn lemma_le16_canonical(b: Seq<u8>, at: int)
    requires
        0 <= at && at + 2 <= b.len(),
    ensures
        le16(read_le16(b, at)) == b.subrange(at, at + 2),
{
    let b0 = b[at];
    let b1 = b[at + 1];
    let v = join16(b0, b1);
    assert((v & 0xff) as u8 == b0 && ((v >> 8u16) & 0xff) as u8 == b1) by (bit_vector)
        requires
            v == (b0 as u16) | ((b1 as u16) << 8u16),
    ;
    assert(le16(v) =~= b.subrange(at, at + 2));
}

proof fn lemma_le32_canonical(b: Seq<u8>, at: int)
    requires
        0 <= at && at + 4 <= b.len(),
    ensures
        le32(read_le32(b, at)) == b.subrange(at, at + 4),
{
    let b0 = b[at];
    let b1 = b[at + 1];
    let b2 = b[at + 2];
    let b3 = b[at + 3];
    let v = join32(b0, b1, b2, b3);
    assert((v & 0xff) as u8 == b0 && ((v >> 8u32) & 0xff) as u8 == b1 && ((v >> 16u32) & 0xff)
        as u8 == b2 && ((v >> 24u32) & 0xff) as u8 == b3) by (bit_vector)
        requires
            v == (b0 as u32) | ((b1 as u32) << 8u32) | ((b2 as u32) << 16u32) | ((b3 as u32)
                << 24u32),
    ;
    assert(le32(v) =~= b.subrange(at, at + 4));
}

proof fn lemma_le64_canonical(b: Seq<u8>, at: int)
    requires
        0 <= at && at + 8 <= b.len(),
    ensures
        le64(read_le64(b, at)) == b.subrange(at, at + 8),
{
    let b0 = b[at];
    let b1 = b[at + 1];
    let b2 = b[at + 2];
    let b3 = b[at + 3];
    let b4 = b[at + 4];
    let b5 = b[at + 5];
    let b6 = b[at + 6];
    let b7 = b[at + 7];
    let v = join64(b0, b1, b2, b3, b4, b5, b6, b7);
    assert((v & 0xff) as u8 == b0 && ((v >> 8u64) & 0xff) as u8 == b1 && ((v >> 16u64) & 0xff)
        as u8 == b2 && ((v >> 24u64) & 0xff) as u8 == b3 && ((v >> 32u64) & 0xff) as u8 == b4
        && ((v >> 40u64) & 0xff) as u8 == b5 && ((v >> 48u64) & 0xff) as u8 == b6 && ((v
        >> 56u64) & 0xff) as u8 == b7) by (bit_vector)
        requires
            v == (b0 as u64) | ((b1 as u64) << 8u64) | ((b2 as u64) << 16u64) | ((b3 as u64)
                << 24u64) | ((b4 as u64) << 32u64) | ((b5 as u64) << 40u64) | ((b6 as u64)
                << 48u64) | ((b7 as u64) << 56u64),
    ;
    assert(le64(v) =~= b.subrange(at, at + 8));
}

// ---------------------------------------------------------------------------
// CRC-32C (Castagnoli, reflected polynomial 0x82f63b78)
// ---------------------------------------------------------------------------

pub open spec fn crc_shift(c: u32) -> u32 {
    if c & 1 == 1 {
        (c >> 1u32) ^ 0x82f6_3b78
    } else {
        c >> 1u32
    }
}

pub open spec fn crc_shift_n(c: u32, n: nat) -> u32
    decreases n,
{
    if n == 0 {
        c
    } else {
        crc_shift(crc_shift_n(c, (n - 1) as nat))
    }
}

/// The CRC register after absorbing `bytes`, starting from all ones.
pub open spec fn crc_register(bytes: Seq<u8>) -> u32
    decreases bytes.len(),
{
    if bytes.len() == 0 {
        0xffff_ffff
    } else {
        crc_shift_n(crc_register(bytes.drop_last()) ^ (bytes.last() as u32), 8)
    }
}

pub open spec fn spec_crc32c(bytes: Seq<u8>) -> u32 {
    crc_register(bytes) ^ 0xffff_ffff
}

/// CRC-32C of `bytes`.
pub fn crc32c(bytes: &[u8]) -> (crc: u32)
    ensures
        crc == spec_crc32c(bytes@),
{
    let mut crc: u32 = 0xffff_ffff;
    let mut i: usize = 0;
    while i < bytes.len()
        invariant
            i <= bytes@.len(),
            crc == crc_register(bytes@.subrange(0, i as int)),
        decreases bytes@.len() - i,
    {
        let ghost before = crc;
        crc = crc ^ (bytes[i] as u32);
        let ghost absorbed = crc;
        let mut bit: usize = 0;
        while bit < 8
            invariant
                bit <= 8,
                crc == crc_shift_n(absorbed, bit as nat),
            decreases 8 - bit,
        {
            let mask: u32 = if crc & 1 == 1 { 0xffff_ffff } else { 0 };
            let next = (crc >> 1) ^ (0x82f6_3b78 & mask);
            assert(next == crc_shift(crc)) by (bit_vector)
                requires
                    next == (crc >> 1u32) ^ (0x82f6_3b78u32 & mask),
                    mask == (if crc & 1 == 1 { 0xffff_ffffu32 } else { 0u32 }),
            ;
            crc = next;
            bit = bit + 1;
        }
        proof {
            let prefix = bytes@.subrange(0, i + 1);
            assert(prefix.drop_last() =~= bytes@.subrange(0, i as int));
            assert(prefix.last() == bytes@[i as int]);
        }
        i = i + 1;
    }
    proof {
        assert(bytes@.subrange(0, bytes@.len() as int) =~= bytes@);
    }
    crc ^ 0xffff_ffff
}

// ---------------------------------------------------------------------------
// Encoding
// ---------------------------------------------------------------------------

/// A name on the wire: its UTF-8 byte length, then the bytes.
pub open spec fn string_field(name: Seq<char>) -> Seq<u8> {
    seq![encode_utf8(name).len() as u8] + encode_utf8(name)
}

pub open spec fn command_bytes(command: CommandModel) -> Seq<u8> {
    match command {
        CommandModel::Heartbeat => seq![TAG_HEARTBEAT],
        CommandModel::SetHeaterTarget { heater, target_milli_c } => seq![TAG_SET_HEATER_TARGET]
            + string_field(heater) + le64(target_milli_c as u64),
        CommandModel::Home { axis, rate_um_s } => seq![TAG_HOME] + string_field(axis) + le64(
            rate_um_s,
        ),
        CommandModel::Move { axis, distance_um, rate_um_s } => seq![TAG_MOVE] + string_field(
            axis,
        ) + le64(distance_um as u64) + le64(rate_um_s),
    }
}

/// Flags byte, optional execution time, then the tagged command.
pub open spec fn payload_bytes(frame: FrameModel) -> Seq<u8> {
    (match frame.execute_at {
        Some(at) => seq![FLAG_EXECUTE_AT] + le64(at),
        None => seq![0u8],
    }) + command_bytes(frame.command)
}

/// The checksummed region: version, message type, sequence, payload length
/// and payload.
pub open spec fn checked_region(message_type: u8, sequence: u32, payload: Seq<u8>) -> Seq<u8> {
    seq![PROTOCOL_VERSION, message_type] + le32(sequence) + le16(payload.len() as u16) + payload
}

pub open spec fn frame_bytes(message_type: u8, sequence: u32, payload: Seq<u8>) -> Seq<u8> {
    seq![MAGIC[0], MAGIC[1]] + checked_region(message_type, sequence, payload) + le32(
        spec_crc32c(checked_region(message_type, sequence, payload)),
    )
}

pub open spec fn spec_encoded_string_len(name: Seq<char>) -> Result<usize, EncodeError> {
    let length = encode_utf8(name).len();
    if length > MAX_STRING_LEN {
        Err(EncodeError::StringTooLong { length: length as usize, maximum: MAX_STRING_LEN })
    } else {
        Ok((1 + length) as usize)
    }
}

/// Field bounds, then payload bound, then output capacity; the exact frame
/// bytes when all hold.
pub open spec fn spec_encode_command(frame: FrameModel, available: nat) -> Result<
    Seq<u8>,
    EncodeError,
> {
    let payload = payload_bytes(frame);
    if !frame_model_wf(frame) {
        Err(
            EncodeError::StringTooLong {
                length: encode_utf8(command_name(frame.command).unwrap()).len() as usize,
                maximum: MAX_STRING_LEN,
            },
        )
    } else if payload.len() > MAX_PAYLOAD_LEN {
        Err(EncodeError::PayloadTooLong { length: payload.len() as usize, maximum: MAX_PAYLOAD_LEN })
    } else if available < HEADER_LEN + payload.len() + CHECKSUM_LEN {
        Err(
            EncodeError::BufferTooSmall {
                needed: (HEADER_LEN + payload.len() + CHECKSUM_LEN) as usize,
                available: available as usize,
            },
        )
    } else {
        Ok(frame_bytes(COMMAND_MESSAGE_TYPE, frame.sequence, payload))
    }
}

pub open spec fn queue_status_payload(status: QueueStatus) -> Seq<u8> {
    seq![0u8] + le16(status.capacity) + le16(status.fill) + le64(status.earliest_accepted) + le64(
        status.latest_accepted,
    ) + seq![
        if status.underrun {
            QUEUE_STATUS_FLAG_UNDERRUN
        } else {
            0u8
        },
    ]
}

pub open spec fn spec_encode_queue_status(frame: QueueStatusFrame, available: nat) -> Result<
    Seq<u8>,
    EncodeError,
> {
    if available < QUEUE_STATUS_FRAME_LEN {
        Err(
            EncodeError::BufferTooSmall {
                needed: QUEUE_STATUS_FRAME_LEN,
                available: available as usize,
            },
        )
    } else {
        Ok(frame_bytes(QUEUE_STATUS_MESSAGE_TYPE, frame.sequence, queue_status_payload(frame.status)))
    }
}

fn push_le16(buffer: &mut Vec<u8>, value: u16)
    ensures
        final(buffer)@ == old(buffer)@ + le16(value),
{
    buffer.push((value & 0xff) as u8);
    buffer.push(((value >> 8) & 0xff) as u8);
    proof {
        assert(final(buffer)@ =~= old(buffer)@ + le16(value));
    }
}

fn push_le32(buffer: &mut Vec<u8>, value: u32)
    ensures
        final(buffer)@ == old(buffer)@ + le32(value),
{
    buffer.push((value & 0xff) as u8);
    buffer.push(((value >> 8) & 0xff) as u8);
    buffer.push(((value >> 16) & 0xff) as u8);
    buffer.push(((value >> 24) & 0xff) as u8);
    proof {
        assert(final(buffer)@ =~= old(buffer)@ + le32(value));
    }
}

fn push_le64(buffer: &mut Vec<u8>, value: u64)
    ensures
        final(buffer)@ == old(buffer)@ + le64(value),
{
    buffer.push((value & 0xff) as u8);
    buffer.push(((value >> 8) & 0xff) as u8);
    buffer.push(((value >> 16) & 0xff) as u8);
    buffer.push(((value >> 24) & 0xff) as u8);
    buffer.push(((value >> 32) & 0xff) as u8);
    buffer.push(((value >> 40) & 0xff) as u8);
    buffer.push(((value >> 48) & 0xff) as u8);
    buffer.push(((value >> 56) & 0xff) as u8);
    proof {
        assert(final(buffer)@ =~= old(buffer)@ + le64(value));
    }
}

fn push_bytes(buffer: &mut Vec<u8>, bytes: &[u8])
    ensures
        final(buffer)@ == old(buffer)@ + bytes@,
{
    let mut i: usize = 0;
    while i < bytes.len()
        invariant
            i <= bytes@.len(),
            buffer@ == old(buffer)@ + bytes@.subrange(0, i as int),
        decreases bytes@.len() - i,
    {
        buffer.push(bytes[i]);
        proof {
            assert(bytes@.subrange(0, i + 1) =~= bytes@.subrange(0, i as int).push(bytes@[i as int]));
        }
        i = i + 1;
    }
    proof {
        assert(bytes@.subrange(0, bytes@.len() as int) =~= bytes@);
    }
}

fn push_string(buffer: &mut Vec<u8>, value: &str)
    requires
        value.spec_bytes().len() <= MAX_STRING_LEN,
    ensures
        final(buffer)@ == old(buffer)@ + string_field(value@),
{
    let bytes = value.as_bytes();
    buffer.push(bytes.len() as u8);
    push_bytes(buffer, bytes);
    proof {
        assert(final(buffer)@ =~= old(buffer)@ + string_field(value@));
    }
}

/// Length of a name on the wire, or the bound it exceeds.
fn encoded_string_len(value: &str) -> (result: Result<usize, EncodeError>)
    ensures
        result == spec_encoded_string_len(value@),
{
    let length = value.as_bytes().len();
    if length > MAX_STRING_LEN {
        return Err(EncodeError::StringTooLong { length, maximum: MAX_STRING_LEN });
    }
    Ok(1 + length)
}

/// Payload length of an envelope, or the name bound it exceeds.
fn encoded_payload_len(envelope: &CommandEnvelope) -> (result: Result<usize, EncodeError>)
    ensures
        match result {
            Ok(length) => {
                &&& length == payload_bytes(
                    FrameModel {
                        sequence: 0,
                        execute_at: envelope.execute_at,
                        command: command_model(envelope.command),
                    },
                ).len()
                &&& command_name(command_model(envelope.command)) matches Some(name)
                    ==> encode_utf8(name).len() <= MAX_STRING_LEN
            },
            Err(e) => {
                let name = command_name(command_model(envelope.command));
                &&& name is Some
                &&& encode_utf8(name.unwrap()).len() > MAX_STRING_LEN
                &&& e == EncodeError::StringTooLong {
                    length: encode_utf8(name.unwrap()).len() as usize,
                    maximum: MAX_STRING_LEN,
                }
            },
        },
{
    let schedule_len: usize = if envelope.execute_at.is_some() {
        8
    } else {
        0
    };
    let command_len: usize = match &envelope.command {
        Command::Heartbeat => 1,
        Command::SetHeaterTarget { heater, .. } => match encoded_string_len(heater.as_str()) {
            Ok(n) => 1 + n + 8,
            Err(e) => return Err(e),
        },
        Command::Home { axis, .. } => match encoded_string_len(axis.as_str()) {
            Ok(n) => 1 + n + 8,
            Err(e) => return Err(e),
        },
        Command::Move { axis, .. } => match encoded_string_len(axis.as_str()) {
            Ok(n) => 1 + n + 8 + 8,
            Err(e) => return Err(e),
        },
    };
    Ok(1 + schedule_len + command_len)
}

fn encode_payload(envelope: &CommandEnvelope, buffer: &mut Vec<u8>)
    requires
        command_name(command_model(envelope.command)) matches Some(name) ==> encode_utf8(name).len()
            <= MAX_STRING_LEN,
    ensures
        final(buffer)@ == old(buffer)@ + payload_bytes(
            FrameModel {
                sequence: 0,
                execute_at: envelope.execute_at,
                command: command_model(envelope.command),
            },
        ),
{
    let ghost start = buffer@;
    match envelope.execute_at {
        Some(execute_at) => {
            buffer.push(FLAG_EXECUTE_AT);
            push_le64(buffer, execute_at);
        },
        None => {
            buffer.push(0);
        },
    }
    let ghost after_schedule = buffer@;
    match &envelope.command {
        Command::Heartbeat => {
            buffer.push(TAG_HEARTBEAT);
        },
        Command::SetHeaterTarget { heater, target_milli_c } => {
            buffer.push(TAG_SET_HEATER_TARGET);
            push_string(buffer, heater.as_str());
            push_le64(buffer, *target_milli_c as u64);
        },
        Command::Home { axis, rate_um_s } => {
            buffer.push(TAG_HOME);
            push_string(buffer, axis.as_str());
            push_le64(buffer, *rate_um_s);
        },
        Command::Move { axis, distance_um, rate_um_s } => {
            buffer.push(TAG_MOVE);
            push_string(buffer, axis.as_str());
            push_le64(buffer, *distance_um as u64);
            push_le64(buffer, *rate_um_s);
        },
    }
    proof {
        let model = FrameModel {
            sequence: 0,
            execute_at: envelope.execute_at,
            command: command_model(envelope.command),
        };
        assert(buffer@ =~= start + payload_bytes(model));
    }
}

/// Copy a complete frame into the front of `output`.
fn write_front(output: &mut [u8], bytes: &[u8])
    requires
        bytes@.len() <= old(output)@.len(),
    ensures
        final(output)@ == bytes@ + old(output)@.skip(bytes@.len() as int),
{
    let mut i: usize = 0;
    while i < bytes.len()
        invariant
            i <= bytes@.len(),
            bytes@.len() <= output@.len(),
            output@.len() == old(output)@.len(),
            output@ == bytes@.subrange(0, i as int) + old(output)@.skip(i as int),
        decreases bytes@.len() - i,
    {
        output[i] = bytes[i];
        proof {
            assert(output@ =~= bytes@.subrange(0, i + 1) + old(output)@.skip(i + 1));
        }
        i = i + 1;
    }
    proof {
        assert(bytes@.subrange(0, bytes@.len() as int) =~= bytes@);
    }
}

/// The checksummed region followed by its CRC and preceded by the magic.
fn finish_frame(output: &mut [u8], checked: &Vec<u8>) -> (written: usize)
    requires
        2 + checked@.len() + 4 <= old(output)@.len(),
    ensures
        written == 2 + checked@.len() + 4,
        final(output)@ == seq![MAGIC[0], MAGIC[1]] + checked@ + le32(spec_crc32c(checked@))
            + old(output)@.skip(written as int),
{
    let checksum = crc32c(checked.as_slice());
    let mut frame: Vec<u8> = Vec::new();
    frame.push(MAGIC[0]);
    frame.push(MAGIC[1]);
    push_bytes(&mut frame, checked.as_slice());
    push_le32(&mut frame, checksum);
    write_front(output, frame.as_slice());
    proof {
        assert(frame@ =~= seq![MAGIC[0], MAGIC[1]] + checked@ + le32(spec_crc32c(checked@)));
    }
    frame.len()
}

/// Encode one command frame.
///
/// Validation is deterministic: field bounds, payload bound, then output
/// capacity are checked before any byte is written.
pub fn encode_command(frame: &CommandFrame, output: &mut [u8]) -> (result: Result<
    usize,
    EncodeError,
>)
    ensures
        match spec_encode_command(frame_model(*frame), old(output)@.len()) {
            Ok(bytes) => result == Ok::<usize, EncodeError>(bytes.len() as usize)
                && final(output)@ == bytes + old(output)@.skip(bytes.len() as int),
            Err(e) => result == Err::<usize, EncodeError>(e) && final(output)@ == old(output)@,
        },
{
    let payload_len = match encoded_payload_len(&frame.envelope) {
        Ok(n) => n,
        Err(e) => return Err(e),
    };
    if payload_len > MAX_PAYLOAD_LEN {
        return Err(EncodeError::PayloadTooLong { length: payload_len, maximum: MAX_PAYLOAD_LEN });
    }
    let frame_len = HEADER_LEN + payload_len + CHECKSUM_LEN;
    if output.len() < frame_len {
        return Err(EncodeError::BufferTooSmall { needed: frame_len, available: output.len() });
    }
    let mut checked: Vec<u8> = Vec::new();
    checked.push(PROTOCOL_VERSION);
    checked.push(COMMAND_MESSAGE_TYPE);
    push_le32(&mut checked, frame.sequence);
    push_le16(&mut checked, payload_len as u16);
    let ghost header = checked@;
    encode_payload(&frame.envelope, &mut checked);
    proof {
        let payload = payload_bytes(frame_model(*frame));
        assert(payload =~= payload_bytes(
            FrameModel {
                sequence: 0,
                execute_at: frame.envelope.execute_at,
                command: command_model(frame.envelope.command),
            },
        ));
        assert(checked@ =~= checked_region(COMMAND_MESSAGE_TYPE, frame.sequence, payload));
    }
    let written = finish_frame(output, &checked);
    Ok(written)
}

/// Encode one queue-status frame; capacity is validated before any byte is
/// written.
pub fn encode_queue_status(frame: &QueueStatusFrame, output: &mut [u8]) -> (result: Result<
    usize,
    EncodeError,
>)
    ensures
        match spec_encode_queue_status(*frame, old(output)@.len()) {
            Ok(bytes) => result == Ok::<usize, EncodeError>(bytes.len() as usize)
                && final(output)@ == bytes + old(output)@.skip(bytes.len() as int),
            Err(e) => result == Err::<usize, EncodeError>(e) && final(output)@ == old(output)@,
        },
{
    if output.len() < QUEUE_STATUS_FRAME_LEN {
        return Err(
            EncodeError::BufferTooSmall { needed: QUEUE_STATUS_FRAME_LEN, available: output.len() },
        );
    }
    let mut checked: Vec<u8> = Vec::new();
    checked.push(PROTOCOL_VERSION);
    checked.push(QUEUE_STATUS_MESSAGE_TYPE);
    push_le32(&mut checked, frame.sequence);
    push_le16(&mut checked, QUEUE_STATUS_PAYLOAD_LEN as u16);
    checked.push(0);
    push_le16(&mut checked, frame.status.capacity);
    push_le16(&mut checked, frame.status.fill);
    push_le64(&mut checked, frame.status.earliest_accepted);
    push_le64(&mut checked, frame.status.latest_accepted);
    let state_flags = if frame.status.underrun {
        QUEUE_STATUS_FLAG_UNDERRUN
    } else {
        0
    };
    checked.push(state_flags);
    proof {
        let payload = queue_status_payload(frame.status);
        assert(checked@ =~= checked_region(QUEUE_STATUS_MESSAGE_TYPE, frame.sequence, payload));
    }
    let written = finish_frame(output, &checked);
    Ok(written)
}

// ---------------------------------------------------------------------------
// Decoding
// ---------------------------------------------------------------------------

/// Frame validation in its documented order: magic prefix, complete header,
/// version and type, payload bound, exact frame length, checksum. Yields the
/// sequence number and payload length.
pub open spec fn spec_decode_header(input: Seq<u8>, message_type: u8) -> Result<
    (u32, nat),
    DecodeError,
> {
    let len = input.len();
    if len < 2 {
        Err(DecodeError::Truncated { needed: 2, available: len as usize })
    } else if input[0] != MAGIC[0] || input[1] != MAGIC[1] {
        Err(DecodeError::InvalidMagic { found: [input[0], input[1]] })
    } else if len < HEADER_LEN {
        Err(DecodeError::Truncated { needed: HEADER_LEN, available: len as usize })
    } else if input[2] != PROTOCOL_VERSION {
        Err(DecodeError::UnsupportedVersion { version: input[2] })
    } else if input[3] != message_type {
        Err(DecodeError::UnsupportedMessageType { message_type: input[3] })
    } else {
        let payload_len = read_le16(input, 8) as nat;
        let frame_len = HEADER_LEN + payload_len + CHECKSUM_LEN;
        if payload_len > MAX_PAYLOAD_LEN {
            Err(DecodeError::PayloadTooLong { length: payload_len as usize, maximum: MAX_PAYLOAD_LEN })
        } else if len < frame_len {
            Err(DecodeError::Truncated { needed: frame_len as usize, available: len as usize })
        } else if len > frame_len {
            Err(DecodeError::TrailingFrameBytes { count: (len - frame_len) as usize })
        } else {
            let encoded = read_le32(input, HEADER_LEN + payload_len);
            let computed = spec_crc32c(input.subrange(2, HEADER_LEN + payload_len));
            if encoded != computed {
                Err(DecodeError::ChecksumMismatch { encoded, computed })
            } else {
                Ok((read_le32(input, 4), payload_len))
            }
        }
    }
}

/// The truncation error for a read ending at `end`; the needed length
/// saturates at the largest machine size.
pub open spec fn truncated_at(p: Seq<u8>, end: int) -> DecodeError {
    DecodeError::Truncated {
        needed: (if end <= usize::MAX {
            end
        } else {
            usize::MAX as int
        }) as usize,
        available: p.len() as usize,
    }
}

pub open spec fn decode_u8_at(p: Seq<u8>, pos: int) -> Result<(u8, int), DecodeError> {
    if pos + 1 > p.len() {
        Err(truncated_at(p, pos + 1))
    } else {
        Ok((p[pos], pos + 1))
    }
}

pub open spec fn decode_u64_at(p: Seq<u8>, pos: int) -> Result<(u64, int), DecodeError> {
    if pos + 8 > p.len() {
        Err(truncated_at(p, pos + 8))
    } else {
        Ok((read_le64(p, pos), pos + 8))
    }
}

/// A length-prefixed UTF-8 name at `pos`.
pub open spec fn decode_string_at(p: Seq<u8>, pos: int) -> Result<(Seq<char>, int), DecodeError> {
    if pos + 1 > p.len() {
        Err(truncated_at(p, pos + 1))
    } else if p[pos] > MAX_STRING_LEN {
        Err(DecodeError::StringTooLong { length: p[pos] as usize, maximum: MAX_STRING_LEN })
    } else if pos + 1 + p[pos] > p.len() {
        Err(truncated_at(p, pos + 1 + p[pos]))
    } else if !valid_utf8(p.subrange(pos + 1, pos + 1 + p[pos])) {
        Err(DecodeError::InvalidUtf8)
    } else {
        Ok((decode_utf8(p.subrange(pos + 1, pos + 1 + p[pos])), pos + 1 + p[pos]))
    }
}

/// The tagged command at `pos` and the position after it.
pub open spec fn decode_command_at(p: Seq<u8>, pos: int) -> Result<(CommandModel, int), DecodeError> {
    if pos + 1 > p.len() {
        Err(truncated_at(p, pos + 1))
    } else if p[pos] == TAG_HEARTBEAT {
        Ok((CommandModel::Heartbeat, pos + 1))
    } else if p[pos] == TAG_SET_HEATER_TARGET {
        match decode_string_at(p, pos + 1) {
            Err(e) => Err(e),
            Ok((heater, q)) => match decode_u64_at(p, q) {
                Err(e) => Err(e),
                Ok((target, r)) => Ok(
                    (CommandModel::SetHeaterTarget { heater, target_milli_c: target as i64 }, r),
                ),
            },
        }
    } else if p[pos] == TAG_HOME {
        match decode_string_at(p, pos + 1) {
            Err(e) => Err(e),
            Ok((axis, q)) => match decode_u64_at(p, q) {
                Err(e) => Err(e),
                Ok((rate, r)) => Ok((CommandModel::Home { axis, rate_um_s: rate }, r)),
            },
        }
    } else if p[pos] == TAG_MOVE {
        match decode_string_at(p, pos + 1) {
            Err(e) => Err(e),
            Ok((axis, q)) => match decode_u64_at(p, q) {
                Err(e) => Err(e),
                Ok((distance, r)) => match decode_u64_at(p, r) {
                    Err(e) => Err(e),
                    Ok((rate, t)) => Ok(
                        (
                            CommandModel::Move {
                                axis,
                                distance_um: distance as i64,
                                rate_um_s: rate,
                            },
                            t,
                        ),
                    ),
                },
            },
        }
    } else {
        Err(DecodeError::UnknownCommandTag { tag: p[pos] })
    }
}

/// Flags, optional execution time, tagged command, then no trailing bytes.
pub open spec fn spec_decode_payload(p: Seq<u8>) -> Result<(Option<u64>, CommandModel), DecodeError> {
    if p.len() < 1 {
        Err(truncated_at(p, 1))
    } else if p[0] > KNOWN_FLAGS {
        Err(DecodeError::InvalidFlags { flags: p[0] })
    } else {
        let schedule: Result<(Option<u64>, int), DecodeError> = if p[0] == FLAG_EXECUTE_AT {
            match decode_u64_at(p, 1) {
                Err(e) => Err(e),
                Ok((at, q)) => Ok((Some(at), q)),
            }
        } else {
            Ok((None, 1))
        };
        match schedule {
            Err(e) => Err(e),
            Ok((execute_at, q)) => match decode_command_at(p, q) {
                Err(e) => Err(e),
                Ok((command, end)) => if end < p.len() {
                    Err(DecodeError::TrailingPayloadBytes { count: (p.len() - end) as usize })
                } else {
                    Ok((execute_at, command))
                },
            },
        }
    }
}

pub open spec fn spec_decode_command(input: Seq<u8>) -> Result<FrameModel, DecodeError> {
    match spec_decode_header(input, COMMAND_MESSAGE_TYPE) {
        Err(e) => Err(e),
        Ok((sequence, payload_len)) => match spec_decode_payload(
            input.subrange(HEADER_LEN as int, HEADER_LEN + payload_len),
        ) {
            Err(e) => Err(e),
            Ok((execute_at, command)) => Ok(FrameModel { sequence, execute_at, command }),
        },
    }
}

pub open spec fn spec_decode_queue_status(input: Seq<u8>) -> Result<QueueStatusFrame, DecodeError> {
    match spec_decode_header(input, QUEUE_STATUS_MESSAGE_TYPE) {
        Err(e) => Err(e),
        Ok((sequence, payload_len)) => {
            let p = input.subrange(HEADER_LEN as int, HEADER_LEN + payload_len);
            if payload_len != QUEUE_STATUS_PAYLOAD_LEN {
                Err(
                    DecodeError::InvalidPayloadLength {
                        expected: QUEUE_STATUS_PAYLOAD_LEN,
                        actual: payload_len as usize,
                    },
                )
            } else if p[0] != 0 {
                Err(DecodeError::InvalidFlags { flags: p[0] })
            } else if p[21] > QUEUE_STATUS_FLAG_UNDERRUN {
                Err(DecodeError::InvalidStateFlags { flags: p[21] })
            } else {
                Ok(
                    QueueStatusFrame {
                        sequence,
                        status: QueueStatus {
                            capacity: read_le16(p, 1),
                            fill: read_le16(p, 3),
                            earliest_accepted: read_le64(p, 5),
                            latest_accepted: read_le64(p, 13),
                            underrun: p[21] == QUEUE_STATUS_FLAG_UNDERRUN,
                        },
                    },
                )
            }
        },
    }
}

/// `std::str::from_utf8`: the bytes as a string slice exactly when they are
/// well-formed UTF-8, with those same bytes.
#[verifier::external_body]
fn str_from_utf8(bytes: &[u8]) -> (result: Option<&str>)
    ensures
        result is Some <==> valid_utf8(bytes@),
        result matches Some(text) ==> text.spec_bytes() == bytes@,
{
    core::str::from_utf8(bytes).ok()
}

fn require_len(input: &[u8], needed: usize) -> (result: Result<(), DecodeError>)
    ensures
        result == (if input@.len() < needed {
            Err(DecodeError::Truncated { needed, available: input@.len() as usize })
        } else {
            Ok(())
        }),
{
    if input.len() < needed {
        return Err(DecodeError::Truncated { needed, available: input.len() });
    }
    Ok(())
}

fn read_u32_at(input: &[u8], offset: usize) -> (result: Result<u32, DecodeError>)
    ensures
        result == (if offset + 4 <= input@.len() {
            Ok(read_le32(input@, offset as int))
        } else {
            Err(
                DecodeError::Truncated {
                    needed: (if offset + 4 <= usize::MAX {
                        offset + 4
                    } else {
                        usize::MAX as int
                    }) as usize,
                    available: input@.len() as usize,
                },
            )
        }),
{
    let end = offset.saturating_add(4);
    if end > input.len() || offset > usize::MAX - 4 {
        return Err(DecodeError::Truncated { needed: end, available: input.len() });
    }
    Ok(
        (input[offset] as u32) | ((input[offset + 1] as u32) << 8) | ((input[offset + 2] as u32)
            << 16) | ((input[offset + 3] as u32) << 24),
    )
}

/// Header validation shared by every frame type.
fn decode_header(input: &[u8], message_type: u8) -> (result: Result<(u32, usize), DecodeError>)
    ensures
        match spec_decode_header(input@, message_type) {
            Ok((sequence, payload_len)) => result == Ok::<(u32, usize), DecodeError>(
                (sequence, payload_len as usize),
            ),
            Err(e) => result == Err::<(u32, usize), DecodeError>(e),
        },
{
    if let Err(e) = require_len(input, 2) {
        return Err(e);
    }
    if input[0] != MAGIC[0] || input[1] != MAGIC[1] {
        return Err(DecodeError::InvalidMagic { found: [input[0], input[1]] });
    }
    if let Err(e) = require_len(input, HEADER_LEN) {
        return Err(e);
    }
    let version = input[2];
    if version != PROTOCOL_VERSION {
        return Err(DecodeError::UnsupportedVersion { version });
    }
    let found_type = input[3];
    if found_type != message_type {
        return Err(DecodeError::UnsupportedMessageType { message_type: found_type });
    }
    let sequence = (input[4] as u32) | ((input[5] as u32) << 8) | ((input[6] as u32) << 16) | ((
    input[7] as u32) << 24);
    let payload_len = ((input[8] as u16) | ((input[9] as u16) << 8)) as usize;
    if payload_len > MAX_PAYLOAD_LEN {
        return Err(DecodeError::PayloadTooLong { length: payload_len, maximum: MAX_PAYLOAD_LEN });
    }
    let frame_len = HEADER_LEN + payload_len + CHECKSUM_LEN;
    if let Err(e) = require_len(input, frame_len) {
        return Err(e);
    }
    if input.len() > frame_len {
        return Err(DecodeError::TrailingFrameBytes { count: input.len() - frame_len });
    }
    let payload_end = HEADER_LEN + payload_len;
    let encoded_checksum = match read_u32_at(input, payload_end) {
        Ok(v) => v,
        Err(e) => return Err(e),
    };
    let computed_checksum = crc32c(&input[2..payload_end]);
    if encoded_checksum != computed_checksum {
        return Err(
            DecodeError::ChecksumMismatch { encoded: encoded_checksum, computed: computed_checksum },
        );
    }
    Ok((sequence, payload_len))
}

/// A cursor over one payload.
struct Reader<'a> {
    input: &'a [u8],
    position: usize,
}

impl<'a> Reader<'a> {
    fn new(input: &'a [u8]) -> (reader: Self)
        ensures
            reader.input@ == input@,
            reader.position == 0,
    {
        Reader { input, position: 0 }
    }

    fn remaining(&self) -> (count: usize)
        ensures
            count == (if self.position <= self.input@.len() {
                self.input@.len() - self.position
            } else {
                0
            }),
    {
        self.input.len().saturating_sub(self.position)
    }

    fn read(&mut self, length: usize) -> (result: Result<&'a [u8], DecodeError>)
        ensures
            final(self).input@ == old(self).input@,
            old(self).position + length <= old(self).input@.len() ==> {
                &&& result matches Ok(bytes)
                &&& bytes@ == old(self).input@.subrange(
                    old(self).position as int,
                    old(self).position + length,
                )
                &&& final(self).position == old(self).position + length
            },
            old(self).position + length > old(self).input@.len() ==> result == Err::<
                &'a [u8],
                DecodeError,
            >(truncated_at(old(self).input@, old(self).position + length)),
    {
        if length > self.input.len() || self.position > self.input.len() - length {
            let end = self.position.saturating_add(length);
            return Err(DecodeError::Truncated { needed: end, available: self.input.len() });
        }
        let end = self.position + length;
        let input: &'a [u8] = self.input;
        let bytes = &input[self.position..end];
        self.position = end;
        Ok(bytes)
    }

    fn read_u8(&mut self) -> (result: Result<u8, DecodeError>)
        ensures
            final(self).input@ == old(self).input@,
            match decode_u8_at(old(self).input@, old(self).position as int) {
                Ok((v, q)) => result == Ok::<u8, DecodeError>(v) && final(self).position == q,
                Err(e) => result == Err::<u8, DecodeError>(e),
            },
    {
        match self.read(1) {
            Ok(bytes) => Ok(bytes[0]),
            Err(e) => Err(e),
        }
    }

    fn read_u16(&mut self) -> (result: Result<u16, DecodeError>)
        ensures
            final(self).input@ == old(self).input@,
            old(self).position + 2 <= old(self).input@.len() ==> result == Ok::<u16, DecodeError>(
                read_le16(old(self).input@, old(self).position as int),
            ) && final(self).position == old(self).position + 2,
            old(self).position + 2 > old(self).input@.len() ==> result == Err::<u16, DecodeError>(
                truncated_at(old(self).input@, old(self).position + 2),
            ),
    {
        match self.read(2) {
            Ok(bytes) => Ok((bytes[0] as u16) | ((bytes[1] as u16) << 8)),
            Err(e) => Err(e),
        }
    }

    fn read_u64(&mut self) -> (result: Result<u64, DecodeError>)
        ensures
            final(self).input@ == old(self).input@,
            match decode_u64_at(old(self).input@, old(self).position as int) {
                Ok((v, q)) => result == Ok::<u64, DecodeError>(v) && final(self).position == q,
                Err(e) => result == Err::<u64, DecodeError>(e),
            },
    {
        match self.read(8) {
            Ok(bytes) => Ok(
                (bytes[0] as u64) | ((bytes[1] as u64) << 8) | ((bytes[2] as u64) << 16) | ((
                bytes[3] as u64) << 24) | ((bytes[4] as u64) << 32) | ((bytes[5] as u64) << 40)
                    | ((bytes[6] as u64) << 48) | ((bytes[7] as u64) << 56),
            ),
            Err(e) => Err(e),
        }
    }

    fn read_i64(&mut self) -> (result: Result<i64, DecodeError>)
        ensures
            final(self).input@ == old(self).input@,
            match decode_u64_at(old(self).input@, old(self).position as int) {
                Ok((v, q)) => result == Ok::<i64, DecodeError>(v as i64) && final(self).position
                    == q,
                Err(e) => result == Err::<i64, DecodeError>(e),
            },
    {
        match self.read_u64() {
            Ok(v) => Ok(v as i64),
            Err(e) => Err(e),
        }
    }

    fn read_string(&mut self) -> (result: Result<String, DecodeError>)
        ensures
            final(self).input@ == old(self).input@,
            match decode_string_at(old(self).input@, old(self).position as int) {
                Ok((text, q)) => result matches Ok(s) && s@ == text && final(self).position == q,
                Err(e) => result == Err::<String, DecodeError>(e),
            },
    {
        let length = match self.read_u8() {
            Ok(n) => n as usize,
            Err(e) => return Err(e),
        };
        if length > MAX_STRING_LEN {
            return Err(DecodeError::StringTooLong { length, maximum: MAX_STRING_LEN });
        }
        let bytes = match self.read(length) {
            Ok(b) => b,
            Err(e) => return Err(e),
        };
        match str_from_utf8(bytes) {
            Some(text) => {
                proof {
                    vstd::utf8::encode_utf8_decode_utf8(text@);
                }
                Ok(text.to_owned())
            },
            None => Err(DecodeError::InvalidUtf8),
        }
    }
}

fn decode_payload(payload: &[u8]) -> (result: Result<CommandEnvelope, DecodeError>)
    ensures
        match spec_decode_payload(payload@) {
            Ok((execute_at, command)) => result matches Ok(envelope) && envelope.execute_at
                == execute_at && command_model(envelope.command) == command,
            Err(e) => result == Err::<CommandEnvelope, DecodeError>(e),
        },
{
    let mut reader = Reader::new(payload);
    let flags = match reader.read_u8() {
        Ok(f) => f,
        Err(e) => return Err(e),
    };
    assert((flags & !KNOWN_FLAGS != 0) == (flags > KNOWN_FLAGS)) by (bit_vector)
        requires
            KNOWN_FLAGS == 1u8,
    ;
    if flags & !KNOWN_FLAGS != 0 {
        return Err(DecodeError::InvalidFlags { flags });
    }
    assert((flags & FLAG_EXECUTE_AT != 0) == (flags == FLAG_EXECUTE_AT)) by (bit_vector)
        requires
            flags <= 1u8,
            FLAG_EXECUTE_AT == 1u8,
    ;
    let execute_at = if flags & FLAG_EXECUTE_AT != 0 {
        match reader.read_u64() {
            Ok(at) => Some(at),
            Err(e) => return Err(e),
        }
    } else {
        None
    };
    let tag = match reader.read_u8() {
        Ok(t) => t,
        Err(e) => return Err(e),
    };
    let command = if tag == TAG_HEARTBEAT {
        Command::Heartbeat
    } else if tag == TAG_SET_HEATER_TARGET {
        let heater = match reader.read_string() {
            Ok(s) => s,
            Err(e) => return Err(e),
        };
        let target_milli_c = match reader.read_i64() {
            Ok(v) => v,
            Err(e) => return Err(e),
        };
        Command::SetHeaterTarget { heater, target_milli_c }
    } else if tag == TAG_HOME {
        let axis = match reader.read_string() {
            Ok(s) => s,
            Err(e) => return Err(e),
        };
        let rate_um_s = match reader.read_u64() {
            Ok(v) => v,
            Err(e) => return Err(e),
        };
        Command::Home { axis, rate_um_s }
    } else if tag == TAG_MOVE {
        let axis = match reader.read_string() {
            Ok(s) => s,
            Err(e) => return Err(e),
        };
        let distance_um = match reader.read_i64() {
            Ok(v) => v,
            Err(e) => return Err(e),
        };
        let rate_um_s = match reader.read_u64() {
            Ok(v) => v,
            Err(e) => return Err(e),
        };
        Command::Move { axis, distance_um, rate_um_s }
    } else {
        return Err(DecodeError::UnknownCommandTag { tag });
    };
    let remaining = reader.remaining();
    if remaining != 0 {
        return Err(DecodeError::TrailingPayloadBytes { count: remaining });
    }
    Ok(CommandEnvelope { execute_at, command })
}

/// Decode exactly one command frame.
///
/// Validation order is fixed: magic prefix, complete header, version/type,
/// payload bound, exact frame length, checksum, then payload semantics.
pub fn decode_command(input: &[u8]) -> (result: Result<CommandFrame, DecodeError>)
    ensures
        match spec_decode_command(input@) {
            Ok(model) => result matches Ok(frame) && frame_model(frame) == model,
            Err(e) => result == Err::<CommandFrame, DecodeError>(e),
        },
{
    let (sequence, payload_len) = match decode_header(input, COMMAND_MESSAGE_TYPE) {
        Ok(h) => h,
        Err(e) => return Err(e),
    };
    let payload = &input[HEADER_LEN..HEADER_LEN + payload_len];
    let envelope = match decode_payload(payload) {
        Ok(env) => env,
        Err(e) => return Err(e),
    };
    Ok(CommandFrame { sequence, envelope })
}

/// Decode exactly one queue-status frame.
///
/// Validation order is fixed: magic prefix, complete header, version/type,
/// payload bound, exact frame length, checksum, exact payload length, then
/// reserved and state flags.
pub fn decode_queue_status(input: &[u8]) -> (result: Result<QueueStatusFrame, DecodeError>)
    ensures
        result == spec_decode_queue_status(input@),
{
    let (sequence, payload_len) = match decode_header(input, QUEUE_STATUS_MESSAGE_TYPE) {
        Ok(h) => h,
        Err(e) => return Err(e),
    };
    if payload_len != QUEUE_STATUS_PAYLOAD_LEN {
        return Err(
            DecodeError::InvalidPayloadLength {
                expected: QUEUE_STATUS_PAYLOAD_LEN,
                actual: payload_len,
            },
        );
    }
    let payload = &input[HEADER_LEN..HEADER_LEN + payload_len];
    let mut reader = Reader::new(payload);
    let flags = match reader.read_u8() {
        Ok(f) => f,
        Err(e) => return Err(e),
    };
    if flags != 0 {
        return Err(DecodeError::InvalidFlags { flags });
    }
    let capacity = match reader.read_u16() {
        Ok(v) => v,
        Err(e) => return Err(e),
    };
    let fill = match reader.read_u16() {
        Ok(v) => v,
        Err(e) => return Err(e),
    };
    let earliest_accepted = match reader.read_u64() {
        Ok(v) => v,
        Err(e) => return Err(e),
    };
    let latest_accepted = match reader.read_u64() {
        Ok(v) => v,
        Err(e) => return Err(e),
    };
    let state_flags = match reader.read_u8() {
        Ok(v) => v,
        Err(e) => return Err(e),
    };
    assert((state_flags & !QUEUE_STATUS_FLAG_UNDERRUN != 0) == (state_flags
        > QUEUE_STATUS_FLAG_UNDERRUN)) by (bit_vector)
        requires
            QUEUE_STATUS_FLAG_UNDERRUN == 1u8,
    ;
    if state_flags & !QUEUE_STATUS_FLAG_UNDERRUN != 0 {
        return Err(DecodeError::InvalidStateFlags { flags: state_flags });
    }
    assert((state_flags & QUEUE_STATUS_FLAG_UNDERRUN != 0) == (state_flags
        == QUEUE_STATUS_FLAG_UNDERRUN)) by (bit_vector)
        requires
            state_flags <= 1u8,
            QUEUE_STATUS_FLAG_UNDERRUN == 1u8,
    ;
    Ok(
        QueueStatusFrame {
            sequence,
            status: QueueStatus {
                capacity,
                fill,
                earliest_accepted,
                latest_accepted,
                underrun: state_flags & QUEUE_STATUS_FLAG_UNDERRUN != 0,
            },
        },
    )
}

// ---------------------------------------------------------------------------
// Laws
// ---------------------------------------------------------------------------

proof fn lemma_read_le16_window(b: Seq<u8>, at: int, v: u16)
    requires
        0 <= at,
        at + 2 <= b.len(),
        b.subrange(at, at + 2) == le16(v),
    ensures
        read_le16(b, at) == v,
{
    lemma_le16_round_trip(v);
    assert(b[at] == b.subrange(at, at + 2)[0]);
    assert(b[at + 1] == b.subrange(at, at + 2)[1]);
}

proof fn lemma_read_le32_window(b: Seq<u8>, at: int, v: u32)
    requires
        0 <= at,
        at + 4 <= b.len(),
        b.subrange(at, at + 4) == le32(v),
    ensures
        read_le32(b, at) == v,
{
    lemma_le32_round_trip(v);
    let w = b.subrange(at, at + 4);
    assert(b[at] == w[0] && b[at + 1] == w[1] && b[at + 2] == w[2] && b[at + 3] == w[3]);
}

proof fn lemma_read_le64_window(b: Seq<u8>, at: int, v: u64)
    requires
        0 <= at,
        at + 8 <= b.len(),
        b.subrange(at, at + 8) == le64(v),
    ensures
        read_le64(b, at) == v,
{
    lemma_le64_round_trip(v);
    let w = b.subrange(at, at + 8);
    assert(b[at] == w[0] && b[at + 1] == w[1] && b[at + 2] == w[2] && b[at + 3] == w[3]);
    assert(b[at + 4] == w[4] && b[at + 5] == w[5] && b[at + 6] == w[6] && b[at + 7] == w[7]);
}

proof fn lemma_signed_round_trip(v: i64)
    ensures
        (v as u64) as i64 == v,
{
    assert((v as u64) as i64 == v) by (bit_vector);
}

proof fn lemma_unsigned_round_trip(v: u64)
    ensures
        (v as i64) as u64 == v,
{
    assert((v as i64) as u64 == v) by (bit_vector);
}

/// A string field inside a larger buffer decodes to its name.
proof fn lemma_decode_string_window(p: Seq<u8>, pos: int, name: Seq<char>)
    requires
        0 <= pos,
        encode_utf8(name).len() <= MAX_STRING_LEN,
        pos + string_field(name).len() <= p.len(),
        p.subrange(pos, pos + string_field(name).len()) == string_field(name),
    ensures
        decode_string_at(p, pos) == Ok::<(Seq<char>, int), DecodeError>(
            (name, pos + string_field(name).len()),
        ),
{
    let bytes = encode_utf8(name);
    let field = string_field(name);
    assert(p[pos] == field[0]);
    assert(p[pos] == bytes.len());
    assert(p.subrange(pos + 1, pos + 1 + p[pos]) =~= bytes) by {
        assert forall|i: int| 0 <= i < bytes.len() implies p.subrange(
            pos + 1,
            pos + 1 + p[pos],
        )[i] == bytes[i] by {
            assert(p[pos + 1 + i] == field[1 + i]);
        }
    }
    vstd::utf8::encode_utf8_valid_utf8(name);
    vstd::utf8::encode_utf8_decode_utf8(name);
}

/// A decoded string field is exactly the canonical field of its name.
proof fn lemma_decode_string_canonical(p: Seq<u8>, pos: int)
    requires
        0 <= pos,
        decode_string_at(p, pos) is Ok,
    ensures
        decode_string_at(p, pos) matches Ok((name, end)) && end == pos + string_field(name).len()
            && end <= p.len() && encode_utf8(name).len() <= MAX_STRING_LEN && p.subrange(pos, end)
            == string_field(name),
{
    let n = p[pos] as int;
    let bytes = p.subrange(pos + 1, pos + 1 + n);
    let name = decode_utf8(bytes);
    vstd::utf8::decode_utf8_encode_utf8(bytes);
    assert(encode_utf8(name) == bytes);
    assert(p.subrange(pos, pos + 1 + n) =~= string_field(name));
}

proof fn lemma_decode_u64_window(p: Seq<u8>, pos: int, v: u64)
    requires
        0 <= pos,
        pos + 8 <= p.len(),
        p.subrange(pos, pos + 8) == le64(v),
    ensures
        decode_u64_at(p, pos) == Ok::<(u64, int), DecodeError>((v, pos + 8)),
{
    lemma_read_le64_window(p, pos, v);
}

proof fn lemma_decode_u64_canonical(p: Seq<u8>, pos: int)
    requires
        0 <= pos,
        decode_u64_at(p, pos) is Ok,
    ensures
        decode_u64_at(p, pos) matches Ok((v, end)) && end == pos + 8 && end <= p.len()
            && p.subrange(pos, end) == le64(v),
{
    lemma_le64_canonical(p, pos);
}

/// A canonical command encoding inside a buffer decodes to that command.
proof fn lemma_decode_command_window(p: Seq<u8>, pos: int, command: CommandModel)
    requires
        0 <= pos <= p.len(),
        p.subrange(pos, p.len() as int) == command_bytes(command),
        command_name(command) matches Some(name) ==> encode_utf8(name).len() <= MAX_STRING_LEN,
    ensures
        decode_command_at(p, pos) == Ok::<(CommandModel, int), DecodeError>((command, p.len() as int)),
{
    let q = p.subrange(pos, p.len() as int);
    assert(q.len() >= 1) by {
        match command {
            CommandModel::Heartbeat => {},
            CommandModel::SetHeaterTarget { .. } => {},
            CommandModel::Home { .. } => {},
            CommandModel::Move { .. } => {},
        }
    }
    assert(p[pos] == q[0]);
    match command {
        CommandModel::Heartbeat => {
            assert(q.len() == 1);
        },
        CommandModel::SetHeaterTarget { heater, target_milli_c } => {
            let f = string_field(heater);
            let w = le64(target_milli_c as u64);
            let a = pos + 1;
            let b = a + f.len();
            assert(q =~= seq![TAG_SET_HEATER_TARGET] + f + w);
            assert(q.subrange(1, 1 + f.len() as int) =~= f);
            assert(q.subrange(1 + f.len() as int, (1 + f.len() + w.len()) as int) =~= w);
            lemma_window(p, pos, q, 1, f);
            lemma_window(p, pos, q, 1 + f.len() as int, w);
            lemma_decode_string_window(p, a, heater);
            lemma_decode_u64_window(p, b, target_milli_c as u64);
            lemma_signed_round_trip(target_milli_c);
        },
        CommandModel::Home { axis, rate_um_s } => {
            let f = string_field(axis);
            let w = le64(rate_um_s);
            let a = pos + 1;
            let b = a + f.len();
            assert(q =~= seq![TAG_HOME] + f + w);
            assert(q.subrange(1, 1 + f.len() as int) =~= f);
            assert(q.subrange(1 + f.len() as int, (1 + f.len() + w.len()) as int) =~= w);
            lemma_window(p, pos, q, 1, f);
            lemma_window(p, pos, q, 1 + f.len() as int, w);
            lemma_decode_string_window(p, a, axis);
            lemma_decode_u64_window(p, b, rate_um_s);
        },
        CommandModel::Move { axis, distance_um, rate_um_s } => {
            let f = string_field(axis);
            let w1 = le64(distance_um as u64);
            let w2 = le64(rate_um_s);
            let a = pos + 1;
            let b = a + f.len();
            assert(q =~= seq![TAG_MOVE] + f + w1 + w2);
            assert(q.subrange(1, 1 + f.len() as int) =~= f);
            assert(q.subrange(1 + f.len() as int, (1 + f.len() + w1.len()) as int) =~= w1);
            assert(q.subrange(9 + f.len() as int, (9 + f.len() + w2.len()) as int) =~= w2);
            lemma_window(p, pos, q, 1, f);
            lemma_window(p, pos, q, 1 + f.len() as int, w1);
            lemma_window(p, pos, q, 9 + f.len() as int, w2);
            lemma_decode_string_window(p, a, axis);
            lemma_decode_u64_window(p, b, distance_um as u64);
            lemma_signed_round_trip(distance_um);
            lemma_decode_u64_window(p, b + 8, rate_um_s);
        },
    }
}

/// A window of a window of `p` is a window of `p`.
proof fn lemma_window(p: Seq<u8>, pos: int, q: Seq<u8>, offset: int, w: Seq<u8>)
    requires
        0 <= pos,
        0 <= offset,
        pos + q.len() <= p.len(),
        offset + w.len() <= q.len(),
        p.subrange(pos, pos + q.len()) == q,
        q.subrange(offset, offset + w.len()) == w,
    ensures
        p.subrange(pos + offset, pos + offset + w.len()) == w,
{
    assert forall|i: int| 0 <= i < w.len() implies p.subrange(
        pos + offset,
        pos + offset + w.len(),
    )[i] == w[i] by {
        assert(p[pos + offset + i] == p.subrange(pos, pos + q.len())[offset + i]);
        assert(q[offset + i] == q.subrange(offset, offset + w.len())[i]);
    }
    assert(p.subrange(pos + offset, pos + offset + w.len()) =~= w);
}

/// A decoded command is exactly the canonical encoding of that command.
proof fn lemma_decode_command_canonical(p: Seq<u8>, pos: int)
    requires
        0 <= pos,
        decode_command_at(p, pos) is Ok,
    ensures
        decode_command_at(p, pos) matches Ok((command, end)) && pos <= end <= p.len()
            && p.subrange(pos, end) == command_bytes(command) && (command_name(command) matches Some(
            name) ==> encode_utf8(name).len() <= MAX_STRING_LEN),
{
    let tag = p[pos];
    if tag == TAG_HEARTBEAT {
        assert(p.subrange(pos, pos + 1) =~= seq![TAG_HEARTBEAT]);
    } else if tag == TAG_SET_HEATER_TARGET {
        lemma_decode_string_canonical(p, pos + 1);
        let (heater, q) = decode_string_at(p, pos + 1).unwrap();
        lemma_decode_u64_canonical(p, q);
        let (target, r) = decode_u64_at(p, q).unwrap();
        lemma_unsigned_round_trip(target);
        assert(p.subrange(pos, r) =~= seq![TAG_SET_HEATER_TARGET] + p.subrange(pos + 1, q)
            + p.subrange(q, r));
    } else if tag == TAG_HOME {
        lemma_decode_string_canonical(p, pos + 1);
        let (axis, q) = decode_string_at(p, pos + 1).unwrap();
        lemma_decode_u64_canonical(p, q);
        let (rate, r) = decode_u64_at(p, q).unwrap();
        assert(p.subrange(pos, r) =~= seq![TAG_HOME] + p.subrange(pos + 1, q) + p.subrange(q, r));
    } else {
        lemma_decode_string_canonical(p, pos + 1);
        let (axis, q) = decode_string_at(p, pos + 1).unwrap();
        lemma_decode_u64_canonical(p, q);
        let (distance, r) = decode_u64_at(p, q).unwrap();
        lemma_unsigned_round_trip(distance);
        lemma_decode_u64_canonical(p, r);
        let (rate, t) = decode_u64_at(p, r).unwrap();
        assert(p.subrange(pos, t) =~= seq![TAG_MOVE] + p.subrange(pos + 1, q) + p.subrange(q, r)
            + p.subrange(r, t));
    }
}

proof fn lemma_decode_payload_of_encoding(frame: FrameModel)
    requires
        frame_model_wf(frame),
    ensures
        spec_decode_payload(payload_bytes(frame)) == Ok::<
            (Option<u64>, CommandModel),
            DecodeError,
        >((frame.execute_at, frame.command)),
{
    let p = payload_bytes(frame);
    match frame.execute_at {
        Some(at) => {
            assert(p.subrange(1, 9) =~= le64(at));
            lemma_decode_u64_window(p, 1, at);
            assert(p.subrange(9, p.len() as int) =~= command_bytes(frame.command));
            lemma_decode_command_window(p, 9, frame.command);
        },
        None => {
            assert(p.subrange(1, p.len() as int) =~= command_bytes(frame.command));
            lemma_decode_command_window(p, 1, frame.command);
        },
    }
}

proof fn lemma_decode_payload_canonical(p: Seq<u8>)
    requires
        spec_decode_payload(p) is Ok,
    ensures
        spec_decode_payload(p) matches Ok((execute_at, command)) && p == payload_bytes(
            FrameModel { sequence: 0, execute_at, command },
        ) && frame_model_wf(FrameModel { sequence: 0, execute_at, command }),
{
    if p[0] == FLAG_EXECUTE_AT {
        lemma_decode_u64_canonical(p, 1);
        lemma_decode_command_canonical(p, 9);
        assert(p =~= seq![FLAG_EXECUTE_AT] + p.subrange(1, 9) + p.subrange(9, p.len() as int));
    } else {
        lemma_decode_command_canonical(p, 1);
        assert(p =~= seq![0u8] + p.subrange(1, p.len() as int));
    }
}

proof fn lemma_payload_length_bound(frame: FrameModel)
    requires
        frame_model_wf(frame),
    ensures
        payload_bytes(frame).len() <= 90,
{
}

/// The header of an encoded frame decodes to its sequence and payload
/// length, and the payload sits right after it.
proof fn lemma_decode_header_of_frame(message_type: u8, sequence: u32, payload: Seq<u8>)
    requires
        payload.len() <= MAX_PAYLOAD_LEN,
    ensures
        spec_decode_header(frame_bytes(message_type, sequence, payload), message_type) == Ok::<
            (u32, nat),
            DecodeError,
        >((sequence, payload.len())),
        frame_bytes(message_type, sequence, payload).subrange(
            HEADER_LEN as int,
            HEADER_LEN + payload.len(),
        ) == payload,
        frame_bytes(message_type, sequence, payload).len() == HEADER_LEN + payload.len()
            + CHECKSUM_LEN,
{
    let region = checked_region(message_type, sequence, payload);
    let bytes = frame_bytes(message_type, sequence, payload);
    let n = payload.len() as int;
    assert(bytes.subrange(4, 8) =~= le32(sequence));
    lemma_read_le32_window(bytes, 4, sequence);
    assert(bytes.subrange(8, 10) =~= le16(n as u16));
    lemma_read_le16_window(bytes, 8, n as u16);
    assert(bytes.subrange(2, 10 + n) =~= region);
    assert(bytes.subrange(10 + n, 14 + n) =~= le32(spec_crc32c(region)));
    lemma_read_le32_window(bytes, 10 + n, spec_crc32c(region));
    assert(bytes.subrange(10, 10 + n) =~= payload);
}

/// A frame whose header decodes is the canonical frame of its fields.
proof fn lemma_decode_header_canonical(input: Seq<u8>, message_type: u8)
    requires
        spec_decode_header(input, message_type) is Ok,
    ensures
        spec_decode_header(input, message_type) matches Ok((sequence, payload_len)) && input
            == frame_bytes(
            message_type,
            sequence,
            input.subrange(HEADER_LEN as int, HEADER_LEN + payload_len),
        ) && payload_len <= MAX_PAYLOAD_LEN,
{
    let (sequence, plen) = spec_decode_header(input, message_type).unwrap();
    let n = plen as int;
    let payload = input.subrange(10, 10 + n);
    lemma_le32_canonical(input, 4);
    lemma_le16_canonical(input, 8);
    lemma_le32_canonical(input, 10 + n);
    let region = checked_region(message_type, sequence, payload);
    assert(input.subrange(2, 10 + n) =~= region);
    assert(input =~= frame_bytes(message_type, sequence, payload));
}

/// Decoding inverts encoding: every command frame the codec can carry, once
/// encoded into a large enough buffer, decodes to exactly that frame.
pub proof fn command_frames_round_trip(frame: FrameModel, available: nat)
    requires
        frame_model_wf(frame),
        available >= MAX_FRAME_LEN,
    ensures
        spec_encode_command(frame, available) matches Ok(bytes) && spec_decode_command(bytes)
            == Ok::<FrameModel, DecodeError>(frame),
{
    lemma_payload_length_bound(frame);
    let payload = payload_bytes(frame);
    lemma_decode_header_of_frame(COMMAND_MESSAGE_TYPE, frame.sequence, payload);
    lemma_decode_payload_of_encoding(frame);
}

/// Whatever buffer a command frame was encoded into, the bytes an
/// accepted encoding produces fit both a maximum frame and that buffer,
/// start with the magic `DR`, the protocol version and the command message
/// type, carry at bytes 8 and 9 the little-endian payload length (the
/// frame less its header and checksum), and decode to the frame they came
/// from.
pub proof fn encoded_command_frames_decode_to_their_frame(frame: FrameModel, available: nat)
    ensures
        spec_encode_command(frame, available) matches Ok(bytes) ==> {
            &&& bytes.len() <= MAX_FRAME_LEN
            &&& bytes.len() <= available
            &&& bytes.len() >= HEADER_LEN + CHECKSUM_LEN
            &&& bytes.subrange(0, 4) == seq![0x44u8, 0x52u8, 1u8, 1u8]
            &&& bytes.subrange(8, 10) == le16((bytes.len() - HEADER_LEN - CHECKSUM_LEN) as u16)
            &&& spec_decode_command(bytes) == Ok::<FrameModel, DecodeError>(frame)
        },
{
    if spec_encode_command(frame, available) is Ok {
        command_frames_round_trip(frame, MAX_FRAME_LEN as nat);
        lemma_payload_length_bound(frame);
        let payload = payload_bytes(frame);
        let bytes = frame_bytes(COMMAND_MESSAGE_TYPE, frame.sequence, payload);
        assert(le32(frame.sequence).len() == 4);
        assert(le16(payload.len() as u16).len() == 2);
        assert(bytes.subrange(0, 4) =~= seq![0x44u8, 0x52u8, 1u8, 1u8]);
        assert(bytes.subrange(8, 10) =~= le16(payload.len() as u16));
        assert(payload.len() == bytes.len() - HEADER_LEN - CHECKSUM_LEN);
    }
}

/// Every accepted command frame is canonical: re-encoding what was decoded
/// reproduces the input bytes exactly.
pub proof fn decoded_command_frames_are_canonical(input: Seq<u8>)
    requires
        spec_decode_command(input) is Ok,
    ensures
        spec_decode_command(input) matches Ok(frame) && frame_model_wf(frame) && spec_encode_command(
            frame,
            input.len(),
        ) == Ok::<Seq<u8>, EncodeError>(input),
{
    lemma_decode_header_canonical(input, COMMAND_MESSAGE_TYPE);
    let (sequence, plen) = spec_decode_header(input, COMMAND_MESSAGE_TYPE).unwrap();
    let n = plen as int;
    let p = input.subrange(10, 10 + n);
    lemma_decode_payload_canonical(p);
    let (execute_at, command) = spec_decode_payload(p).unwrap();
    let frame = FrameModel { sequence, execute_at, command };
    assert(payload_bytes(frame) =~= payload_bytes(
        FrameModel { sequence: 0, execute_at, command },
    ));
}

/// Every queue status, once encoded into a large enough buffer, decodes to
/// exactly that status.
#[verifier::rlimit(50)]
pub proof fn queue_status_frames_round_trip(frame: QueueStatusFrame, available: nat)
    requires
        available >= QUEUE_STATUS_FRAME_LEN,
    ensures
        spec_encode_queue_status(frame, available) matches Ok(bytes) && spec_decode_queue_status(
            bytes,
        ) == Ok::<QueueStatusFrame, DecodeError>(frame),
{
    let p = queue_status_payload(frame.status);
    let bytes = frame_bytes(QUEUE_STATUS_MESSAGE_TYPE, frame.sequence, p);
    lemma_decode_header_of_frame(QUEUE_STATUS_MESSAGE_TYPE, frame.sequence, p);
    assert(p.len() == QUEUE_STATUS_PAYLOAD_LEN);
    assert(bytes.subrange(HEADER_LEN as int, HEADER_LEN + p.len()) == p);
    assert(p[0] == 0);
    assert(p[21] == (if frame.status.underrun {
        QUEUE_STATUS_FLAG_UNDERRUN
    } else {
        0u8
    }));
    assert(p.subrange(1, 3) =~= le16(frame.status.capacity));
    lemma_read_le16_window(p, 1, frame.status.capacity);
    assert(p.subrange(3, 5) =~= le16(frame.status.fill));
    lemma_read_le16_window(p, 3, frame.status.fill);
    assert(p.subrange(5, 13) =~= le64(frame.status.earliest_accepted));
    lemma_read_le64_window(p, 5, frame.status.earliest_accepted);
    assert(p.subrange(13, 21) =~= le64(frame.status.latest_accepted));
    lemma_read_le64_window(p, 13, frame.status.latest_accepted);
}

/// Every accepted queue-status frame is canonical.
pub proof fn decoded_queue_status_frames_are_canonical(input: Seq<u8>)
    requires
        spec_decode_queue_status(input) is Ok,
    ensures
        spec_decode_queue_status(input) matches Ok(frame) && spec_encode_queue_status(
            frame,
            input.len(),
        ) == Ok::<Seq<u8>, EncodeError>(input),
{
    lemma_decode_header_canonical(input, QUEUE_STATUS_MESSAGE_TYPE);
    let (sequence, plen) = spec_decode_header(input, QUEUE_STATUS_MESSAGE_TYPE).unwrap();
    let n = plen as int;
    let p = input.subrange(10, 10 + n);
    let frame = spec_decode_queue_status(input).unwrap();
    lemma_le16_canonical(p, 1);
    lemma_le16_canonical(p, 3);
    lemma_le64_canonical(p, 5);
    lemma_le64_canonical(p, 13);
    assert(p =~= queue_status_payload(frame.status));
}

/// A proper prefix of a frame with a valid header is short of it.
proof fn lemma_prefix_truncated(b: Seq<u8>, message_type: u8, k: int)
    requires
        spec_decode_header(b, message_type) is Ok,
        0 <= k < b.len(),
    ensures
        spec_decode_header(b.subrange(0, k), message_type) matches Err(DecodeError::Truncated { .. }),
{
    let p = b.subrange(0, k);
    if k >= 2 {
        assert(p[0] == b[0] && p[1] == b[1]);
        if k >= HEADER_LEN {
            assert(p[2] == b[2] && p[3] == b[3]);
            assert(p[8] == b[8] && p[9] == b[9]);
            assert(read_le16(p, 8) == read_le16(b, 8));
        }
    }
}

/// Every proper prefix of a valid command frame is reported as truncated,
/// never as another error.
pub proof fn proper_prefixes_of_command_frames_are_truncated(b: Seq<u8>, k: int)
    requires
        spec_decode_command(b) is Ok,
        0 <= k < b.len(),
    ensures
        spec_decode_command(b.subrange(0, k)) matches Err(DecodeError::Truncated { .. }),
{
    lemma_prefix_truncated(b, COMMAND_MESSAGE_TYPE, k);
}

/// Every proper prefix of a valid queue-status frame is reported as
/// truncated, never as another error.
pub proof fn proper_prefixes_of_queue_status_frames_are_truncated(b: Seq<u8>, k: int)
    requires
        spec_decode_queue_status(b) is Ok,
        0 <= k < b.len(),
    ensures
        spec_decode_queue_status(b.subrange(0, k)) matches Err(DecodeError::Truncated { .. }),
{
    lemma_prefix_truncated(b, QUEUE_STATUS_MESSAGE_TYPE, k);
}

} // verus!
