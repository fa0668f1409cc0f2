//! Commands from user space.
//!
//! Every command begins with a one-byte type, and each type has a fixed payload size,
//! so that several commands can stand one after the other in one write.

use crate::bytes::{
    byte_range, le_bytes, le_decode_of_encode, le_encode_of_decode, lemma_byte_ranges,
    lemma_le_bytes_len, read_le,
};
use vstd::prelude::*;

verus! {

/// The type byte of a command.
#[derive(Clone, Copy, Debug, PartialEq, Eq, Structural)]
pub enum CommandType {
    Shutdown,
    Verdict,
    UpdateV4,
    UpdateV6,
    ClearCache,
    GetLogs,
    GetBandwidthStats,
    PrintMemoryStats,
    CleanEndedConnections,
}

/// Bytes that follow a `Verdict` type byte.
pub const VERDICT_PAYLOAD_SIZE: usize = 9;

/// Bytes that follow an `UpdateV4` type byte.
pub const UPDATE_V4_PAYLOAD_SIZE: usize = 14;

/// Bytes that follow an `UpdateV6` type byte.
pub const UPDATE_V6_PAYLOAD_SIZE: usize = 38;

/// Answers one pending decision request.
#[derive(Clone, Copy, Debug, PartialEq, Eq)]
pub struct Verdict {
    pub id: u64,
    pub verdict: u8,
}

/// Changes the verdict of a live IPv4 connection.
#[derive(Clone, Copy, Debug, PartialEq, Eq)]
pub struct UpdateV4 {
    pub protocol: u8,
    pub local_address: [u8; 4],
    pub local_port: u16,
    pub remote_address: [u8; 4],
    pub remote_port: u16,
    pub verdict: u8,
}

/// Changes the verdict of a live IPv6 connection.
#[derive(Clone, Copy, Debug, PartialEq, Eq)]
pub struct UpdateV6 {
    pub protocol: u8,
    pub local_address: [u8; 16],
    pub local_port: u16,
    pub remote_address: [u8; 16],
    pub remote_port: u16,
    pub verdict: u8,
}

/// A decoded command.
#[derive(Clone, Copy, Debug, PartialEq, Eq)]
pub enum Command {
    Shutdown,
    Verdict(Verdict),
    UpdateV4(UpdateV4),
    UpdateV6(UpdateV6),
    ClearCache,
    GetLogs,
    GetBandwidthStats,
    PrintMemoryStats,
    CleanEndedConnections,
}

/// Why no command could be decoded.
#[derive(Clone, Copy, Debug, PartialEq, Eq, Structural)]
pub enum CommandError {
    /// There is no type byte.
    Empty,
    /// The type byte names no command.
    UnknownType(u8),
    /// The payload is shorter than its type demands.
    Truncated { expected: usize, received: usize },
}

impl CommandType {
    /// The type byte.
    pub open spec fn spec_number(self) -> u8 {
        match self {
            CommandType::Shutdown => 0,
            CommandType::Verdict => 1,
            CommandType::UpdateV4 => 2,
            CommandType::UpdateV6 => 3,
            CommandType::ClearCache => 4,
            CommandType::GetLogs => 5,
            CommandType::GetBandwidthStats => 6,
            CommandType::PrintMemoryStats => 7,
            CommandType::CleanEndedConnections => 8,
        }
    }

    /// Bytes that follow the type byte.
    pub open spec fn spec_payload_size(self) -> usize {
        match self {
            CommandType::Verdict => VERDICT_PAYLOAD_SIZE,
            CommandType::UpdateV4 => UPDATE_V4_PAYLOAD_SIZE,
            CommandType::UpdateV6 => UPDATE_V6_PAYLOAD_SIZE,
            _ => 0,
        }
    }

    /// Returns the exact payload size following the one-byte command type.
    pub fn payload_size(self) -> (size: usize)
        ensures
            size == self.spec_payload_size(),
    {
        match self {
            CommandType::Shutdown
            | CommandType::ClearCache
            | CommandType::GetLogs
            | CommandType::GetBandwidthStats
            | CommandType::PrintMemoryStats
            | CommandType::CleanEndedConnections => 0,
            CommandType::Verdict => VERDICT_PAYLOAD_SIZE,
            CommandType::UpdateV4 => UPDATE_V4_PAYLOAD_SIZE,
            CommandType::UpdateV6 => UPDATE_V6_PAYLOAD_SIZE,
        }
    }

    /// The command with a given type byte.
    pub open spec fn spec_from_number(number: u8) -> Option<CommandType> {
        match number {
            0 => Some(CommandType::Shutdown),
            1 => Some(CommandType::Verdict),
            2 => Some(CommandType::UpdateV4),
            3 => Some(CommandType::UpdateV6),
            4 => Some(CommandType::ClearCache),
            5 => Some(CommandType::GetLogs),
            6 => Some(CommandType::GetBandwidthStats),
            7 => Some(CommandType::PrintMemoryStats),
            8 => Some(CommandType::CleanEndedConnections),
            _ => None,
        }
    }

    /// Returns the command with a given type byte.
    pub fn from_u8(value: u8) -> (command: Option<CommandType>)
        ensures
            command == CommandType::spec_from_number(value),
            command is Some <==> value <= 8,
            command matches Some(c) ==> c.spec_number() == value,
    {
        match value {
            0 => Some(CommandType::Shutdown),
            1 => Some(CommandType::Verdict),
            2 => Some(CommandType::UpdateV4),
            3 => Some(CommandType::UpdateV6),
            4 => Some(CommandType::ClearCache),
            5 => Some(CommandType::GetLogs),
            6 => Some(CommandType::GetBandwidthStats),
            7 => Some(CommandType::PrintMemoryStats),
            8 => Some(CommandType::CleanEndedConnections),
            _ => None,
        }
    }
}

impl Verdict {
    /// The payload that carries this verdict.
    pub open spec fn encoded(self) -> Seq<u8> {
        le_bytes(self.id as nat, 8) + seq![self.verdict]
    }
}

impl UpdateV4 {
    /// The payload that carries this update.
    pub open spec fn encoded(self) -> Seq<u8> {
        seq![self.protocol] + self.local_address@ + le_bytes(self.local_port as nat, 2)
            + self.remote_address@ + le_bytes(self.remote_port as nat, 2) + seq![self.verdict]
    }
}

impl UpdateV6 {
    /// The payload that carries this update.
    pub open spec fn encoded(self) -> Seq<u8> {
        seq![self.protocol] + self.local_address@ + le_bytes(self.local_port as nat, 2)
            + self.remote_address@ + le_bytes(self.remote_port as nat, 2) + seq![self.verdict]
    }
}

impl Command {
    /// The verdict that the command gives, if any.
    pub open spec fn verdict_number(self) -> Option<u8> {
        match self {
            Command::Verdict(v) => Some(v.verdict),
            Command::UpdateV4(u) => Some(u.verdict),
            Command::UpdateV6(u) => Some(u.verdict),
            _ => None,
        }
    }

    /// The command's type.
    pub open spec fn command_type(self) -> CommandType {
        match self {
            Command::Shutdown => CommandType::Shutdown,
            Command::Verdict(_) => CommandType::Verdict,
            Command::UpdateV4(_) => CommandType::UpdateV4,
            Command::UpdateV6(_) => CommandType::UpdateV6,
            Command::ClearCache => CommandType::ClearCache,
            Command::GetLogs => CommandType::GetLogs,
            Command::GetBandwidthStats => CommandType::GetBandwidthStats,
            Command::PrintMemoryStats => CommandType::PrintMemoryStats,
            Command::CleanEndedConnections => CommandType::CleanEndedConnections,
        }
    }

    /// The command's payload.
    pub open spec fn payload(self) -> Seq<u8> {
        match self {
            Command::Verdict(verdict) => verdict.encoded(),
            Command::UpdateV4(update) => update.encoded(),
            Command::UpdateV6(update) => update.encoded(),
            _ => Seq::empty(),
        }
    }

    /// The bytes of the whole command.
    pub open spec fn encoded(self) -> Seq<u8> {
        seq![self.command_type().spec_number()] + self.payload()
    }
}

/// Returns the command type encoded in the first byte, if the byte is known.
pub fn parse_type(bytes: &[u8]) -> (command: Option<CommandType>)
    ensures
        command is Some <==> bytes@.len() > 0 && bytes@[0] <= 8,
        command matches Some(c) ==> c.spec_number() == bytes@[0],
{
    if bytes.len() == 0 {
        None
    } else {
        CommandType::from_u8(bytes[0])
    }
}

/// Checks that a payload is exactly as long as its command demands.
pub fn has_valid_payload_length(command: CommandType, payload: &[u8]) -> (r: bool)
    ensures
        r == (payload@.len() == command.spec_payload_size()),
{
    payload.len() == command.payload_size()
}

fn read_u16_le(bytes: &[u8], offset: usize) -> (value: u16)
    requires
        offset + 2 <= bytes@.len(),
    ensures
        le_bytes(value as nat, 2) == bytes@.subrange(offset as int, offset + 2),
{
    proof {
        lemma_byte_ranges();
        le_encode_of_decode(bytes@.subrange(offset as int, offset + 2));
    }
    read_le(bytes, offset, 2) as u16
}

fn read_array4(bytes: &[u8], offset: usize) -> (value: [u8; 4])
    requires
        offset + 4 <= bytes@.len(),
    ensures
        value@ == bytes@.subrange(offset as int, offset + 4),
{
    assert(bytes@.len() == bytes.len());
    let value: [u8; 4] = [
        bytes[offset],
        bytes[offset + 1],
        bytes[offset + 2],
        bytes[offset + 3],
    ];
    assert(value@ =~= bytes@.subrange(offset as int, offset + 4));
    value
}

fn read_array16(bytes: &[u8], offset: usize) -> (value: [u8; 16])
    requires
        offset + 16 <= bytes@.len(),
    ensures
        value@ == bytes@.subrange(offset as int, offset + 16),
{
    assert(bytes@.len() == bytes.len());
    let value: [u8; 16] = [
        bytes[offset],
        bytes[offset + 1],
        bytes[offset + 2],
        bytes[offset + 3],
        bytes[offset + 4],
        bytes[offset + 5],
        bytes[offset + 6],
        bytes[offset + 7],
        bytes[offset + 8],
        bytes[offset + 9],
        bytes[offset + 10],
        bytes[offset + 11],
        bytes[offset + 12],
        bytes[offset + 13],
        bytes[offset + 14],
        bytes[offset + 15],
    ];
    assert(value@ =~= bytes@.subrange(offset as int, offset + 16));
    value
}

/// Decodes the payload of a `Verdict` command.
pub fn parse_verdict(bytes: &[u8]) -> (verdict: Option<Verdict>)
    ensures
        verdict is Some <==> bytes@.len() == VERDICT_PAYLOAD_SIZE,
        verdict matches Some(v) ==> v.encoded() == bytes@,
{
    if bytes.len() != VERDICT_PAYLOAD_SIZE {
        return None;
    }
    let id: u64 = read_le(bytes, 0, 8);
    let verdict = Verdict { id, verdict: bytes[8] };
    proof {
        le_encode_of_decode(bytes@.subrange(0, 8));
        assert(verdict.encoded() =~= bytes@);
    }
    Some(verdict)
}

/// Decodes the payload of an `UpdateV4` command.
pub fn parse_update_v4(bytes: &[u8]) -> (update: Option<UpdateV4>)
    ensures
        update is Some <==> bytes@.len() == UPDATE_V4_PAYLOAD_SIZE,
        update matches Some(u) ==> u.encoded() == bytes@,
{
    if bytes.len() != UPDATE_V4_PAYLOAD_SIZE {
        return None;
    }
    let update = UpdateV4 {
        protocol: bytes[0],
        local_address: read_array4(bytes, 1),
        local_port: read_u16_le(bytes, 5),
        remote_address: read_array4(bytes, 7),
        remote_port: read_u16_le(bytes, 11),
        verdict: bytes[13],
    };
    assert(update.encoded() =~= bytes@);
    Some(update)
}

/// Decodes the payload of an `UpdateV6` command.
pub fn parse_update_v6(bytes: &[u8]) -> (update: Option<UpdateV6>)
    ensures
        update is Some <==> bytes@.len() == UPDATE_V6_PAYLOAD_SIZE,
        update matches Some(u) ==> u.encoded() == bytes@,
{
    if bytes.len() != UPDATE_V6_PAYLOAD_SIZE {
        return None;
    }
    let update = UpdateV6 {
        protocol: bytes[0],
        local_address: read_array16(bytes, 1),
        local_port: read_u16_le(bytes, 17),
        remote_address: read_array16(bytes, 19),
        remote_port: read_u16_le(bytes, 35),
        verdict: bytes[37],
    };
    assert(update.encoded() =~= bytes@);
    Some(update)
}

/// Decodes the command that stands at the start of a buffer and returns it with its
/// length. What follows it in the buffer does not matter.
pub fn decode_command(bytes: &[u8]) -> (result: Result<(Command, usize), CommandError>)
    ensures
        match result {
            Ok((command, length)) => {
                &&& length == command.encoded().len()
                &&& length <= bytes@.len()
                &&& command.encoded() == bytes@.take(length as int)
            },
            Err(CommandError::Empty) => bytes@.len() == 0,
            Err(CommandError::UnknownType(byte)) => bytes@.len() > 0 && bytes@[0] == byte && byte
                > 8,
            Err(CommandError::Truncated { expected, received }) => {
                &&& bytes@.len() > 0
                &&& received == bytes@.len() - 1
                &&& received < expected
                &&& exists|t: CommandType| #[trigger]
                    t.spec_number() == bytes@[0] && t.spec_payload_size() == expected
            },
        },
{
    if bytes.len() == 0 {
        return Err(CommandError::Empty);
    }
    let command_type: CommandType = match CommandType::from_u8(bytes[0]) {
        Some(command_type) => command_type,
        None => {
            return Err(CommandError::UnknownType(bytes[0]));
        },
    };
    let expected: usize = command_type.payload_size();
    let received: usize = bytes.len() - 1;
    if received < expected {
        return Err(CommandError::Truncated { expected, received });
    }
    let length: usize = 1 + expected;
    let payload: &[u8] = vstd::slice::slice_subrange(bytes, 1, length);
    let decoded: Option<Command> = match command_type {
        CommandType::Shutdown => Some(Command::Shutdown),
        CommandType::Verdict => match parse_verdict(payload) {
            Some(verdict) => Some(Command::Verdict(verdict)),
            None => None,
        },
        CommandType::UpdateV4 => match parse_update_v4(payload) {
            Some(update) => Some(Command::UpdateV4(update)),
            None => None,
        },
        CommandType::UpdateV6 => match parse_update_v6(payload) {
            Some(update) => Some(Command::UpdateV6(update)),
            None => None,
        },
        CommandType::ClearCache => Some(Command::ClearCache),
        CommandType::GetLogs => Some(Command::GetLogs),
        CommandType::GetBandwidthStats => Some(Command::GetBandwidthStats),
        CommandType::PrintMemoryStats => Some(Command::PrintMemoryStats),
        CommandType::CleanEndedConnections => Some(Command::CleanEndedConnections),
    };
    match decoded {
        Some(command) => {
            assert(command.encoded() =~= bytes@.take(length as int));
            Ok((command, length))
        },
        None => Err(CommandError::Truncated { expected, received }),
    }
}

/// A command is as long as its type says.
pub proof fn command_length_is_fixed(command: Command)
    ensures
        command.encoded().len() == 1 + command.command_type().spec_payload_size(),
{
    match command {
        Command::Verdict(v) => {
            lemma_le_bytes_len(v.id as nat, 8);
        },
        Command::UpdateV4(u) => {
            lemma_le_bytes_len(u.local_port as nat, 2);
            lemma_le_bytes_len(u.remote_port as nat, 2);
        },
        Command::UpdateV6(u) => {
            lemma_le_bytes_len(u.local_port as nat, 2);
            lemma_le_bytes_len(u.remote_port as nat, 2);
        },
        _ => {},
    }
}

proof fn lemma_le_injective(x: nat, y: nat, n: nat)
    requires
        le_bytes(x, n) == le_bytes(y, n),
        x < byte_range(n),
        y < byte_range(n),
    ensures
        x == y,
{
    le_decode_of_encode(x, n);
    le_decode_of_encode(y, n);
}

/// Concatenated commands can be read in one way only: equal byte strings start with
/// the same command and go on with the same rest.
pub proof fn command_stream_is_unambiguous(a: Command, b: Command, rest_a: Seq<u8>, rest_b: Seq<u8>)
    requires
        a.encoded() + rest_a == b.encoded() + rest_b,
    ensures
        a == b,
        rest_a == rest_b,
{
    command_length_is_fixed(a);
    command_length_is_fixed(b);
    let whole = a.encoded() + rest_a;
    assert(whole[0] == a.command_type().spec_number());
    assert((b.encoded() + rest_b)[0] == b.command_type().spec_number());
    assert(a.command_type() == b.command_type());
    let n = a.encoded().len() as int;
    assert(whole.take(n) =~= a.encoded());
    assert((b.encoded() + rest_b).take(n) =~= b.encoded());
    assert(whole.skip(n) =~= rest_a);
    assert((b.encoded() + rest_b).skip(n) =~= rest_b);
    assert(a.encoded().skip(1) =~= a.payload());
    assert(b.encoded().skip(1) =~= b.payload());
    lemma_byte_ranges();
    match (a, b) {
        (Command::Verdict(v), Command::Verdict(w)) => {
            lemma_le_bytes_len(v.id as nat, 8);
            lemma_le_bytes_len(w.id as nat, 8);
            assert(v.encoded().take(8) =~= le_bytes(v.id as nat, 8));
            assert(w.encoded().take(8) =~= le_bytes(w.id as nat, 8));
            lemma_le_injective(v.id as nat, w.id as nat, 8);
            assert(v.encoded()[8] == v.verdict);
            assert(w.encoded()[8] == w.verdict);
        },
        (Command::UpdateV4(v), Command::UpdateV4(w)) => {
            lemma_le_bytes_len(v.local_port as nat, 2);
            lemma_le_bytes_len(w.local_port as nat, 2);
            lemma_le_bytes_len(v.remote_port as nat, 2);
            lemma_le_bytes_len(w.remote_port as nat, 2);
            assert(v.encoded()[0] == v.protocol && w.encoded()[0] == w.protocol);
            assert(v.encoded().subrange(1, 5) =~= v.local_address@);
            assert(w.encoded().subrange(1, 5) =~= w.local_address@);
            assert(v.encoded().subrange(5, 7) =~= le_bytes(v.local_port as nat, 2));
            assert(w.encoded().subrange(5, 7) =~= le_bytes(w.local_port as nat, 2));
            lemma_le_injective(v.local_port as nat, w.local_port as nat, 2);
            assert(v.encoded().subrange(7, 11) =~= v.remote_address@);
            assert(w.encoded().subrange(7, 11) =~= w.remote_address@);
            assert(v.encoded().subrange(11, 13) =~= le_bytes(v.remote_port as nat, 2));
            assert(w.encoded().subrange(11, 13) =~= le_bytes(w.remote_port as nat, 2));
            lemma_le_injective(v.remote_port as nat, w.remote_port as nat, 2);
            assert(v.encoded()[13] == v.verdict && w.encoded()[13] == w.verdict);
            lemma_array_eq(v.local_address, w.local_address);
            lemma_array_eq(v.remote_address, w.remote_address);
        },
        (Command::UpdateV6(v), Command::UpdateV6(w)) => {
            lemma_le_bytes_len(v.local_port as nat, 2);
            lemma_le_bytes_len(w.local_port as nat, 2);
            lemma_le_bytes_len(v.remote_port as nat, 2);
            lemma_le_bytes_len(w.remote_port as nat, 2);
            assert(v.encoded()[0] == v.protocol && w.encoded()[0] == w.protocol);
            assert(v.encoded().subrange(1, 17) =~= v.local_address@);
            assert(w.encoded().subrange(1, 17) =~= w.local_address@);
            assert(v.encoded().subrange(17, 19) =~= le_bytes(v.local_port as nat, 2));
            assert(w.encoded().subrange(17, 19) =~= le_bytes(w.local_port as nat, 2));
            lemma_le_injective(v.local_port as nat, w.local_port as nat, 2);
            assert(v.encoded().subrange(19, 35) =~= v.remote_address@);
            assert(w.encoded().subrange(19, 35) =~= w.remote_address@);
            assert(v.encoded().subrange(35, 37) =~= le_bytes(v.remote_port as nat, 2));
            assert(w.encoded().subrange(35, 37) =~= le_bytes(w.remote_port as nat, 2));
            lemma_le_injective(v.remote_port as nat, w.remote_port as nat, 2);
            assert(v.encoded()[37] == v.verdict && w.encoded()[37] == w.verdict);
            lemma_array_eq(v.local_address, w.local_address);
            lemma_array_eq(v.remote_address, w.remote_address);
        },
        _ => {},
    }
}

proof fn lemma_array_eq<const N: usize>(a: [u8; N], b: [u8; N])
    requires
        a@ == b@,
    ensures
        a == b,
{
    assert forall|i: int| 0 <= i < N implies a[i] == b[i] by {
        assert(a@[i] == b@[i]);
    }
    assert(a =~= b);
}

} // verus!
