//! The two byte streams between the driver and user space.

use crate::command::{
    command_length_is_fixed, command_stream_is_unambiguous, decode_command, Command, CommandError,
    CommandType,
};
use crate::connection::Verdict;
use crate::connection_map::earlier;
use crate::device::Device;
use crate::device_maintenance::{overdue_generations, UNESTABLISHED_TIMEOUT_MS};
use crate::device_state::DeviceView;
use crate::device_verdict::{read_update_key_v4, read_update_key_v6, update_key_v4, update_key_v6};
use crate::tcp_endpoint_cache::TcpEndpointConnection;
use crate::text::{decimal, push_decimal, push_text};
use vstd::prelude::*;
use vstd::slice::slice_subrange;
use vstd::utf8::encode_utf8;

verus! {

/// The verdict of a command, where it has one, is among the known ones.
pub open spec fn command_valid(command: Command) -> bool {
    match command {
        Command::Verdict(v) => Verdict::spec_from_number(v.verdict) is Some,
        Command::UpdateV4(u) => Verdict::spec_from_number(u.verdict) is Some,
        Command::UpdateV6(u) => Verdict::spec_from_number(u.verdict) is Some,
        _ => true,
    }
}

/// `t` is what a command makes of `s`.
pub open spec fn command_applied<H, C>(
    s: DeviceView<H, C>,
    t: DeviceView<H, C>,
    command: Command,
    now: u64,
) -> bool {
    match command {
        Command::Shutdown => t == s.shut_down(now),
        Command::Verdict(v) => Verdict::spec_from_number(v.verdict) matches Some(verdict) && t
            == s.verdict_applied(v.id, verdict, now),
        Command::UpdateV4(u) => Verdict::spec_from_number(u.verdict) matches Some(verdict) && t
            == s.update_applied(update_key_v4(u), verdict, now),
        Command::UpdateV6(u) => Verdict::spec_from_number(u.verdict) matches Some(verdict) && t
            == s.update_applied(update_key_v6(u), verdict, now),
        Command::ClearCache => t == s.caches_cleared(),
        Command::GetLogs => t == s.logs_reported(),
        Command::GetBandwidthStats => t == s.bandwidth_reported(),
        Command::PrintMemoryStats => exists|expired: Seq<TcpEndpointConnection>|
            overdue_generations(s.endpoints, earlier(now, UNESTABLISHED_TIMEOUT_MS), expired) && t
                == #[trigger] s.unestablished_ended(expired, now).sizes_recorded(),
        Command::CleanEndedConnections => exists|expired: Seq<TcpEndpointConnection>|
            overdue_generations(s.endpoints, earlier(now, UNESTABLISHED_TIMEOUT_MS), expired) && t
                == #[trigger] s.cleaned(expired, now),
    }
}

/// The command stands at `offset`.
pub open spec fn command_at(bytes: Seq<u8>, offset: int, command: Command) -> bool {
    let end = offset + command.encoded().len();
    end <= bytes.len() && command.encoded() == bytes.subrange(offset, end)
}

/// The command at `offset` is valid and makes `t` of `s`.
pub open spec fn command_step<H, C>(
    s: DeviceView<H, C>,
    t: DeviceView<H, C>,
    bytes: Seq<u8>,
    offset: int,
    command: Command,
    now: u64,
) -> bool {
    command_at(bytes, offset, command) && command_valid(command) && command_applied(
        s,
        t,
        command,
        now,
    )
}

/// No valid command stands at `offset`.
pub open spec fn no_command_at(bytes: Seq<u8>, offset: int) -> bool {
    forall|command: Command| #[trigger]
        command_at(bytes, offset, command) ==> !command_valid(command)
}

/// The log line about a command whose verdict is unknown.
pub open spec fn unknown_verdict(number: u8) -> Seq<u8> {
    encode_utf8("invalid verdict value: "@) + decimal(number as nat)
}

/// The log line about bytes that do not start with a valid command.
pub open spec fn rejection(rest: Seq<u8>) -> Seq<u8> {
    match CommandType::spec_from_number(rest[0]) {
        None => encode_utf8("Unknown command number: "@) + decimal(rest[0] as nat),
        Some(kind) => if rest.len() - 1 < kind.spec_payload_size() {
            encode_utf8("Invalid command payload length: expected "@) + decimal(
                kind.spec_payload_size() as nat,
            ) + encode_utf8(", received "@) + decimal((rest.len() - 1) as nat)
        } else {
            // The verdict is the last byte of a command that has one.
            unknown_verdict(rest[kind.spec_payload_size() as int])
        },
    }
}

/// A write stopped at `offset`, where no valid command stands.
pub open spec fn write_stopped<H, C>(
    s: DeviceView<H, C>,
    t: DeviceView<H, C>,
    bytes: Seq<u8>,
    offset: int,
) -> bool {
    no_command_at(bytes, offset) && t == s.with_error(rejection(bytes.skip(offset)))
}

/// Writing the bytes from `offset` on makes `t` of `s`: commands are applied in order until
/// the end or until no valid command follows, and the result is the place of that.
pub open spec fn written<H, C>(
    s: DeviceView<H, C>,
    t: DeviceView<H, C>,
    bytes: Seq<u8>,
    offset: int,
    now: u64,
    result: Result<(), usize>,
) -> bool
    decreases bytes.len() - offset,
{
    if offset >= bytes.len() {
        result is Ok && t == s
    } else {
        ||| result == Err::<(), usize>(offset as usize) && write_stopped(s, t, bytes, offset)
        ||| exists|command: Command, mid: DeviceView<H, C>|
            #[trigger] command_step(s, mid, bytes, offset, command, now) && written(
                mid,
                t,
                bytes,
                offset + command.encoded().len() as int,
                now,
                result,
            )
    }
}

impl<H, C> Device<H, C> {
    fn record_number(&mut self, text: &str, number: u8)
        requires
            old(self).wf(),
        ensures
            final(self).wf(),
            final(self)@ == old(self)@.with_error(
                encode_utf8(text@) + decimal(number as nat),
            ),
    {
        let mut line: Vec<u8> = Vec::new();
        push_text(&mut line, text);
        push_decimal(&mut line, number as u64);
        assert(line@ =~= encode_utf8(text@) + decimal(number as nat));
        self.record_error(line.as_slice());
    }

    /// Records why no command could be decoded.
    fn record_rejection(&mut self, error: CommandError)
        requires
            old(self).wf(),
        ensures
            final(self).wf(),
            final(self)@ == old(self)@.with_error(
                match error {
                    CommandError::Empty => encode_utf8("Rejecting empty command write"@),
                    CommandError::UnknownType(byte) => encode_utf8("Unknown command number: "@)
                        + decimal(byte as nat),
                    CommandError::Truncated { expected, received } => encode_utf8(
                        "Invalid command payload length: expected "@,
                    ) + decimal(expected as nat) + encode_utf8(", received "@) + decimal(
                        received as nat,
                    ),
                },
            ),
    {
        match error {
            CommandError::Empty => {
                let mut line: Vec<u8> = Vec::new();
                push_text(&mut line, "Rejecting empty command write");
                assert(line@ =~= encode_utf8("Rejecting empty command write"@));
                self.record_error(line.as_slice());
            },
            CommandError::UnknownType(byte) => {
                self.record_number("Unknown command number: ", byte);
            },
            CommandError::Truncated { expected, received } => {
                let mut line: Vec<u8> = Vec::new();
                push_text(&mut line, "Invalid command payload length: expected ");
                push_decimal(&mut line, expected as u64);
                push_text(&mut line, ", received ");
                push_decimal(&mut line, received as u64);
                assert(line@ =~= encode_utf8("Invalid command payload length: expected "@)
                    + decimal(expected as nat) + encode_utf8(", received "@) + decimal(
                    received as nat,
                ));
                self.record_error(line.as_slice());
            },
        }
    }

    /// Applies one command. A verdict that is not among the known ones is refused, and
    /// nothing but the log changes.
    pub fn apply_command(&mut self, command: &Command, now: u64) -> (accepted: bool)
        requires
            old(self).wf(),
        ensures
            final(self).wf(),
            accepted == command_valid(*command),
            accepted ==> command_applied(old(self)@, final(self)@, *command, now),
            !accepted ==> final(self)@ == old(self)@.with_error(
                unknown_verdict(command.verdict_number()->Some_0),
            ),
    {
        let ghost before = self@;
        match command {
            Command::Shutdown => {
                self.shutdown(now);
            },
            Command::Verdict(v) => {
                // The value is checked before the pending packet is consumed.
                match Verdict::from_u8(v.verdict) {
                    Some(verdict) => {
                        self.apply_verdict(v.id, verdict, now);
                    },
                    None => {
                        self.record_number("invalid verdict value: ", v.verdict);
                        return false;
                    },
                }
            },
            Command::UpdateV4(u) => {
                match Verdict::from_u8(u.verdict) {
                    Some(verdict) => {
                        self.apply_update(read_update_key_v4(u), verdict, now);
                    },
                    None => {
                        self.record_number("invalid verdict value: ", u.verdict);
                        return false;
                    },
                }
            },
            Command::UpdateV6(u) => {
                match Verdict::from_u8(u.verdict) {
                    Some(verdict) => {
                        self.apply_update(read_update_key_v6(u), verdict, now);
                    },
                    None => {
                        self.record_number("invalid verdict value: ", u.verdict);
                        return false;
                    },
                }
            },
            Command::ClearCache => {
                self.clear_cache();
            },
            Command::GetLogs => {
                self.report_logs();
            },
            Command::GetBandwidthStats => {
                self.report_bandwidth();
            },
            Command::PrintMemoryStats => {
                self.end_unestablished(now);
                let ghost middle = self@;
                self.record_sizes();
                proof {
                    let expired = choose|expired: Seq<TcpEndpointConnection>|
                        overdue_generations(
                            before.endpoints,
                            earlier(now, UNESTABLISHED_TIMEOUT_MS),
                            expired,
                        ) && middle == #[trigger] before.unestablished_ended(expired, now);
                    assert(self@ == before.unestablished_ended(expired, now).sizes_recorded());
                }
            },
            Command::CleanEndedConnections => {
                self.clean_ended_connections(now);
            },
        }
        true
    }

    /// Applies the commands from `offset` on.
    fn write_from(&mut self, bytes: &[u8], offset: usize, now: u64) -> (result: Result<(), usize>)
        requires
            old(self).wf(),
            offset <= bytes@.len(),
        ensures
            final(self).wf(),
            written(old(self)@, final(self)@, bytes@, offset as int, now, result),
        decreases bytes@.len() - offset,
    {
        if offset == bytes.len() {
            return Ok(());
        }
        let ghost before = self@;
        let rest = slice_subrange(bytes, offset, bytes.len());
        match decode_command(rest) {
            Ok((command, length)) => {
                assert(command.encoded().len() >= 1);
                assert(rest@.take(length as int) =~= bytes@.subrange(
                    offset as int,
                    offset + length,
                ));
                assert(command_at(bytes@, offset as int, command));
                if !self.apply_command(&command, now) {
                    proof {
                        assert forall|other: Command| #[trigger]
                            command_at(bytes@, offset as int, other) implies !command_valid(
                            other,
                        ) by {
                            lemma_same_command(bytes@, offset as int, command, other);
                        }
                        assert(rest@ =~= bytes@.skip(offset as int));
                        lemma_rejected_verdict(rest@, command);
                    }
                    return Err(offset);
                }
                let ghost middle = self@;
                let result = self.write_from(bytes, offset + length, now);
                assert(command_step(before, middle, bytes@, offset as int, command, now));
                result
            },
            Err(error) => {
                self.record_rejection(error);
                proof {
                    assert(rest@ =~= bytes@.skip(offset as int));
                    assert forall|other: Command| command_at(
                        bytes@,
                        offset as int,
                        other,
                    ) implies false by {
                        command_length_is_fixed(other);
                        assert(other.encoded()[0] == bytes@.subrange(
                            offset as int,
                            offset + other.encoded().len(),
                        )[0]);
                        assert(rest@[0] == other.command_type().spec_number());
                    }
                }
                Err(offset)
            },
        }
    }

    /// Applies the commands of one write in buffer order. An invalid command ends the
    /// write at its byte offset: every command before it has taken effect, and nothing
    /// from it on. An empty write is invalid.
    pub fn write(&mut self, buffer: &[u8], now: u64) -> (result: Result<(), usize>)
        requires
            old(self).wf(),
        ensures
            final(self).wf(),
            buffer@.len() == 0 ==> result == Err::<(), usize>(0) && final(self)@ == old(
                self,
            )@.with_error(encode_utf8("Rejecting empty command write"@)),
            buffer@.len() > 0 ==> written(old(self)@, final(self)@, buffer@, 0, now, result),
    {
        if buffer.len() == 0 {
            self.record_rejection(CommandError::Empty);
            return Err(0);
        }
        self.write_from(buffer, 0, now)
    }
}

/// The verdict of a command is its last byte.
proof fn lemma_rejected_verdict(rest: Seq<u8>, command: Command)
    requires
        command.encoded().len() <= rest.len(),
        command.encoded() == rest.take(command.encoded().len() as int),
        !command_valid(command),
    ensures
        rejection(rest) == unknown_verdict(command.verdict_number()->Some_0),
{
    command_length_is_fixed(command);
    let kind = command.command_type();
    let last = kind.spec_payload_size() as int;
    assert(rest[0] == rest.take(last + 1)[0]);
    assert(rest[last] == rest.take(last + 1)[last]);
    assert(CommandType::spec_from_number(kind.spec_number()) == Some(kind));
}

/// At most one command stands at one place.
pub proof fn lemma_same_command(bytes: Seq<u8>, offset: int, a: Command, b: Command)
    requires
        0 <= offset,
        command_at(bytes, offset, a),
        command_at(bytes, offset, b),
    ensures
        a == b,
{
    let tail = bytes.subrange(offset, bytes.len() as int);
    let rest_a = tail.skip(a.encoded().len() as int);
    let rest_b = tail.skip(b.encoded().len() as int);
    assert(a.encoded() + rest_a =~= tail);
    assert(b.encoded() + rest_b =~= tail);
    command_stream_is_unambiguous(a, b, rest_a, rest_b);
}

} // verus!
