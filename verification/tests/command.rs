//! The commands of user space.

use portmaster_kext::command::{
    decode_command, has_valid_payload_length, parse_type, parse_update_v4, parse_update_v6,
    parse_verdict, Command, CommandError, CommandType, UpdateV4, UpdateV6, Verdict,
    UPDATE_V4_PAYLOAD_SIZE, UPDATE_V6_PAYLOAD_SIZE, VERDICT_PAYLOAD_SIZE,
};

#[test]
fn rejects_empty_and_wrong_sized_payloads() {
    assert_eq!(parse_type(&[]), None);
    assert!(parse_verdict(&[0; VERDICT_PAYLOAD_SIZE - 1]).is_none());
    assert!(parse_verdict(&[0; VERDICT_PAYLOAD_SIZE + 1]).is_none());
    assert!(parse_update_v4(&[0; UPDATE_V4_PAYLOAD_SIZE - 1]).is_none());
    assert!(parse_update_v6(&[0; UPDATE_V6_PAYLOAD_SIZE - 1]).is_none());
    assert!(!has_valid_payload_length(CommandType::Shutdown, &[0]));
    assert!(has_valid_payload_length(CommandType::Shutdown, &[]));
}

#[test]
fn decodes_unaligned_little_endian_payload() {
    let mut storage = [0_u8; VERDICT_PAYLOAD_SIZE + 1];
    storage[1..].copy_from_slice(&[
        0x08, 0x07, 0x06, 0x05, 0x04, 0x03, 0x02, 0x01, 0x0a,
    ]);

    assert_eq!(
        parse_verdict(&storage[1..]),
        Some(Verdict {
            id: 0x0102_0304_0506_0708,
            verdict: 10,
        })
    );
}

#[test]
fn decodes_each_command_of_a_stream() {
    let mut stream: Vec<u8> = vec![0];
    stream.extend_from_slice(&[1, 1, 0, 0, 0, 0, 0, 0, 0, 2]);
    stream.extend_from_slice(&[2, 1, 1, 2, 3, 4, 2, 0, 2, 3, 4, 5, 3, 0, 4]);
    stream.push(3);
    stream.push(1);
    stream.extend_from_slice(&[1, 2, 3, 4, 5, 6, 7, 8, 9, 10, 11, 12, 13, 14, 15, 16]);
    stream.extend_from_slice(&[2, 0]);
    stream.extend_from_slice(&[2, 3, 4, 5, 6, 7, 8, 9, 10, 11, 12, 13, 14, 15, 16, 17]);
    stream.extend_from_slice(&[3, 0, 4]);
    stream.extend_from_slice(&[4, 5, 6, 7, 8]);

    let mut offset = 0;
    let mut commands = Vec::new();
    while offset < stream.len() {
        let (command, length) = decode_command(&stream[offset..]).expect("command");
        commands.push(command);
        offset += length;
    }
    assert_eq!(
        commands,
        vec![
            Command::Shutdown,
            Command::Verdict(Verdict { id: 1, verdict: 2 }),
            Command::UpdateV4(UpdateV4 {
                protocol: 1,
                local_address: [1, 2, 3, 4],
                local_port: 2,
                remote_address: [2, 3, 4, 5],
                remote_port: 3,
                verdict: 4,
            }),
            Command::UpdateV6(UpdateV6 {
                protocol: 1,
                local_address: [1, 2, 3, 4, 5, 6, 7, 8, 9, 10, 11, 12, 13, 14, 15, 16],
                local_port: 2,
                remote_address: [2, 3, 4, 5, 6, 7, 8, 9, 10, 11, 12, 13, 14, 15, 16, 17],
                remote_port: 3,
                verdict: 4,
            }),
            Command::ClearCache,
            Command::GetLogs,
            Command::GetBandwidthStats,
            Command::PrintMemoryStats,
            Command::CleanEndedConnections,
        ]
    );
}

#[test]
fn names_what_is_wrong_with_a_command() {
    assert_eq!(decode_command(&[]), Err(CommandError::Empty));
    assert_eq!(decode_command(&[9, 0]), Err(CommandError::UnknownType(9)));
    assert_eq!(
        decode_command(&[1, 0, 0]),
        Err(CommandError::Truncated {
            expected: 9,
            received: 2
        })
    );
}
