use pyfmu_wrapper::protocol::{
    decode_command, decode_get_reply, decode_handshake, decode_status_reply, encode_command,
    encode_get_reply, encode_handshake, encode_status_reply, frame_message, read_frame_len,
    Command, Fmi2ValueKind, Fmi2Values,
};
use pyfmu_wrapper::status::Fmi2Status;

#[test]
fn frame_prefixes_the_length() {
    let framed = frame_message(&vec![1u8, 2, 3]);
    assert_eq!(framed, vec![3u8, 0, 0, 0, 1, 2, 3]);
    assert_eq!(read_frame_len(&vec![3u8, 0, 0, 0]), Some(3));
    assert_eq!(read_frame_len(&vec![3u8, 0, 0]), None);
}

#[test]
fn do_step_command_is_byte_exact() {
    let current = f64::to_bits(0.0);
    let step = f64::to_bits(10.0);
    let bytes = encode_command(&Command::DoStep {
        current_time: current,
        step_size: step,
        no_set_state_prior: false,
    });
    let mut expected = vec![8u8];
    expected.extend_from_slice(&current.to_le_bytes());
    expected.extend_from_slice(&step.to_le_bytes());
    expected.push(0);
    assert_eq!(bytes, expected);
}

#[test]
fn fixed_commands_are_one_opcode_byte() {
    assert_eq!(encode_command(&Command::EnterInitializationMode), vec![2u8]);
    assert_eq!(encode_command(&Command::ExitInitializationMode), vec![3u8]);
    assert_eq!(encode_command(&Command::Terminate), vec![4u8]);
    assert_eq!(encode_command(&Command::Reset), vec![5u8]);
    assert_eq!(encode_command(&Command::FreeInstance), vec![9u8]);
}

#[test]
fn commands_round_trip() {
    let commands = vec![
        Command::SetDebugLogging {
            categories: vec![b"logAll".to_vec()],
            logging_on: true,
        },
        Command::SetupExperiment {
            start_time: f64::to_bits(0.0),
            tolerance: None,
            stop_time: Some(f64::to_bits(1.5)),
        },
        Command::EnterInitializationMode,
        Command::ExitInitializationMode,
        Command::Terminate,
        Command::Reset,
        Command::SetValues {
            references: vec![0, 1],
            values: Fmi2Values::Real(vec![f64::to_bits(10.0), f64::to_bits(20.0)]),
        },
        Command::GetValues {
            kind: Fmi2ValueKind::Real,
            references: vec![0, 1, 2],
        },
        Command::SetValues {
            references: vec![4],
            values: Fmi2Values::Text(vec![b"hello".to_vec()]),
        },
        Command::SetValues {
            references: vec![5, 6],
            values: Fmi2Values::Integer(vec![-3, 7]),
        },
        Command::SetValues {
            references: vec![7],
            values: Fmi2Values::Boolean(vec![true]),
        },
        Command::DoStep {
            current_time: f64::to_bits(2.0),
            step_size: f64::to_bits(0.25),
            no_set_state_prior: true,
        },
        Command::FreeInstance,
    ];
    for c in commands {
        let bytes = encode_command(&c);
        assert_eq!(decode_command(&bytes), Some(c));
    }
}

#[test]
fn malformed_commands_are_rejected() {
    // Empty message, unknown opcode, trailing bytes, truncated payload.
    assert_eq!(decode_command(&vec![]), None);
    assert_eq!(decode_command(&vec![10u8]), None);
    assert_eq!(decode_command(&vec![2u8, 0]), None);
    assert_eq!(decode_command(&vec![8u8, 1, 2, 3]), None);
    // A boolean byte other than 0 or 1 is not canonical.
    let mut bytes = encode_command(&Command::DoStep {
        current_time: 0,
        step_size: 0,
        no_set_state_prior: false,
    });
    let last = bytes.len() - 1;
    bytes[last] = 2;
    assert_eq!(decode_command(&bytes), None);
}

#[test]
fn set_then_get_round_trips_values() {
    // The values set on references [0, 1] cross the wire unchanged in both
    // the set-command and the later get-reply.
    let bits = vec![f64::to_bits(10.0), f64::to_bits(20.0)];
    let set = Command::SetValues {
        references: vec![0, 1],
        values: Fmi2Values::Real(bits.clone()),
    };
    let on_the_wire = encode_command(&set);
    match decode_command(&on_the_wire) {
        Some(Command::SetValues { references, values }) => {
            assert_eq!(references, vec![0, 1]);
            assert_eq!(values, Fmi2Values::Real(bits.clone()));
        }
        other => panic!("unexpected decode: {:?}", other),
    }
    let reply = encode_get_reply(Fmi2Status::Fmi2OK, Some(Fmi2Values::Real(bits.clone())));
    let decoded = decode_get_reply(&reply, Fmi2ValueKind::Real);
    assert_eq!(
        decoded,
        Some((Fmi2Status::Fmi2OK, Some(Fmi2Values::Real(bits))))
    );
}

#[test]
fn computed_sum_reply_is_read_exactly() {
    // Reading the derived output after stepping: the reply carries 30.0.
    let reply = encode_get_reply(
        Fmi2Status::Fmi2OK,
        Some(Fmi2Values::Real(vec![f64::to_bits(30.0)])),
    );
    match decode_get_reply(&reply, Fmi2ValueKind::Real) {
        Some((Fmi2Status::Fmi2OK, Some(Fmi2Values::Real(values)))) => {
            assert_eq!(values.len(), 1);
            assert_eq!(f64::from_bits(values[0]), 30.0);
        }
        other => panic!("unexpected decode: {:?}", other),
    }
}

#[test]
fn severe_status_carries_no_values() {
    let reply = encode_get_reply(Fmi2Status::Fmi2Error, None);
    assert_eq!(
        decode_get_reply(&reply, Fmi2ValueKind::Real),
        Some((Fmi2Status::Fmi2Error, None))
    );
    let reply = encode_get_reply(Fmi2Status::Fmi2Discard, None);
    assert_eq!(
        decode_get_reply(&reply, Fmi2ValueKind::Integer),
        Some((Fmi2Status::Fmi2Discard, None))
    );
}

#[test]
fn values_beside_a_severe_status_are_a_protocol_error() {
    // Splice a value payload onto an error status by hand: the decoder must
    // treat the reply as desynchronized, not hand the values out.
    let bad = encode_get_reply(
        Fmi2Status::Fmi2Error,
        Some(Fmi2Values::Real(vec![f64::to_bits(1.0)])),
    );
    assert_eq!(decode_get_reply(&bad, Fmi2ValueKind::Real), None);
    // A success without values is just as desynchronized.
    let bare_ok = encode_get_reply(Fmi2Status::Fmi2OK, None);
    assert_eq!(decode_get_reply(&bare_ok, Fmi2ValueKind::Real), None);
}

#[test]
fn get_reply_of_the_wrong_kind_is_rejected() {
    let reply = encode_get_reply(
        Fmi2Status::Fmi2OK,
        Some(Fmi2Values::Integer(vec![1, 2])),
    );
    assert_eq!(decode_get_reply(&reply, Fmi2ValueKind::Real), None);
    assert_eq!(
        decode_get_reply(&reply, Fmi2ValueKind::Integer),
        Some((Fmi2Status::Fmi2OK, Some(Fmi2Values::Integer(vec![1, 2]))))
    );
}

#[test]
fn status_replies_round_trip() {
    for status in [
        Fmi2Status::Fmi2OK,
        Fmi2Status::Fmi2Warning,
        Fmi2Status::Fmi2Discard,
        Fmi2Status::Fmi2Error,
        Fmi2Status::Fmi2Fatal,
        Fmi2Status::Fmi2Pending,
    ] {
        let bytes = encode_status_reply(status);
        assert_eq!(bytes.len(), 4);
        assert_eq!(decode_status_reply(&bytes), Some(status));
    }
}

#[test]
fn malformed_status_replies_are_rejected() {
    // Too short, out-of-range code, trailing byte.
    assert_eq!(decode_status_reply(&vec![0u8, 0, 0]), None);
    assert_eq!(decode_status_reply(&vec![9u8, 0, 0, 0]), None);
    assert_eq!(decode_status_reply(&vec![0u8, 0, 0, 0, 0]), None);
}

#[test]
fn handshake_round_trips_and_rejects_garbage() {
    let payload = b"ready".to_vec();
    let msg = encode_handshake(&payload);
    assert_eq!(decode_handshake(&msg), Some(payload));
    // A length prefix that overruns the message is malformed.
    assert_eq!(decode_handshake(&vec![9u8, 0, 0, 0, 1]), None);
    // Trailing bytes after the payload are malformed.
    let mut long = encode_handshake(&b"x".to_vec());
    long.push(0);
    assert_eq!(decode_handshake(&long), None);
}
