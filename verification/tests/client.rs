use dryer::client::{
    decode_queue_status_frame, ClockExchange, ClockExchangeError, ClockResponse,
    ClockResponseFrame, CommandClient, FrameSink, SendError,
};
use dryer::clock_sync::HostTick;
use dryer::protocol::{
    decode_command, encode_queue_status, Command, DecodeError, EncodeError, QueueStatus,
    QueueStatusFrame, Tick, MAX_FRAME_LEN, MAX_STRING_LEN, QUEUE_STATUS_FRAME_LEN,
};

#[derive(Debug, Default)]
struct RecordingSink {
    frames: Vec<Vec<u8>>,
}

impl FrameSink for RecordingSink {
    type Error = core::convert::Infallible;

    fn send_frame(&mut self, frame: &[u8]) -> Result<(), Self::Error> {
        self.frames.push(frame.to_vec());
        Ok(())
    }
}

#[test]
fn immediate_and_scheduled_commands_use_consecutive_sequences() {
    let mut client = CommandClient::with_initial_sequence(RecordingSink::default(), 41);

    let immediate = client
        .send(Command::Heartbeat)
        .expect("immediate command sends");
    let scheduled = client
        .send_scheduled(
            500_000,
            Command::Home {
                axis: "x".into(),
                rate_um_s: 10_000,
            },
        )
        .expect("scheduled command sends");

    assert_eq!(immediate.sequence, 41);
    assert_eq!(scheduled.sequence, 42);
    assert_eq!(client.next_sequence(), 43);
    assert!(immediate.frame_len <= MAX_FRAME_LEN);
    assert!(scheduled.frame_len <= MAX_FRAME_LEN);

    let frames = &client.sink().frames;
    let decoded_immediate = decode_command(&frames[0]).expect("immediate frame decodes");
    let decoded_scheduled = decode_command(&frames[1]).expect("scheduled frame decodes");
    assert_eq!(decoded_immediate.sequence, 41);
    assert_eq!(decoded_immediate.envelope.execute_at, None);
    assert_eq!(decoded_scheduled.sequence, 42);
    assert_eq!(decoded_scheduled.envelope.execute_at, Some(500_000));
}

#[test]
fn fixed_buffer_accepts_the_maximum_string_length() {
    let mut client = CommandClient::new(RecordingSink::default());
    let axis = "a".repeat(MAX_STRING_LEN);

    let receipt = client
        .send_scheduled(
            Tick::MAX,
            Command::Move {
                axis: axis.clone(),
                distance_um: i64::MIN,
                rate_um_s: u64::MAX,
            },
        )
        .expect("maximum command fits the fixed frame buffer");

    assert!(receipt.frame_len <= MAX_FRAME_LEN);
    let decoded = decode_command(&client.sink().frames[0]).expect("frame decodes");
    assert_eq!(
        decoded.envelope.command,
        Command::Move {
            axis,
            distance_um: i64::MIN,
            rate_um_s: u64::MAX,
        }
    );
}

#[test]
fn encode_failure_does_not_call_sink_or_advance_sequence() {
    let mut client = CommandClient::with_initial_sequence(RecordingSink::default(), 7);

    let error = client
        .send(Command::Home {
            axis: "a".repeat(MAX_STRING_LEN + 1),
            rate_um_s: 1,
        })
        .expect_err("overlong string is rejected");

    assert_eq!(
        error,
        SendError::Encode(EncodeError::StringTooLong {
            length: MAX_STRING_LEN + 1,
            maximum: MAX_STRING_LEN,
        })
    );
    assert_eq!(client.next_sequence(), 7);
    assert!(client.sink().frames.is_empty());
}

#[derive(Debug, Clone, Copy, PartialEq, Eq)]
struct SinkFailure;

#[derive(Debug, Default)]
struct FailingSink {
    calls: usize,
}

impl FrameSink for FailingSink {
    type Error = SinkFailure;

    fn send_frame(&mut self, _frame: &[u8]) -> Result<(), Self::Error> {
        self.calls += 1;
        Err(SinkFailure)
    }
}

#[test]
fn transport_failure_consumes_sequence() {
    let mut client = CommandClient::with_initial_sequence(FailingSink::default(), 9);

    let error = client
        .send(Command::Heartbeat)
        .expect_err("sink rejects frame");

    assert_eq!(error, SendError::Transport(SinkFailure));
    assert_eq!(client.next_sequence(), 10);
    assert_eq!(client.sink().calls, 1);
}

#[test]
fn sequence_wraps_after_u32_max() {
    let mut client = CommandClient::with_initial_sequence(RecordingSink::default(), u32::MAX);

    let last = client
        .send(Command::Heartbeat)
        .expect("last sequence sends");
    let first = client
        .send(Command::Heartbeat)
        .expect("wrapped sequence sends");

    assert_eq!(last.sequence, u32::MAX);
    assert_eq!(first.sequence, 0);
    assert_eq!(client.next_sequence(), 1);
}

#[test]
fn sink_accessors_preserve_ownership() {
    let mut client = CommandClient::new(RecordingSink::default());
    client.sink_mut().frames.push(vec![1, 2, 3]);
    let sink = client.into_sink();
    assert_eq!(sink.frames, [vec![1, 2, 3]]);
}

#[test]
fn queue_status_observation_decodes_through_client_api() {
    let expected = QueueStatusFrame {
        sequence: 17,
        status: QueueStatus {
            capacity: 64,
            fill: 12,
            earliest_accepted: 120_000,
            latest_accepted: 240_000,
            underrun: true,
        },
    };
    let mut encoded = [0; QUEUE_STATUS_FRAME_LEN];
    let length = encode_queue_status(&expected, &mut encoded).expect("queue status encodes");

    assert_eq!(decode_queue_status_frame(&encoded[..length]), Ok(expected));
}

#[test]
fn clock_exchange_correlates_sequence_and_feeds_estimator() {
    let mut exchange = ClockExchange::new(0).expect("valid slew bound");
    let request = exchange.begin(HostTick(100)).expect("request begins");
    assert_eq!(request.sequence, 0);
    let response = ClockResponseFrame {
        sequence: request.sequence,
        response: ClockResponse {
            controller_receive: 150,
            controller_send: 160,
        },
    };
    assert!(exchange
        .complete(HostTick(200), response)
        .expect("response completes")
        .is_none());
    assert_eq!(exchange.pending_sequence(), None);
}

#[test]
fn clock_exchange_rejects_unsolicited_and_mismatched_responses() {
    let mut exchange = ClockExchange::new(0).expect("valid slew bound");
    assert_eq!(
        exchange.complete(
            HostTick(1),
            ClockResponseFrame {
                sequence: 1,
                response: ClockResponse {
                    controller_receive: 1,
                    controller_send: 1
                },
            }
        ),
        Err(ClockExchangeError::NoExchangePending)
    );
    exchange.begin(HostTick(10)).expect("request begins");
    assert_eq!(
        exchange.complete(
            HostTick(20),
            ClockResponseFrame {
                sequence: 99,
                response: ClockResponse {
                    controller_receive: 11,
                    controller_send: 12
                },
            }
        ),
        Err(ClockExchangeError::SequenceMismatch {
            expected: 0,
            received: 99
        })
    );
    assert_eq!(exchange.pending_sequence(), Some(0));
}

#[test]
fn queue_status_decode_errors_propagate_unchanged() {
    assert_eq!(
        decode_queue_status_frame(b"DX"),
        Err(DecodeError::InvalidMagic { found: *b"DX" })
    );

    let frame = QueueStatusFrame {
        sequence: 1,
        status: QueueStatus {
            capacity: 8,
            fill: 2,
            earliest_accepted: 10,
            latest_accepted: 20,
            underrun: false,
        },
    };
    let mut encoded = [0; QUEUE_STATUS_FRAME_LEN];
    encode_queue_status(&frame, &mut encoded).expect("queue status encodes");
    encoded[10] ^= 0x80;

    assert!(matches!(
        decode_queue_status_frame(&encoded),
        Err(DecodeError::ChecksumMismatch { .. })
    ));
}
