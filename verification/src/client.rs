//! Host-side sender and clock-exchange state for the controller protocol.
//!
//! The command client owns one fixed-size frame buffer. A sequence number is
//! consumed once a command has encoded successfully, even if the transport
//! rejects the resulting frame. Encoding failures do not consume a sequence.

use vstd::prelude::*;
use crate::clock_sync::{
    spec_push, ClockEstimate, ClockSample, ClockSync, ClockSyncError, ClockSyncState,
    ControllerTick, HostTick,
};
use crate::protocol::{
    decode_queue_status, encode_command, frame_model, spec_decode_queue_status,
    spec_encode_command, Command, CommandEnvelope, CommandFrame, DecodeError, EncodeError,
    QueueStatusFrame, Tick, MAX_FRAME_LEN,
};

verus! {

/// Decode and validate one complete controller queue-status observation.
pub fn decode_queue_status_frame(input: &[u8]) -> (result: Result<QueueStatusFrame, DecodeError>)
    ensures
        result == spec_decode_queue_status(input@),
{
    decode_queue_status(input)
}

/// A request for the controller's receive and send timestamps.
#[derive(Debug, Clone, Copy, PartialEq, Eq, Structural)]
pub struct ClockRequestFrame {
    pub sequence: u32,
}

/// The controller's timestamps for one clock request.
#[derive(Debug, Clone, Copy, PartialEq, Eq, Structural)]
pub struct ClockResponse {
    pub controller_receive: Tick,
    pub controller_send: Tick,
}

#[derive(Debug, Clone, Copy, PartialEq, Eq, Structural)]
pub struct ClockResponseFrame {
    pub sequence: u32,
    pub response: ClockResponse,
}

#[derive(Debug, Clone, Copy, PartialEq, Eq)]
pub enum ClockExchangeError {
    ExchangePending,
    NoExchangePending,
    SequenceMismatch { expected: u32, received: u32 },
    Decode(DecodeError),
    Sync(ClockSyncError),
}

/// A source of host ticks.
pub trait HostClock {
    fn now(&mut self) -> HostTick;
}

#[derive(Debug, Clone, Copy, PartialEq, Eq, Structural)]
pub struct ClockRequestReceipt {
    pub sequence: u32,
    pub frame_len: usize,
}

#[derive(Debug, Clone, Copy, PartialEq, Eq, Structural)]
pub struct ClockExchangeReceipt {
    pub sequence: u32,
    pub sample: ClockSample,
    pub estimate: Option<ClockEstimate>,
}

#[derive(Debug, Clone, Copy, PartialEq, Eq, Structural)]
pub struct ClockTimeout {
    pub sequence: u32,
}

/// Transport-agnostic state for one outstanding clock exchange.
///
/// The transport boundary calls `begin` with a timestamp captured just before
/// handing the request to the transport, then `complete` with a timestamp
/// captured just after receiving the full response. One sequence at most is
/// outstanding.
#[derive(Debug, Clone, Copy, PartialEq, Eq)]
pub struct ClockExchange {
    sync: ClockSync,
    next_sequence: u32,
    pending: Option<(u32, HostTick)>,
}

/// The abstract state of a [`ClockExchange`].
pub struct ClockExchangeState {
    pub sync: ClockSyncState,
    pub next_sequence: u32,
    pub pending: Option<(u32, HostTick)>,
}

impl View for ClockExchange {
    type V = ClockExchangeState;

    closed spec fn view(&self) -> ClockExchangeState {
        ClockExchangeState {
            sync: self.sync@,
            next_sequence: self.next_sequence,
            pending: self.pending,
        }
    }
}

pub open spec fn wrapping_successor(sequence: u32) -> u32 {
    if sequence == u32::MAX {
        0
    } else {
        (sequence + 1) as u32
    }
}

/// The sample an exchange assembles from its pending request and a response.
pub open spec fn exchange_sample(
    host_send: HostTick,
    host_receive: HostTick,
    response: ClockResponseFrame,
) -> ClockSample {
    ClockSample {
        host_send,
        controller_receive: ControllerTick(response.response.controller_receive),
        controller_send: ControllerTick(response.response.controller_send),
        host_receive,
    }
}

/// A call on a clock exchange.
pub enum ExchangeOp {
    Begin(HostTick),
    Complete(HostTick, ClockResponseFrame),
}

/// The state an exchange is left in by a call.
pub open spec fn exchange_after(s: ClockExchangeState, op: ExchangeOp) -> ClockExchangeState {
    match op {
        ExchangeOp::Begin(host_send) => if s.pending is Some {
            s
        } else {
            ClockExchangeState {
                pending: Some((s.next_sequence, host_send)),
                next_sequence: wrapping_successor(s.next_sequence),
                ..s
            }
        },
        ExchangeOp::Complete(host_receive, response) => match s.pending {
            None => s,
            Some((expected, host_send)) => if response.sequence != expected {
                s
            } else {
                match spec_push(s.sync, exchange_sample(host_send, host_receive, response)) {
                    Err(_) => s,
                    Ok(next) => ClockExchangeState { sync: next, pending: None, ..s },
                }
            },
        },
    }
}

/// The state after a sequence of calls.
pub open spec fn exchange_run(s: ClockExchangeState, ops: Seq<ExchangeOp>) -> ClockExchangeState
    decreases ops.len(),
{
    if ops.len() == 0 {
        s
    } else {
        exchange_after(exchange_run(s, ops.drop_last()), ops.last())
    }
}

/// How many calls of the sequence opened an exchange.
pub open spec fn accepted_begins(s: ClockExchangeState, ops: Seq<ExchangeOp>) -> nat
    decreases ops.len(),
{
    if ops.len() == 0 {
        0
    } else {
        accepted_begins(s, ops.drop_last()) + if ops.last() is Begin && exchange_run(s, ops.drop_last()).pending is None {
            1nat
        } else {
            0nat
        }
    }
}

/// After any sequence of calls, the next sequence number has advanced by
/// the number of begins that opened an exchange, wrapping at 2^32; every
/// other call leaves it unchanged.
pub proof fn exchange_sequence_counts_opened_exchanges(s: ClockExchangeState, ops: Seq<ExchangeOp>)
    ensures
        exchange_run(s, ops).next_sequence == (s.next_sequence + accepted_begins(s, ops)) % 0x1_0000_0000,
    decreases ops.len(),
{
    if ops.len() > 0 {
        exchange_sequence_counts_opened_exchanges(s, ops.drop_last());
        let before = exchange_run(s, ops.drop_last());
        let n = accepted_begins(s, ops.drop_last());
        assert(before.next_sequence == (s.next_sequence + n) % 0x1_0000_0000);
        if ops.last() is Begin && before.pending is None {
            assert((s.next_sequence + n + 1) % 0x1_0000_0000 == if before.next_sequence == u32::MAX {
                0
            } else {
                before.next_sequence + 1
            }) by (nonlinear_arith)
                requires
                    before.next_sequence == (s.next_sequence + n) % 0x1_0000_0000,
                    before.next_sequence <= u32::MAX,
            ;
        }
    }
}

impl ClockExchange {
    pub fn new(max_slew_ppb: i128) -> (result: Result<Self, ClockSyncError>)
        ensures
            max_slew_ppb < 0 ==> result == Err::<Self, ClockSyncError>(
                ClockSyncError::InvalidSlewBound,
            ),
            max_slew_ppb >= 0 ==> (result matches Ok(exchange) && exchange@.next_sequence == 0
                && exchange@.pending is None && exchange@.sync.max_slew_ppb == max_slew_ppb
                && exchange@.sync.estimate is None && exchange@.sync.previous is None
                && exchange@.sync.wf()),
    {
        let sync = match ClockSync::new(max_slew_ppb) {
            Ok(s) => s,
            Err(e) => return Err(e),
        };
        Ok(ClockExchange { sync, next_sequence: 0, pending: None })
    }

    /// Open an exchange at `host_send`; refused while another is outstanding.
    pub fn begin(&mut self, host_send: HostTick) -> (result: Result<
        ClockRequestFrame,
        ClockExchangeError,
    >)
        ensures
            old(self)@.pending is Some ==> result == Err::<ClockRequestFrame, ClockExchangeError>(
                ClockExchangeError::ExchangePending,
            ) && final(self)@ == old(self)@,
            old(self)@.pending is None ==> {
                &&& result == Ok::<ClockRequestFrame, ClockExchangeError>(
                    ClockRequestFrame { sequence: old(self)@.next_sequence },
                )
                &&& final(self)@.pending == Some((old(self)@.next_sequence, host_send))
                &&& final(self)@.next_sequence == wrapping_successor(old(self)@.next_sequence)
                &&& final(self)@.sync == old(self)@.sync
            },
            final(self)@ == exchange_after(old(self)@, ExchangeOp::Begin(host_send)),
    {
        if self.pending.is_some() {
            return Err(ClockExchangeError::ExchangePending);
        }
        let sequence = self.next_sequence;
        self.next_sequence = sequence.wrapping_add(1);
        self.pending = Some((sequence, host_send));
        Ok(ClockRequestFrame { sequence })
    }

    /// Close the outstanding exchange with the controller's response. A
    /// response that is unsolicited, for another sequence, or rejected by the
    /// estimator leaves the exchange unchanged.
    pub fn complete(&mut self, host_receive: HostTick, response: ClockResponseFrame) -> (result: Result<
        Option<ClockEstimate>,
        ClockExchangeError,
    >)
        ensures
            match old(self)@.pending {
                None => result == Err::<Option<ClockEstimate>, ClockExchangeError>(
                    ClockExchangeError::NoExchangePending,
                ) && final(self)@ == old(self)@,
                Some((expected, host_send)) => if response.sequence != expected {
                    result == Err::<Option<ClockEstimate>, ClockExchangeError>(
                        ClockExchangeError::SequenceMismatch {
                            expected,
                            received: response.sequence,
                        },
                    ) && final(self)@ == old(self)@
                } else {
                    match spec_push(
                        old(self)@.sync,
                        exchange_sample(host_send, host_receive, response),
                    ) {
                        Err(e) => result == Err::<Option<ClockEstimate>, ClockExchangeError>(
                            ClockExchangeError::Sync(e),
                        ) && final(self)@ == old(self)@,
                        Ok(next) => result == Ok::<Option<ClockEstimate>, ClockExchangeError>(
                            next.estimate,
                        ) && final(self)@.sync == next && final(self)@.pending is None
                            && final(self)@.next_sequence == old(self)@.next_sequence,
                    }
                },
            },
            final(self)@ == exchange_after(old(self)@, ExchangeOp::Complete(host_receive, response)),
    {
        let (expected, host_send) = match self.pending {
            Some(p) => p,
            None => return Err(ClockExchangeError::NoExchangePending),
        };
        if response.sequence != expected {
            return Err(
                ClockExchangeError::SequenceMismatch { expected, received: response.sequence },
            );
        }
        let sample = ClockSample {
            host_send,
            controller_receive: ControllerTick(response.response.controller_receive),
            controller_send: ControllerTick(response.response.controller_send),
            host_receive,
        };
        let estimate = match self.sync.push(sample) {
            Ok(e) => e,
            Err(e) => return Err(ClockExchangeError::Sync(e)),
        };
        self.pending = None;
        Ok(estimate)
    }

    pub fn estimate(&self) -> (result: Option<&ClockEstimate>)
        ensures
            result matches Some(e) ==> self@.sync.estimate == Some(*e),
            result is None ==> self@.sync.estimate is None,
    {
        self.sync.estimate()
    }

    pub fn next_sequence(&self) -> (sequence: u32)
        ensures
            sequence == self@.next_sequence,
    {
        self.next_sequence
    }

    pub fn pending_sequence(&self) -> (sequence: Option<u32>)
        ensures
            sequence == (match self@.pending {
                Some((s, _)) => Some(s),
                None => None::<u32>,
            }),
    {
        match self.pending {
            Some((sequence, _)) => Some(sequence),
            None => None,
        }
    }
}

/// A synchronous destination for one complete encoded frame.
pub trait FrameSink {
    type Error;

    fn send_frame(&mut self, frame: &[u8]) -> Result<(), Self::Error>;
}

/// Metadata for a command frame accepted by the sink.
#[derive(Debug, Clone, Copy, PartialEq, Eq, Structural)]
pub struct SendReceipt {
    pub sequence: u32,
    pub frame_len: usize,
}

/// A command that could not be encoded or delivered to the sink.
#[derive(Debug, Clone, PartialEq, Eq)]
pub enum SendError<E> {
    Encode(EncodeError),
    Transport(E),
}

/// A synchronous command sender backed by one fixed-size protocol buffer.
#[derive(Debug)]
pub struct CommandClient<S> {
    sink: S,
    next_sequence: u32,
    frame: Vec<u8>,
}

impl<S> CommandClient<S> {
    pub closed spec fn sequence(&self) -> u32 {
        self.next_sequence
    }

    pub closed spec fn wf(&self) -> bool {
        self.frame@.len() == MAX_FRAME_LEN
    }

    /// A client whose first frame uses sequence zero.
    pub fn new(sink: S) -> (client: Self)
        ensures
            client.sequence() == 0,
            client.wf(),
    {
        Self::with_initial_sequence(sink, 0)
    }

    /// A client whose first frame uses `next_sequence`.
    pub fn with_initial_sequence(sink: S, next_sequence: u32) -> (client: Self)
        ensures
            client.sequence() == next_sequence,
            client.wf(),
    {
        let mut frame: Vec<u8> = Vec::new();
        let mut i: usize = 0;
        while i < MAX_FRAME_LEN
            invariant
                i <= MAX_FRAME_LEN,
                frame@.len() == i,
            decreases MAX_FRAME_LEN - i,
        {
            frame.push(0);
            i = i + 1;
        }
        CommandClient { sink, next_sequence, frame }
    }

    pub fn next_sequence(&self) -> (sequence: u32)
        ensures
            sequence == self.sequence(),
    {
        self.next_sequence
    }

    pub fn sink(&self) -> &S {
        &self.sink
    }

    pub fn sink_mut(&mut self) -> (sink: &mut S)
        ensures
            final(self).sequence() == old(self).sequence(),
            final(self).wf() == old(self).wf(),
    {
        &mut self.sink
    }

    pub fn into_sink(self) -> S {
        self.sink
    }
}

impl<S: FrameSink> CommandClient<S> {
    /// Encode and synchronously send an immediate command.
    pub fn send(&mut self, command: Command) -> (result: Result<SendReceipt, SendError<S::Error>>)
        requires
            old(self).wf(),
        ensures
            final(self).wf(),
            sent(
                old(self).sequence(),
                final(self).sequence(),
                CommandFrame {
                    sequence: old(self).sequence(),
                    envelope: CommandEnvelope { execute_at: None, command },
                },
                result,
            ),
    {
        self.send_inner(None, command)
    }

    /// Encode and synchronously send a command carrying a controller timestamp.
    pub fn send_scheduled(&mut self, execute_at: Tick, command: Command) -> (result: Result<
        SendReceipt,
        SendError<S::Error>,
    >)
        requires
            old(self).wf(),
        ensures
            final(self).wf(),
            sent(
                old(self).sequence(),
                final(self).sequence(),
                CommandFrame {
                    sequence: old(self).sequence(),
                    envelope: CommandEnvelope { execute_at: Some(execute_at), command },
                },
                result,
            ),
    {
        self.send_inner(Some(execute_at), command)
    }

    fn send_inner(&mut self, execute_at: Option<Tick>, command: Command) -> (result: Result<
        SendReceipt,
        SendError<S::Error>,
    >)
        requires
            old(self).wf(),
        ensures
            final(self).wf(),
            sent(
                old(self).sequence(),
                final(self).sequence(),
                CommandFrame {
                    sequence: old(self).sequence(),
                    envelope: CommandEnvelope { execute_at, command },
                },
                result,
            ),
    {
        let sequence = self.next_sequence;
        let frame = CommandFrame { sequence, envelope: CommandEnvelope { execute_at, command } };
        let frame_len = match encode_command(&frame, self.frame.as_mut_slice()) {
            Ok(n) => n,
            Err(e) => return Err(SendError::Encode(e)),
        };
        // Encoding commits the sequence: delivery may be ambiguous after a
        // transport error, so a retry must use a new sequence number.
        self.next_sequence = self.next_sequence.wrapping_add(1);
        let bytes = &self.frame.as_slice()[0..frame_len];
        match self.sink.send_frame(bytes) {
            Ok(()) => Ok(SendReceipt { sequence, frame_len }),
            Err(e) => Err(SendError::Transport(e)),
        }
    }
}

/// The outcome of sending `frame` from a client whose sequence was `before`
/// and is now `after`: an encoding failure is returned and consumes nothing;
/// an encoded frame consumes its sequence whether or not the sink accepts it.
pub open spec fn sent<E>(
    before: u32,
    after: u32,
    frame: CommandFrame,
    result: Result<SendReceipt, SendError<E>>,
) -> bool {
    match spec_encode_command(frame_model(frame), MAX_FRAME_LEN as nat) {
        Err(e) => after == before && result == Err::<SendReceipt, SendError<E>>(
            SendError::Encode(e),
        ),
        Ok(bytes) => after == wrapping_successor(before) && (result == Ok::<
            SendReceipt,
            SendError<E>,
        >(SendReceipt { sequence: before, frame_len: bytes.len() as usize })
            || result matches Err(SendError::Transport(_))),
    }
}

} // verus!
