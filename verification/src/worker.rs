//! The decisions of the two ingest sub-tasks of a bound port. The caller
//! waits on the socket and on the cancel signal, reports what happened as
//! an event, and carries out the action that comes back.

use crate::handler::{dispatched, emitted, frame_value, Frame, StreamHandler};
use crate::packet::decoded;
use crate::reorder::{ReorderView, RtpPacketReOrder};
use vstd::prelude::*;

verus! {

/// Number of timestamp groups that an ingest buffer holds before a frame falls due.
pub const FRAME_LIMIT: usize = 3;

/// What the UDP sub-task's wait ended with.
pub enum UdpEvent {
    /// The cancel signal fired.
    Cancelled,
    /// Receiving failed.
    RecvFailed,
    /// A datagram arrived; these are its bytes.
    Datagram(Vec<u8>),
}

/// What the TCP sub-task's wait ended with.
pub enum TcpEvent {
    /// The cancel signal fired.
    Cancelled,
    /// Accepting a connection failed.
    AcceptFailed,
    /// A connection was accepted.
    Accepted,
    /// Reading the two-byte length failed, or the peer closed.
    LengthFailed,
    /// The big-endian length prefix that was read.
    Length(u16),
    /// Reading the announced bytes failed.
    BodyFailed,
    /// The bytes that were read after the length prefix.
    Body(Vec<u8>),
}

/// Where the TCP sub-task stands.
#[derive(Debug, Clone, Copy, PartialEq, Eq, Structural)]
pub enum TcpState {
    /// Waiting for a connection.
    Accepting,
    /// On a connection, waiting for a length prefix.
    ReadingLength,
    /// On a connection, waiting for `length` bytes.
    ReadingBody { length: u16 },
    /// Ended; nothing is waited for.
    Stopped,
}

/// What a sub-task is to wait for next.
#[derive(Debug, Clone, Copy, PartialEq, Eq, Structural)]
pub enum Wait {
    /// The next datagram.
    Datagram,
    /// The next connection; a connection that was open is closed.
    Connection,
    /// Two bytes of length on the open connection.
    Length,
    /// Exactly `length` bytes on the open connection.
    Body { length: u16 },
    /// Nothing: the sub-task ends.
    Nothing,
}

/// The outcome of one step: what to wait for, and the frame to emit.
#[derive(Debug)]
pub struct Step {
    pub wait: Wait,
    pub frame: Option<Frame>,
}

/// The state that follows `state` on `event`. Cancelling ends the sub-task
/// from any state. An event that the state does not wait for changes nothing.
pub open spec fn tcp_next(state: TcpState, event: TcpEvent) -> TcpState {
    match (state, event) {
        (TcpState::Stopped, _) => TcpState::Stopped,
        (_, TcpEvent::Cancelled) => TcpState::Stopped,
        (TcpState::Accepting, TcpEvent::Accepted) => TcpState::ReadingLength,
        (TcpState::ReadingLength, TcpEvent::LengthFailed) => TcpState::Accepting,
        (TcpState::ReadingLength, TcpEvent::Length(length)) => TcpState::ReadingBody { length },
        (TcpState::ReadingBody { .. }, TcpEvent::BodyFailed) => TcpState::Accepting,
        (TcpState::ReadingBody { .. }, TcpEvent::Body(bytes)) => if bytes@.len() == 0 {
            TcpState::Accepting
        } else {
            TcpState::ReadingLength
        },
        _ => state,
    }
}

/// What a TCP sub-task in `state` waits for.
pub open spec fn tcp_wait(state: TcpState) -> Wait {
    match state {
        TcpState::Accepting => Wait::Connection,
        TcpState::ReadingLength => Wait::Length,
        TcpState::ReadingBody { length } => Wait::Body { length },
        TcpState::Stopped => Wait::Nothing,
    }
}

/// The bytes that `event` brings to the buffer of a sub-task in `state`.
pub open spec fn tcp_payload(state: TcpState, event: TcpEvent) -> Option<Seq<u8>> {
    match (state, event) {
        (TcpState::ReadingBody { .. }, TcpEvent::Body(bytes)) if bytes@.len() > 0 => Some(bytes@),
        _ => None,
    }
}

/// The empty buffer that a sub-task starts with, for the given sink.
pub open spec fn fresh_buffer(sink: Seq<char>) -> ReorderView {
    ReorderView {
        min_timestamp: 0,
        limit_frames: FRAME_LIMIT,
        groups: Seq::empty(),
        sink: if sink.len() == 0 {
            None
        } else {
            Some(sink)
        },
    }
}

/// The UDP sub-task of a port: one reorder buffer for all datagrams.
pub struct UdpWorker {
    running: bool,
    reorder: RtpPacketReOrder,
}

/// The TCP sub-task of a port: one reorder buffer per connection.
pub struct TcpWorker {
    state: TcpState,
    reorder: RtpPacketReOrder,
}

impl UdpWorker {
    /// The sub-task has not ended.
    pub closed spec fn running(&self) -> bool {
        self.running
    }

    /// The value of the sub-task's reorder buffer.
    pub closed spec fn buffer(&self) -> ReorderView {
        self.reorder@
    }

    /// The reorder buffer is well formed.
    pub open spec fn wf(&self) -> bool {
        self.buffer().wf()
    }

    /// A running sub-task with an empty buffer whose sink is `udp.output.ps`.
    pub fn new() -> (w: Self)
        ensures
            w.wf(),
            w.running(),
            w.buffer() == fresh_buffer("udp.output.ps"@),
    {
        UdpWorker { running: true, reorder: RtpPacketReOrder::new(FRAME_LIMIT, "udp.output.ps") }
    }

    /// Whether the sub-task has not ended.
    pub fn is_running(&self) -> (r: bool)
        ensures
            r == self.running(),
    {
        self.running
    }

    /// The sink that emitted frames are appended to.
    pub fn sink(&self) -> (path: Option<&String>)
        ensures
            match path {
                Some(p) => self.buffer().sink == Some(p@),
                None => self.buffer().sink is None,
            },
    {
        self.reorder.sink()
    }

    /// One turn of the UDP loop. Cancelling and a failed receive end the
    /// sub-task. A datagram is decoded and dispatched; whether or not it was
    /// a packet, the sub-task goes on to the next datagram. Once ended, the
    /// sub-task stays ended and emits nothing.
    pub fn step(&mut self, handler: &StreamHandler, event: UdpEvent) -> (step: Step)
        requires
            old(self).wf(),
        ensures
            final(self).wf(),
            match event {
                UdpEvent::Datagram(bytes) if old(self).running() => {
                    &&& final(self).running()
                    &&& step.wait == Wait::Datagram
                    &&& final(self).buffer() == dispatched(old(self).buffer(), decoded(bytes@))
                    &&& frame_value(step.frame) == emitted(old(self).buffer(), decoded(bytes@))
                },
                _ => {
                    &&& !final(self).running()
                    &&& step.wait == Wait::Nothing
                    &&& final(self).buffer() == old(self).buffer()
                    &&& step.frame is None
                },
            },
    {
        if !self.running {
            return Step { wait: Wait::Nothing, frame: None };
        }
        match event {
            UdpEvent::Cancelled | UdpEvent::RecvFailed => {
                self.running = false;
                Step { wait: Wait::Nothing, frame: None }
            },
            UdpEvent::Datagram(bytes) => {
                let out = handler.on_rtp(bytes.as_slice(), &mut self.reorder);
                Step { wait: Wait::Datagram, frame: out.frame }
            },
        }
    }
}

impl TcpWorker {
    /// Where the sub-task stands.
    pub closed spec fn state(&self) -> TcpState {
        self.state
    }

    /// The value of the current connection's reorder buffer.
    pub closed spec fn buffer(&self) -> ReorderView {
        self.reorder@
    }

    /// The reorder buffer is well formed.
    pub open spec fn wf(&self) -> bool {
        self.buffer().wf()
    }

    /// A sub-task that waits for its first connection.
    pub fn new() -> (w: Self)
        ensures
            w.wf(),
            w.state() == TcpState::Accepting,
            w.buffer() == fresh_buffer("tcp.output.ps"@),
    {
        TcpWorker {
            state: TcpState::Accepting,
            reorder: RtpPacketReOrder::new(FRAME_LIMIT, "tcp.output.ps"),
        }
    }

    /// Where the sub-task stands.
    pub fn current(&self) -> (s: TcpState)
        ensures
            s == self.state(),
    {
        self.state
    }

    /// The sink that emitted frames are appended to.
    pub fn sink(&self) -> (path: Option<&String>)
        ensures
            match path {
                Some(p) => self.buffer().sink == Some(p@),
                None => self.buffer().sink is None,
            },
    {
        self.reorder.sink()
    }

    /// One turn of the TCP loops. The state moves as `tcp_next` says and the
    /// step names what the new state waits for. An accepted connection
    /// starts with an empty buffer. Bytes read after a length prefix are
    /// decoded and dispatched; an empty read closes the connection. In every
    /// other case the buffer stays as it was and no frame is emitted.
    pub fn step(&mut self, handler: &StreamHandler, event: TcpEvent) -> (step: Step)
        requires
            old(self).wf(),
        ensures
            final(self).wf(),
            final(self).state() == tcp_next(old(self).state(), event),
            step.wait == tcp_wait(final(self).state()),
            match tcp_payload(old(self).state(), event) {
                Some(bytes) => {
                    &&& final(self).buffer() == dispatched(old(self).buffer(), decoded(bytes))
                    &&& frame_value(step.frame) == emitted(old(self).buffer(), decoded(bytes))
                },
                None => {
                    &&& step.frame is None
                    &&& final(self).buffer() == if old(self).state() == TcpState::Accepting
                        && event is Accepted {
                        fresh_buffer("tcp.output.ps"@)
                    } else {
                        old(self).buffer()
                    }
                },
            },
    {
        match (self.state, event) {
            (TcpState::Stopped, _) => Step { wait: Wait::Nothing, frame: None },
            (_, TcpEvent::Cancelled) => {
                self.state = TcpState::Stopped;
                Step { wait: Wait::Nothing, frame: None }
            },
            (TcpState::Accepting, TcpEvent::Accepted) => {
                self.reorder = RtpPacketReOrder::new(FRAME_LIMIT, "tcp.output.ps");
                self.state = TcpState::ReadingLength;
                Step { wait: Wait::Length, frame: None }
            },
            (TcpState::Accepting, _) => Step { wait: Wait::Connection, frame: None },
            (TcpState::ReadingLength, TcpEvent::LengthFailed) => {
                self.state = TcpState::Accepting;
                Step { wait: Wait::Connection, frame: None }
            },
            (TcpState::ReadingLength, TcpEvent::Length(length)) => {
                self.state = TcpState::ReadingBody { length };
                Step { wait: Wait::Body { length }, frame: None }
            },
            (TcpState::ReadingLength, _) => Step { wait: Wait::Length, frame: None },
            (TcpState::ReadingBody { .. }, TcpEvent::BodyFailed) => {
                self.state = TcpState::Accepting;
                Step { wait: Wait::Connection, frame: None }
            },
            (TcpState::ReadingBody { .. }, TcpEvent::Body(bytes)) => {
                if bytes.len() == 0 {
                    self.state = TcpState::Accepting;
                    Step { wait: Wait::Connection, frame: None }
                } else {
                    let out = handler.on_rtp(bytes.as_slice(), &mut self.reorder);
                    self.state = TcpState::ReadingLength;
                    Step { wait: Wait::Length, frame: out.frame }
                }
            },
            (TcpState::ReadingBody { length }, _) => Step {
                wait: Wait::Body { length },
                frame: None,
            },
        }
    }

    /// Once the sub-task has ended, no event brings it back, changes its
    /// buffer or makes a frame due.
    pub proof fn lemma_stopped_stays_stopped(event: TcpEvent)
        ensures
            tcp_next(TcpState::Stopped, event) == TcpState::Stopped,
            tcp_wait(tcp_next(TcpState::Stopped, event)) == Wait::Nothing,
            tcp_payload(TcpState::Stopped, event) is None,
    {
    }

    /// Cancelling ends the sub-task from every state.
    pub proof fn lemma_cancel_stops(state: TcpState)
        ensures
            tcp_next(state, TcpEvent::Cancelled) == TcpState::Stopped,
    {
    }
}

} // verus!
