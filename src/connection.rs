//! The decisions of a message connection over a secure byte stream.
//!
//! A connection owns a carry-over buffer of plaintext that has been received
//! but not yet consumed by a decoded message, and the connection's state.
//! Receiving is a loop run by the caller: it decodes from `buffered()` and
//! reports the outcome with `on_decode`; when told to `Read`, it reads one
//! transport chunk, feeds it through the secure channel and reports what
//! happened with `on_read`; when told to `Decode`, it decodes again. Each
//! step is stated by a spec function over `ConnModel`, and `receive_model`
//! composes them into a whole receive.
use crate::codec::DecodeOutcome;
use vstd::prelude::*;

verus! {

/// The kinds of failure that sending and receiving report.
#[derive(Clone, Copy, Debug, PartialEq, Eq, Structural)]
pub enum ConnError {
    /// The message could not be encoded.
    Serialization,
    /// The buffered bytes do not start a valid message.
    Deserialization,
    /// The secure channel refused its input or could not wrap output.
    Channel,
    /// Reading or writing the raw transport failed.
    Transport,
    /// The peer ended the stream in an orderly way.
    ConnectionClosed,
}

/// Where a connection stands. `Closed` and `Faulted` are terminal.
#[derive(Clone, Copy, Debug, PartialEq, Eq, Structural)]
pub enum ConnState {
    Handshaking,
    Established,
    Closed,
    Faulted(ConnError),
}

/// What the caller of a receive step does next.
#[derive(Clone, Copy, Debug, PartialEq, Eq, Structural)]
pub enum Next {
    /// The message just decoded is the result of the receive.
    Deliver,
    /// Read one chunk from the transport and report it with `on_read`.
    Read,
    /// Decode again from `buffered()` and report it with `on_decode`.
    Decode,
    /// The receive fails with this error.
    Fail(ConnError),
}

/// The result of one transport read, after its bytes went through the
/// secure channel.
#[derive(Debug)]
pub enum ReadEvent {
    /// The read itself failed.
    Failed,
    /// The read returned no bytes: the peer ended the stream.
    EndOfStream,
    /// The secure channel refused the bytes read.
    Rejected,
    /// The channel took the bytes; it reports whether it is still
    /// negotiating, and hands out the plaintext it produced (maybe none).
    Fed { negotiating: bool, plaintext: Vec<u8> },
}

/// How an attempt to send a message ended.
#[derive(Clone, Copy, Debug, PartialEq, Eq, Structural)]
pub enum SendOutcome {
    /// Encoded, wrapped, written and flushed.
    Sent,
    /// The codec rejected the message.
    EncodeFailed,
    /// The secure channel could not wrap the bytes.
    WrapFailed,
    /// Writing or flushing the transport failed.
    WriteFailed,
}

/// The abstract value of a connection: its carry-over buffer and its state.
pub struct ConnModel {
    pub buffer: Seq<u8>,
    pub state: ConnState,
}

pub open spec fn is_terminal(s: ConnState) -> bool {
    s is Closed || s is Faulted
}

/// The error that a terminal connection keeps reporting.
pub open spec fn terminal_error(s: ConnState) -> ConnError {
    match s {
        ConnState::Faulted(e) => e,
        _ => ConnError::ConnectionClosed,
    }
}

pub open spec fn with_state(m: ConnModel, s: ConnState) -> ConnModel {
    ConnModel { buffer: m.buffer, state: s }
}

/// One decode attempt on the buffer, with the codec's outcome `o`.
/// A complete message drops exactly the bytes it consumed from the front; a
/// malformed buffer, or a codec that claims more bytes than are buffered,
/// faults the connection and keeps the buffer as it is.
pub open spec fn decode_step(m: ConnModel, o: DecodeOutcome) -> (ConnModel, Next) {
    if is_terminal(m.state) {
        (m, Next::Fail(terminal_error(m.state)))
    } else {
        match o {
            DecodeOutcome::Complete(n) => if n <= m.buffer.len() {
                (ConnModel { buffer: m.buffer.skip(n as int), state: m.state }, Next::Deliver)
            } else {
                (
                    with_state(m, ConnState::Faulted(ConnError::Deserialization)),
                    Next::Fail(ConnError::Deserialization),
                )
            },
            DecodeOutcome::Incomplete => (m, Next::Read),
            DecodeOutcome::Malformed => (
                with_state(m, ConnState::Faulted(ConnError::Deserialization)),
                Next::Fail(ConnError::Deserialization),
            ),
        }
    }
}

/// One transport read, reported as `ev`. The end of the stream closes the
/// connection unless a handshake is outstanding; plaintext is appended to the
/// buffer as a whole; while the channel negotiates, no decode is attempted.
pub open spec fn read_step(m: ConnModel, ev: ReadEvent) -> (ConnModel, Next) {
    if is_terminal(m.state) {
        (m, Next::Fail(terminal_error(m.state)))
    } else {
        match ev {
            ReadEvent::Failed => (
                with_state(m, ConnState::Faulted(ConnError::Transport)),
                Next::Fail(ConnError::Transport),
            ),
            ReadEvent::Rejected => (
                with_state(m, ConnState::Faulted(ConnError::Channel)),
                Next::Fail(ConnError::Channel),
            ),
            ReadEvent::EndOfStream => if m.state is Handshaking {
                (m, Next::Read)
            } else {
                (with_state(m, ConnState::Closed), Next::Fail(ConnError::ConnectionClosed))
            },
            ReadEvent::Fed { negotiating, plaintext } => if negotiating {
                (ConnModel { buffer: m.buffer + plaintext@, state: ConnState::Handshaking }, Next::Read)
            } else {
                (
                    ConnModel { buffer: m.buffer + plaintext@, state: ConnState::Established },
                    Next::Decode,
                )
            },
        }
    }
}

/// The end of a send attempt. The buffer is never touched; a channel or
/// transport failure faults the connection, a message the codec rejects
/// does not.
pub open spec fn send_step(m: ConnModel, o: SendOutcome) -> (ConnModel, Result<(), ConnError>) {
    if is_terminal(m.state) {
        (m, Err(terminal_error(m.state)))
    } else {
        match o {
            SendOutcome::Sent => (m, Ok(())),
            SendOutcome::EncodeFailed => (m, Err(ConnError::Serialization)),
            SendOutcome::WrapFailed => (
                with_state(m, ConnState::Faulted(ConnError::Channel)),
                Err(ConnError::Channel),
            ),
            SendOutcome::WriteFailed => (
                with_state(m, ConnState::Faulted(ConnError::Transport)),
                Err(ConnError::Transport),
            ),
        }
    }
}

/// Runs a receive on the model: decode first when `decode_first` holds, else
/// read first, taking the transport's reads from `reads` in order and the
/// codec's judgement of a buffer from `dec`. The result is the final model,
/// the last decision (`Read` when `reads` ran out first) and how many reads
/// were taken.
pub open spec fn drive(
    m: ConnModel,
    dec: spec_fn(Seq<u8>) -> DecodeOutcome,
    reads: Seq<ReadEvent>,
    decode_first: bool,
) -> (ConnModel, Next, nat)
    decreases reads.len(), (if decode_first {
        1nat
    } else {
        0nat
    }),
{
    if decode_first {
        let (m1, n1) = decode_step(m, dec(m.buffer));
        if n1 is Read {
            drive(m1, dec, reads, false)
        } else {
            (m1, n1, 0)
        }
    } else if reads.len() == 0 {
        (m, Next::Read, 0)
    } else {
        let (m2, n2) = read_step(m, reads[0]);
        if n2 is Read || n2 is Decode {
            let r = drive(m2, dec, reads.drop_first(), n2 is Decode);
            (r.0, r.1, r.2 + 1)
        } else {
            (m2, n2, 1)
        }
    }
}

/// A whole receive: the buffered bytes are decoded before any read.
pub open spec fn receive_model(
    m: ConnModel,
    dec: spec_fn(Seq<u8>) -> DecodeOutcome,
    reads: Seq<ReadEvent>,
) -> (ConnModel, Next, nat) {
    drive(m, dec, reads, true)
}

/// `k` receives with no transport read available: the model after them and
/// the bytes of each message delivered, in order. It stops at the first
/// receive that does not deliver.
pub open spec fn receive_buffered(
    m: ConnModel,
    dec: spec_fn(Seq<u8>) -> DecodeOutcome,
    k: nat,
) -> (ConnModel, Seq<Seq<u8>>)
    decreases k,
{
    if k == 0 {
        (m, Seq::empty())
    } else {
        let r = receive_model(m, dec, Seq::empty());
        if r.1 is Deliver {
            let msg = m.buffer.take(m.buffer.len() - r.0.buffer.len());
            let rest = receive_buffered(r.0, dec, (k - 1) as nat);
            (rest.0, seq![msg] + rest.1)
        } else {
            (r.0, Seq::empty())
        }
    }
}

/// `e` is exactly one encoded message for the codec judged by `dec`: it
/// decodes whatever follows it, consuming `e`, and each proper prefix of it
/// is incomplete.
pub open spec fn delimits(dec: spec_fn(Seq<u8>) -> DecodeOutcome, e: Seq<u8>) -> bool {
    &&& e.len() <= usize::MAX
    &&& forall|t: Seq<u8>| #[trigger] dec(e + t) == DecodeOutcome::Complete(e.len() as usize)
    &&& forall|k: int| 0 <= k < e.len() ==> #[trigger] dec(e.take(k)) == DecodeOutcome::Incomplete
}

pub open spec fn all_delimit(dec: spec_fn(Seq<u8>) -> DecodeOutcome, frames: Seq<Seq<u8>>) -> bool {
    forall|i: int| 0 <= i < frames.len() ==> delimits(dec, #[trigger] frames[i])
}

/// `ev` is a read whose chunk the channel took, out of negotiation or not,
/// producing the plaintext `p`.
pub open spec fn fed(ev: ReadEvent, negotiating: bool, p: Seq<u8>) -> bool {
    ev matches ReadEvent::Fed { negotiating: n, plaintext } && n == negotiating && plaintext@ == p
}

/// A message connection: the carry-over buffer and the state.
#[derive(Debug)]
pub struct MessageConnection {
    buffer: Vec<u8>,
    state: ConnState,
}

impl View for MessageConnection {
    type V = ConnModel;

    closed spec fn view(&self) -> ConnModel {
        ConnModel { buffer: self.buffer@, state: self.state }
    }
}

impl MessageConnection {
    /// A connection with an empty buffer, handshaking if its channel is
    /// still negotiating.
    pub fn new(negotiating: bool) -> (r: Self)
        ensures
            r@.buffer == Seq::<u8>::empty(),
            r@.state == (if negotiating {
                ConnState::Handshaking
            } else {
                ConnState::Established
            }),
    {
        let state = if negotiating {
            ConnState::Handshaking
        } else {
            ConnState::Established
        };
        MessageConnection { buffer: Vec::new(), state }
    }

    /// The plaintext received and not yet consumed: what the codec decodes.
    pub fn buffered(&self) -> (r: &[u8])
        ensures
            r@ == self@.buffer,
    {
        self.buffer.as_slice()
    }

    pub fn state(&self) -> (r: ConnState)
        ensures
            r == self@.state,
    {
        self.state
    }

    /// `Ok` while the connection may be used, else the error it ended with.
    pub fn status(&self) -> (r: Result<(), ConnError>)
        ensures
            r == (if is_terminal(self@.state) {
                Err(terminal_error(self@.state))
            } else {
                Ok(())
            }),
    {
        match self.state {
            ConnState::Closed => Err(ConnError::ConnectionClosed),
            ConnState::Faulted(e) => Err(e),
            _ => Ok(()),
        }
    }

    /// Takes the codec's outcome on `buffered()`.
    pub fn on_decode(&mut self, o: DecodeOutcome) -> (r: Next)
        ensures
            (final(self)@, r) == decode_step(old(self)@, o),
    {
        if let Err(e) = self.status() {
            return Next::Fail(e);
        }
        match o {
            DecodeOutcome::Complete(n) => {
                if n <= self.buffer.len() {
                    let rest = self.buffer.split_off(n);
                    self.buffer = rest;
                    Next::Deliver
                } else {
                    self.state = ConnState::Faulted(ConnError::Deserialization);
                    Next::Fail(ConnError::Deserialization)
                }
            },
            DecodeOutcome::Incomplete => Next::Read,
            DecodeOutcome::Malformed => {
                self.state = ConnState::Faulted(ConnError::Deserialization);
                Next::Fail(ConnError::Deserialization)
            },
        }
    }

    /// Takes the result of one transport read.
    pub fn on_read(&mut self, ev: ReadEvent) -> (r: Next)
        ensures
            (final(self)@, r) == read_step(old(self)@, ev),
    {
        if let Err(e) = self.status() {
            return Next::Fail(e);
        }
        match ev {
            ReadEvent::Failed => {
                self.state = ConnState::Faulted(ConnError::Transport);
                Next::Fail(ConnError::Transport)
            },
            ReadEvent::Rejected => {
                self.state = ConnState::Faulted(ConnError::Channel);
                Next::Fail(ConnError::Channel)
            },
            ReadEvent::EndOfStream => {
                if let ConnState::Handshaking = self.state {
                    Next::Read
                } else {
                    self.state = ConnState::Closed;
                    Next::Fail(ConnError::ConnectionClosed)
                }
            },
            ReadEvent::Fed { negotiating, mut plaintext } => {
                self.buffer.append(&mut plaintext);
                if negotiating {
                    self.state = ConnState::Handshaking;
                    Next::Read
                } else {
                    self.state = ConnState::Established;
                    Next::Decode
                }
            },
        }
    }

    /// Takes how a send attempt ended.
    pub fn on_send(&mut self, o: SendOutcome) -> (r: Result<(), ConnError>)
        ensures
            (final(self)@, r) == send_step(old(self)@, o),
    {
        self.status()?;
        match o {
            SendOutcome::Sent => Ok(()),
            SendOutcome::EncodeFailed => Err(ConnError::Serialization),
            SendOutcome::WrapFailed => {
                self.state = ConnState::Faulted(ConnError::Channel);
                Err(ConnError::Channel)
            },
            SendOutcome::WriteFailed => {
                self.state = ConnState::Faulted(ConnError::Transport);
                Err(ConnError::Transport)
            },
        }
    }
}

} // verus!
