//! The decisions of one client session, from its first byte to its close.
//!
//! A session reads the client's handshake, picks a backend by the virtual
//! host it names, connects, replays the bytes read so far to the backend and
//! then relays bytes both ways until either side is done. The caller owns
//! the sockets: it performs each [`Action`] and reports back an [`Event`].

use vstd::prelude::*;
use vstd::utf8::encode_utf8;
use crate::capture::{capture_step, CaptureModel, CaptureStep, HandshakeCapture, MAX_HANDSHAKE_BYTES};
use crate::codec::{disconnect_frame, encode_disconnect, handshake_frame, lemma_frame_within, Parsed};
use crate::route::{route_of, RouteTable};

verus! {

/// Why a connection to the backend could not be opened.
#[derive(Debug, Clone, Copy, PartialEq, Eq, Structural)]
pub enum ConnectFailure {
    Refused,
    TimedOut,
    Other,
}

/// The text sent to the client when the backend cannot be reached.
pub open spec fn failure_text(f: ConnectFailure) -> Seq<char> {
    match f {
        ConnectFailure::Refused => "Gateway refused connection"@,
        ConnectFailure::TimedOut => "Gateway timed out"@,
        ConnectFailure::Other => "Unknown error"@,
    }
}

/// The text sent to the client when the backend drops the handshake.
pub open spec fn dropped_text() -> Seq<char> {
    "Gateway disconnected"@
}

impl ConnectFailure {
    /// The text that tells the client of this failure.
    pub fn reason(self) -> (r: &'static str)
        ensures
            r@ == failure_text(self),
    {
        match self {
            ConnectFailure::Refused => "Gateway refused connection",
            ConnectFailure::TimedOut => "Gateway timed out",
            ConnectFailure::Other => "Unknown error",
        }
    }
}

/// Where a session stands.
#[derive(Debug, Clone, Copy, PartialEq, Eq, Structural)]
pub enum Phase {
    /// Reading the client's handshake.
    Capturing,
    /// Waiting for the backend connection to open.
    Connecting,
    /// Waiting for the captured bytes to reach the backend.
    Forwarding,
    /// Relaying bytes both ways.
    Piping,
    /// Done; both connections are to be closed.
    Closed,
}

/// What the session reports to its driver after an action.
#[derive(Debug)]
pub enum Event {
    /// The bytes of one read from the client; none means the client closed.
    ClientData(Vec<u8>),
    /// A read from the client failed.
    ClientFailed,
    /// The backend connection is open.
    Connected,
    /// The backend connection could not be opened.
    ConnectFailed(ConnectFailure),
    /// The captured bytes were written to the backend.
    Forwarded,
    /// Writing the captured bytes to the backend failed.
    ForwardFailed,
    /// One direction of the relay ended, by a close or a failure.
    LegEnded,
}

/// What the driver is to do next.
#[derive(Debug)]
pub enum Action {
    /// Read at most this many bytes from the client.
    ReadClient(usize),
    /// Open a connection to this backend address.
    Connect(String),
    /// Write these bytes to the backend.
    SendBackend(Vec<u8>),
    /// Write these bytes to the client if it takes them, then close both
    /// connections.
    Disconnect(Vec<u8>),
    /// Relay bytes both ways until a direction ends.
    Pipe,
    /// Close both connections; nothing more is read or written.
    Close,
}

/// Whether `a` reads at most `n` bytes from the client.
pub open spec fn reads_client(a: Action, n: int) -> bool {
    match a {
        Action::ReadClient(m) => m == n,
        _ => false,
    }
}

/// Whether `a` opens a connection to the backend at `addr`.
pub open spec fn connects_to(a: Action, addr: Seq<char>) -> bool {
    match a {
        Action::Connect(t) => t@ == addr,
        _ => false,
    }
}

/// Whether `a` writes exactly `bytes` to the backend.
pub open spec fn sends_backend(a: Action, bytes: Seq<u8>) -> bool {
    match a {
        Action::SendBackend(b) => b@ == bytes,
        _ => false,
    }
}

/// Whether `a` sends exactly `bytes` to the client and then closes.
pub open spec fn disconnects_with(a: Action, bytes: Seq<u8>) -> bool {
    match a {
        Action::Disconnect(b) => b@ == bytes,
        _ => false,
    }
}

/// Whether `ev` is a zero-byte read or a failed read from the client.
pub open spec fn client_gone(ev: Event) -> bool {
    match ev {
        Event::ClientData(d) => d@.len() == 0,
        Event::ClientFailed => true,
        _ => false,
    }
}

/// One client session.
pub struct Session {
    phase: Phase,
    capture: HandshakeCapture,
}

impl Session {
    /// Where the session stands.
    pub closed spec fn state(&self) -> Phase {
        self.phase
    }

    /// Every byte read from the client so far, in order.
    pub closed spec fn received(&self) -> Seq<u8> {
        self.capture@
    }

    /// While capturing, the bytes fit the capture's limit; once past the
    /// capture, they begin with a whole handshake.
    pub open spec fn wf(&self) -> bool {
        &&& self.state() == Phase::Capturing ==> self.received().len() < MAX_HANDSHAKE_BYTES
        &&& (self.state() == Phase::Connecting || self.state() == Phase::Forwarding)
            ==> handshake_frame(self.received()) is Done
    }

    /// A session that has read nothing yet.
    pub fn new() -> (r: Session)
        ensures
            r.wf(),
            r.state() == Phase::Capturing,
            r.received() == Seq::<u8>::empty(),
    {
        Session { phase: Phase::Capturing, capture: HandshakeCapture::new() }
    }

    /// Where the session stands.
    pub fn phase(&self) -> (r: Phase)
        ensures
            r == self.state(),
    {
        self.phase
    }

    /// The first action of a new session: read from the client.
    pub fn begin(&self) -> (a: Action)
        requires
            self.wf(),
            self.state() == Phase::Capturing,
        ensures
            reads_client(a, MAX_HANDSHAKE_BYTES - self.received().len()),
    {
        Action::ReadClient(self.capture.room())
    }

    fn close(&mut self) -> (a: Action)
        ensures
            final(self).state() == Phase::Closed,
            final(self).received() == old(self).received(),
            a is Close,
    {
        self.phase = Phase::Closed;
        Action::Close
    }

    /// Takes in what came of the last action and decides the next one.
    pub fn step(&mut self, table: &RouteTable, ev: Event) -> (a: Action)
        requires
            old(self).wf(),
        ensures
            final(self).wf(),
            // reading the handshake
            old(self).state() == Phase::Capturing ==> match ev {
                Event::ClientData(d) => d@.len() > 0 ==> {
                    &&& final(self).received() == old(self).received() + d@
                    &&& match capture_step(old(self).received(), d@) {
                        CaptureModel::Pending(_) => final(self).state() == Phase::Capturing
                            && reads_client(a, MAX_HANDSHAKE_BYTES - final(self).received().len()),
                        CaptureModel::Ready(h, n) => handshake_frame(final(self).received())
                            == Parsed::Done(h, n) && match route_of(table@, h.address) {
                            Some(b) => final(self).state() == Phase::Connecting
                                && connects_to(a, b),
                            None => final(self).state() == Phase::Closed && a is Close,
                        },
                        CaptureModel::Rejected => final(self).state() == Phase::Closed
                            && a is Close,
                    }
                },
                _ => true,
            },
            old(self).state() == Phase::Capturing && client_gone(ev)
                ==> final(self).state() == Phase::Closed && a is Close,
            // opening the backend connection
            old(self).state() == Phase::Connecting && ev is Connected ==> {
                &&& final(self).state() == Phase::Forwarding
                &&& final(self).received() == old(self).received()
                &&& sends_backend(a, old(self).received())
                &&& handshake_frame(old(self).received()) matches Parsed::Done(_, n)
                    ==> 0 < n <= old(self).received().len()
                &&& handshake_frame(old(self).received()) is Done
            },
            old(self).state() == Phase::Connecting ==> match ev {
                Event::ConnectFailed(f) => final(self).state() == Phase::Closed
                    && disconnects_with(a, disconnect_frame(encode_utf8(failure_text(f)))),
                _ => true,
            },
            // replaying the handshake
            old(self).state() == Phase::Forwarding && ev is Forwarded
                ==> final(self).state() == Phase::Piping && a is Pipe,
            old(self).state() == Phase::Forwarding && ev is ForwardFailed
                ==> final(self).state() == Phase::Closed
                && disconnects_with(a, disconnect_frame(encode_utf8(dropped_text()))),
            // relaying
            old(self).state() == Phase::Piping && ev is LegEnded
                ==> final(self).state() == Phase::Closed && a is Close,
            // once closed, nothing more is read or written
            old(self).state() == Phase::Closed ==> final(self).state() == Phase::Closed
                && a is Close,
            // an event that does not belong to the phase ends the session
            !expected(old(self).state(), ev) ==> final(self).state() == Phase::Closed
                && a is Close,
    {
        match (self.phase, ev) {
            (Phase::Capturing, Event::ClientData(d)) => {
                if d.len() == 0 {
                    return self.close();
                }
                match self.capture.feed(d.as_slice()) {
                    CaptureStep::NeedMore => Action::ReadClient(self.capture.room()),
                    CaptureStep::Ready(h, _) => match table.route(h.address.as_slice()) {
                        Some(backend) => {
                            self.phase = Phase::Connecting;
                            Action::Connect(backend)
                        },
                        None => self.close(),
                    },
                    CaptureStep::Rejected => self.close(),
                }
            },
            (Phase::Connecting, Event::Connected) => {
                self.phase = Phase::Forwarding;
                proof {
                    lemma_frame_within(self.capture@);
                }
                let mut bytes: Vec<u8> = Vec::new();
                let src = self.capture.bytes();
                let mut i: usize = 0;
                while i < src.len()
                    invariant
                        i <= src@.len(),
                        bytes@ == src@.subrange(0, i as int),
                    decreases src@.len() - i,
                {
                    bytes.push(src[i]);
                    i = i + 1;
                    assert(bytes@ =~= src@.subrange(0, i as int));
                }
                assert(src@.subrange(0, i as int) =~= src@);
                Action::SendBackend(bytes)
            },
            (Phase::Connecting, Event::ConnectFailed(f)) => {
                self.phase = Phase::Closed;
                Action::Disconnect(encode_disconnect(f.reason()))
            },
            (Phase::Forwarding, Event::Forwarded) => {
                self.phase = Phase::Piping;
                Action::Pipe
            },
            (Phase::Forwarding, Event::ForwardFailed) => {
                self.phase = Phase::Closed;
                Action::Disconnect(encode_disconnect("Gateway disconnected"))
            },
            _ => self.close(),
        }
    }
}

/// Whether `ev` is one that a session in phase `p` waits for.
pub open spec fn expected(p: Phase, ev: Event) -> bool {
    match p {
        Phase::Capturing => ev is ClientData || ev is ClientFailed,
        Phase::Connecting => ev is Connected || ev is ConnectFailed,
        Phase::Forwarding => ev is Forwarded || ev is ForwardFailed,
        Phase::Piping => ev is LegEnded,
        Phase::Closed => false,
    }
}

} // verus!
