//! One direction of the byte relay between a client and its backend.
//!
//! The relay reads a chunk, writes it whole, flushes, and reads again. A
//! zero-byte read or any failure ends it, and with it the whole session.

use vstd::prelude::*;

verus! {

/// Largest chunk the relay reads at once.
pub const RELAY_CHUNK: usize = 8192;

/// Where one direction of the relay stands.
#[derive(Debug, Clone, Copy, PartialEq, Eq, Structural)]
pub enum RelayPhase {
    Reading,
    Writing,
    Flushing,
    Done,
}

/// What came of the relay's last action.
#[derive(Debug)]
pub enum RelayEvent {
    /// The bytes of one read; none means the source closed.
    Read(Vec<u8>),
    ReadFailed,
    Written,
    WriteFailed,
    Flushed,
    FlushFailed,
}

/// What the relay is to do next.
#[derive(Debug)]
pub enum RelayAction {
    /// Read at most this many bytes from the source.
    Read(usize),
    /// Write all of these bytes to the destination.
    Write(Vec<u8>),
    /// Flush the destination.
    Flush,
    /// Stop: this direction, and the session, are over.
    Finish,
}

/// Whether `a` writes exactly `bytes`.
pub open spec fn writes(a: RelayAction, bytes: Seq<u8>) -> bool {
    match a {
        RelayAction::Write(b) => b@ == bytes,
        _ => false,
    }
}

/// Whether `a` reads at most `n` bytes.
pub open spec fn reads(a: RelayAction, n: int) -> bool {
    match a {
        RelayAction::Read(m) => m == n,
        _ => false,
    }
}

/// One direction of the relay.
pub struct Relay {
    phase: RelayPhase,
    /// Every byte read from the source, in order.
    taken: Ghost<Seq<u8>>,
}

impl Relay {
    /// Where the relay stands.
    pub closed spec fn state(&self) -> RelayPhase {
        self.phase
    }

    /// Every byte read from the source so far, in order.
    pub closed spec fn taken(&self) -> Seq<u8> {
        self.taken@
    }

    /// A relay that is about to read, and its first action.
    pub fn new() -> (r: (Relay, RelayAction))
        ensures
            r.0.state() == RelayPhase::Reading,
            r.0.taken() == Seq::<u8>::empty(),
            reads(r.1, RELAY_CHUNK as int),
    {
        (
            Relay {
                phase: RelayPhase::Reading,
                taken: Ghost(Seq::empty()),
            },
            RelayAction::Read(RELAY_CHUNK),
        )
    }

    /// Where the relay stands.
    pub fn phase(&self) -> (r: RelayPhase)
        ensures
            r == self.state(),
    {
        self.phase
    }

    /// Takes in what came of the last action and decides the next one.
    pub fn step(&mut self, ev: RelayEvent) -> (a: RelayAction)
        ensures
            match (old(self).state(), ev) {
                (RelayPhase::Reading, RelayEvent::Read(d)) => if d@.len() == 0 {
                    final(self).state() == RelayPhase::Done && a is Finish
                        && final(self).taken() == old(self).taken()
                } else {
                    final(self).state() == RelayPhase::Writing && writes(a, d@)
                        && final(self).taken() == old(self).taken() + d@
                },
                (RelayPhase::Writing, RelayEvent::Written) => final(self).state()
                    == RelayPhase::Flushing && a is Flush && final(self).taken() == old(self).taken(),
                (RelayPhase::Flushing, RelayEvent::Flushed) => final(self).state()
                    == RelayPhase::Reading && reads(a, RELAY_CHUNK as int)
                    && final(self).taken() == old(self).taken(),
                _ => final(self).state() == RelayPhase::Done && a is Finish
                    && final(self).taken() == old(self).taken(),
            },
    {
        match (self.phase, ev) {
            (RelayPhase::Reading, RelayEvent::Read(d)) => {
                if d.len() == 0 {
                    self.phase = RelayPhase::Done;
                    RelayAction::Finish
                } else {
                    self.phase = RelayPhase::Writing;
                    self.taken = Ghost(self.taken@ + d@);
                    RelayAction::Write(d)
                }
            },
            (RelayPhase::Writing, RelayEvent::Written) => {
                self.phase = RelayPhase::Flushing;
                RelayAction::Flush
            },
            (RelayPhase::Flushing, RelayEvent::Flushed) => {
                self.phase = RelayPhase::Reading;
                RelayAction::Read(RELAY_CHUNK)
            },
            _ => {
                self.phase = RelayPhase::Done;
                RelayAction::Finish
            },
        }
    }
}

} // verus!
