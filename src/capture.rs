//! Accumulates a client's first bytes until they hold a whole handshake.

use vstd::prelude::*;
use crate::codec::{
    decode_handshake, handshake_frame, lemma_frame_extend, DecodeError, Handshake, HandshakeView,
    Parsed,
};

verus! {

/// Most bytes held while waiting for a handshake; a buffer this full that
/// still holds no whole handshake is given up on.
pub const MAX_HANDSHAKE_BYTES: usize = 1024;

/// The state of a capture after some reads, at the spec level.
pub enum CaptureModel {
    /// No handshake yet; the bytes read so far.
    Pending(Seq<u8>),
    /// A handshake, and how many of the bytes read its frame took.
    Ready(HandshakeView, int),
    /// The bytes can never yield a handshake within the limit.
    Rejected,
}

/// What one more read `chunk` does to a capture that holds `buf`.
pub open spec fn capture_step(buf: Seq<u8>, chunk: Seq<u8>) -> CaptureModel {
    let all = buf + chunk;
    match handshake_frame(all) {
        Parsed::Done(h, n) => CaptureModel::Ready(h, n),
        Parsed::Bad => CaptureModel::Rejected,
        Parsed::Short => if all.len() >= MAX_HANDSHAKE_BYTES {
            CaptureModel::Rejected
        } else {
            CaptureModel::Pending(all)
        },
    }
}

/// The capture after the reads `chunks`, in order; reads after the capture
/// has settled change nothing.
pub open spec fn capture_run(chunks: Seq<Seq<u8>>) -> CaptureModel
    decreases chunks.len(),
{
    if chunks.len() == 0 {
        CaptureModel::Pending(Seq::empty())
    } else {
        match capture_run(chunks.drop_last()) {
            CaptureModel::Pending(buf) => capture_step(buf, chunks.last()),
            settled => settled,
        }
    }
}

/// The bytes of `chunks` one after another.
pub open spec fn concat(chunks: Seq<Seq<u8>>) -> Seq<u8>
    decreases chunks.len(),
{
    if chunks.len() == 0 {
        Seq::empty()
    } else {
        concat(chunks.drop_last()) + chunks.last()
    }
}

/// Read boundaries do not matter: bytes that arrive in several non-empty
/// reads leave the capture exactly as the same bytes in one read would,
/// as long as they fit the capture's limit.
pub proof fn lemma_split_reads(chunks: Seq<Seq<u8>>)
    requires
        forall|i: int| 0 <= i < chunks.len() ==> #[trigger] chunks[i].len() > 0,
        concat(chunks).len() <= MAX_HANDSHAKE_BYTES,
    ensures
        capture_run(chunks) == capture_run(seq![concat(chunks)]),
    decreases chunks.len(),
{
    let one = seq![concat(chunks)];
    assert(one.drop_last() =~= Seq::<Seq<u8>>::empty());
    assert(capture_run(Seq::<Seq<u8>>::empty()) == CaptureModel::Pending(Seq::<u8>::empty()));
    assert(Seq::<u8>::empty() + concat(chunks) =~= concat(chunks));
    assert(capture_run(one) == capture_step(Seq::<u8>::empty(), concat(chunks)));
    if chunks.len() > 0 {
        let pre = chunks.drop_last();
        let last = chunks.last();
        assert(forall|i: int| 0 <= i < pre.len() ==> #[trigger] pre[i] == chunks[i]);
        assert(chunks[chunks.len() - 1].len() > 0);
        assert(concat(chunks) == concat(pre) + last);
        lemma_split_reads(pre);
        let one_pre = seq![concat(pre)];
        assert(one_pre.drop_last() =~= Seq::<Seq<u8>>::empty());
        assert(Seq::<u8>::empty() + concat(pre) =~= concat(pre));
        assert(capture_run(one_pre) == capture_step(Seq::<u8>::empty(), concat(pre)));
        if !(handshake_frame(concat(pre)) is Short) {
            lemma_frame_extend(concat(pre), last);
        }
    }
}

/// The bytes read from a client while its handshake is incomplete.
pub struct HandshakeCapture {
    buf: Vec<u8>,
}

/// What a capture reports after a read.
#[derive(Debug)]
pub enum CaptureStep {
    /// The bytes so far begin a handshake that is not complete: read more.
    NeedMore,
    /// A handshake, and how many of the bytes held its frame took.
    Ready(Handshake, usize),
    /// No handshake can come of these bytes.
    Rejected,
}

impl View for HandshakeCapture {
    type V = Seq<u8>;

    closed spec fn view(&self) -> Seq<u8> {
        self.buf@
    }
}

impl HandshakeCapture {
    /// A capture that holds fewer bytes than the limit.
    pub open spec fn wf(&self) -> bool {
        self@.len() < MAX_HANDSHAKE_BYTES
    }

    /// A capture that holds nothing yet.
    pub fn new() -> (r: HandshakeCapture)
        ensures
            r@ == Seq::<u8>::empty(),
            r.wf(),
    {
        HandshakeCapture { buf: Vec::new() }
    }

    /// How many more bytes may be read before the limit is reached.
    pub fn room(&self) -> (r: usize)
        requires
            self.wf(),
        ensures
            r == MAX_HANDSHAKE_BYTES - self@.len(),
            r > 0,
    {
        MAX_HANDSHAKE_BYTES - self.buf.len()
    }

    /// Every byte read so far, in order.
    pub fn bytes(&self) -> (r: &[u8])
        ensures
            r@ == self@,
    {
        self.buf.as_slice()
    }

    /// Takes in the bytes of one read and decodes what has been read so far.
    /// The bytes are kept whatever the outcome.
    pub fn feed(&mut self, chunk: &[u8]) -> (r: CaptureStep)
        ensures
            final(self)@ == old(self)@ + chunk@,
            match (r, capture_step(old(self)@, chunk@)) {
                (CaptureStep::NeedMore, CaptureModel::Pending(b)) => final(self).wf(),
                (CaptureStep::Ready(h, n), CaptureModel::Ready(hv, sn)) => h@ == hv && n == sn,
                (CaptureStep::Rejected, CaptureModel::Rejected) => true,
                _ => false,
            },
    {
        let mut i: usize = 0;
        let ghost start = self.buf@;
        while i < chunk.len()
            invariant
                i <= chunk@.len(),
                start == old(self)@,
                self.buf@ == start + chunk@.subrange(0, i as int),
            decreases chunk@.len() - i,
        {
            self.buf.push(chunk[i]);
            i = i + 1;
            assert(self.buf@ =~= start + chunk@.subrange(0, i as int));
        }
        assert(chunk@.subrange(0, i as int) =~= chunk@);
        match decode_handshake(self.buf.as_slice()) {
            Ok((h, n)) => CaptureStep::Ready(h, n),
            Err(DecodeError::Malformed) => CaptureStep::Rejected,
            Err(DecodeError::InsufficientData) => {
                if self.buf.len() >= MAX_HANDSHAKE_BYTES {
                    CaptureStep::Rejected
                } else {
                    CaptureStep::NeedMore
                }
            },
        }
    }
}

} // verus!
