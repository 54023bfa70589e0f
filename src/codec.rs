//! Wire format of the handshake and disconnect packets.
//!
//! A packet is a VarInt length followed by that many bytes. A VarInt carries
//! seven bits per byte, least significant group first; the high bit of a
//! byte says that another byte follows, and at most five bytes are allowed.

use vstd::prelude::*;
use vstd::string::StringSliceAdditionalSpecFns;

verus! {

/// The outcome of reading one item from a byte sequence, at the spec level.
pub enum Parsed<T> {
    /// The item, and the position just after it.
    Done(T, int),
    /// The bytes ran out before the item was complete.
    Short,
    /// The bytes can never form the item.
    Bad,
}

/// The VarInt whose group `k` stands at `s[pos + k]`, reading no byte at or
/// past `end`. Its value is the low seven bits of that byte plus 128 times
/// the value of the groups after it.
pub open spec fn varint_at(s: Seq<u8>, pos: int, k: int, end: int) -> Parsed<int>
    decreases 5 - k,
{
    if k < 0 || k >= 5 {
        Parsed::Bad
    } else if pos + k >= end || pos + k >= s.len() || pos + k < 0 {
        Parsed::Short
    } else {
        let b = s[pos + k];
        if b < 128 {
            Parsed::Done(b as int, pos + k + 1)
        } else {
            match varint_at(s, pos, k + 1, end) {
                Parsed::Done(v, p) => Parsed::Done((b - 128) + 128 * v, p),
                Parsed::Short => Parsed::Short,
                Parsed::Bad => Parsed::Bad,
            }
        }
    }
}

/// One more than the largest value that groups `k` to 4 can carry.
pub open spec fn varint_bound(k: int) -> int
    decreases 5 - k,
{
    if k >= 5 {
        1
    } else {
        128 * varint_bound(k + 1)
    }
}

proof fn lemma_varint_bound(s: Seq<u8>, pos: int, k: int, end: int)
    requires
        0 <= k <= 5,
    ensures
        1 <= varint_bound(k) <= 0x8_0000_0000int,
        varint_at(s, pos, k, end) matches Parsed::Done(v, p) ==> 0 <= v < varint_bound(k)
            && pos + k < p <= pos + 5 && p <= end,
    decreases 5 - k,
{
    assert(varint_bound(5) == 1);
    assert(varint_bound(4) == 0x80);
    assert(varint_bound(3) == 0x4000);
    assert(varint_bound(2) == 0x20_0000);
    assert(varint_bound(1) == 0x1000_0000);
    assert(varint_bound(0) == 0x8_0000_0000);
    if k < 5 {
        lemma_varint_bound(s, pos, k + 1, end);
    }
}

/// Result of reading a VarInt in executable code.
pub enum VarIntRead {
    /// The value and the position just after the VarInt.
    Value(u64, usize),
    Short,
    Bad,
}

/// Reads the VarInt whose group `k` is at `s[pos + k]`, no byte at or past `end`.
fn read_varint_from(s: &[u8], pos: usize, k: usize, end: usize) -> (r: VarIntRead)
    requires
        k <= 5,
        end <= s@.len(),
    ensures
        match (r, varint_at(s@, pos as int, k as int, end as int)) {
            (VarIntRead::Value(v, p), Parsed::Done(sv, sp)) => v == sv && p == sp,
            (VarIntRead::Short, Parsed::Short) => true,
            (VarIntRead::Bad, Parsed::Bad) => true,
            _ => false,
        },
    decreases 5 - k,
{
    proof {
        lemma_varint_bound(s@, pos as int, k as int, end as int);
    }
    if k >= 5 {
        return VarIntRead::Bad;
    }
    if pos >= end || k >= end - pos {
        return VarIntRead::Short;
    }
    let b = s[pos + k];
    if b < 128 {
        VarIntRead::Value(b as u64, pos + k + 1)
    } else {
        match read_varint_from(s, pos, k + 1, end) {
            VarIntRead::Value(v, p) => {
                proof {
                    lemma_varint_bound(s@, pos as int, (k + 1) as int, end as int);
                }
                assert(v < varint_bound(k + 1));
                assert(128 * v <= 128 * varint_bound(k + 1) - 128) by (nonlinear_arith)
                    requires
                        v < varint_bound(k + 1),
                ;
                VarIntRead::Value((b - 128) as u64 + 128 * v, p)
            },
            VarIntRead::Short => VarIntRead::Short,
            VarIntRead::Bad => VarIntRead::Bad,
        }
    }
}

/// Reads the VarInt at `s[pos]`, no byte at or past `end`.
pub fn read_varint(s: &[u8], pos: usize, end: usize) -> (r: VarIntRead)
    requires
        end <= s@.len(),
    ensures
        match (r, varint_at(s@, pos as int, 0, end as int)) {
            (VarIntRead::Value(v, p), Parsed::Done(sv, sp)) => v == sv && p == sp,
            (VarIntRead::Short, Parsed::Short) => true,
            (VarIntRead::Bad, Parsed::Bad) => true,
            _ => false,
        },
        r matches VarIntRead::Value(_, p) ==> pos < p <= end,
{
    proof {
        lemma_varint_bound(s@, pos as int, 0, end as int);
    }
    read_varint_from(s, pos, 0, end)
}

/// Largest value a length field may carry: a length is a non-negative 32-bit
/// signed integer.
pub const MAX_LENGTH_FIELD: u64 = 0x7fff_ffff;

/// A decoded handshake, at the spec level.
pub struct HandshakeView {
    pub protocol_version: int,
    pub address: Seq<u8>,
    pub port: int,
    pub next_state: int,
}

/// The handshake body in `s[start..end]`: packet id zero, protocol version,
/// address (a length and that many bytes), port (two bytes, big endian) and
/// next state, filling the body exactly. VarInt fields other than lengths
/// keep their low 32 bits.
pub open spec fn body_at(s: Seq<u8>, start: int, end: int) -> Option<HandshakeView> {
    match varint_at(s, start, 0, end) {
        Parsed::Done(id, at_version) => if id != 0 {
            None
        } else {
            match varint_at(s, at_version, 0, end) {
                Parsed::Done(pv, at_address) => match varint_at(s, at_address, 0, end) {
                    Parsed::Done(alen, at_text) => if alen > MAX_LENGTH_FIELD || at_text + alen + 2 > end {
                        None
                    } else {
                        match varint_at(s, at_text + alen + 2, 0, end) {
                            Parsed::Done(ns, at_end) => if at_end != end {
                                None
                            } else {
                                Some(
                                    HandshakeView {
                                        protocol_version: pv % 0x1_0000_0000,
                                        address: s.subrange(at_text, at_text + alen),
                                        port: s[at_text + alen] * 256 + s[at_text + alen + 1],
                                        next_state: ns % 0x1_0000_0000,
                                    },
                                )
                            },
                            _ => None,
                        }
                    },
                    _ => None,
                },
                _ => None,
            }
        },
        _ => None,
    }
}

/// What decoding a handshake packet from the start of `s` gives: the
/// handshake and the number of bytes its frame takes, or why there is none.
pub open spec fn handshake_frame(s: Seq<u8>) -> Parsed<HandshakeView> {
    match varint_at(s, 0, 0, s.len() as int) {
        Parsed::Done(len, h) => if len > MAX_LENGTH_FIELD {
            Parsed::Bad
        } else if h + len > s.len() {
            Parsed::Short
        } else {
            match body_at(s, h, h + len) {
                Some(hv) => Parsed::Done(hv, h + len),
                None => Parsed::Bad,
            }
        },
        Parsed::Short => Parsed::Short,
        Parsed::Bad => Parsed::Bad,
    }
}

/// The first packet a client sends.
#[derive(Debug, PartialEq, Eq)]
pub struct Handshake {
    pub protocol_version: u32,
    /// The virtual host the client asks for, as sent.
    pub address: Vec<u8>,
    pub port: u16,
    pub next_state: u32,
}

impl View for Handshake {
    type V = HandshakeView;

    open spec fn view(&self) -> HandshakeView {
        HandshakeView {
            protocol_version: self.protocol_version as int,
            address: self.address@,
            port: self.port as int,
            next_state: self.next_state as int,
        }
    }
}

/// Why no handshake could be decoded.
#[derive(Debug, Clone, Copy, PartialEq, Eq, Structural)]
pub enum DecodeError {
    /// The bytes so far are the start of a packet that is not complete yet.
    InsufficientData,
    /// The bytes are not a handshake packet, whatever follows.
    Malformed,
}

/// Copies `s[from..to]`.
fn copy_range(s: &[u8], from: usize, to: usize) -> (r: Vec<u8>)
    requires
        from <= to <= s@.len(),
    ensures
        r@ == s@.subrange(from as int, to as int),
{
    let mut out: Vec<u8> = Vec::new();
    let mut i: usize = from;
    while i < to
        invariant
            from <= i <= to <= s@.len(),
            out@ == s@.subrange(from as int, i as int),
        decreases to - i,
    {
        out.push(s[i]);
        i = i + 1;
        assert(out@ =~= s@.subrange(from as int, i as int));
    }
    out
}

/// Decodes the handshake body in `s[start..end]`.
fn decode_body(s: &[u8], start: usize, end: usize) -> (r: Option<Handshake>)
    requires
        start <= end <= s@.len(),
    ensures
        match (r, body_at(s@, start as int, end as int)) {
            (Some(h), Some(hv)) => h@ == hv,
            (None, None) => true,
            _ => false,
        },
{
    let at_version = match read_varint(s, start, end) {
        VarIntRead::Value(id, p) => {
            if id != 0 {
                return None;
            }
            p
        },
        _ => return None,
    };
    let (pv, at_address) = match read_varint(s, at_version, end) {
        VarIntRead::Value(v, p) => (v, p),
        _ => return None,
    };
    let (alen, at_text) = match read_varint(s, at_address, end) {
        VarIntRead::Value(v, p) => (v, p),
        _ => return None,
    };
    proof {
        lemma_varint_bound(s@, at_address as int, 0, end as int);
    }
    if alen > MAX_LENGTH_FIELD || alen as usize > end - at_text || end - at_text - (alen as usize) < 2 {
        return None;
    }
    let a_end = at_text + alen as usize;
    let (ns, at_end) = match read_varint(s, a_end + 2, end) {
        VarIntRead::Value(v, p) => (v, p),
        _ => return None,
    };
    if at_end != end {
        return None;
    }
    let address = copy_range(s, at_text, a_end);
    let port = (s[a_end] as u16) * 256 + (s[a_end + 1] as u16);
    Some(
        Handshake {
            protocol_version: (pv % 0x1_0000_0000) as u32,
            address,
            port,
            next_state: (ns % 0x1_0000_0000) as u32,
        },
    )
}

/// Decodes a handshake packet from the start of `buf`, giving the handshake
/// and how many bytes its frame took.
pub fn decode_handshake(buf: &[u8]) -> (r: Result<(Handshake, usize), DecodeError>)
    ensures
        match (r, handshake_frame(buf@)) {
            (Ok((h, n)), Parsed::Done(hv, sn)) => h@ == hv && n == sn,
            (Err(DecodeError::InsufficientData), Parsed::Short) => true,
            (Err(DecodeError::Malformed), Parsed::Bad) => true,
            _ => false,
        },
{
    let (len, h) = match read_varint(buf, 0, buf.len()) {
        VarIntRead::Value(v, p) => (v, p),
        VarIntRead::Short => return Err(DecodeError::InsufficientData),
        VarIntRead::Bad => return Err(DecodeError::Malformed),
    };
    if len > MAX_LENGTH_FIELD {
        return Err(DecodeError::Malformed);
    }
    if len as usize > buf.len() - h {
        return Err(DecodeError::InsufficientData);
    }
    let end = h + len as usize;
    match decode_body(buf, h, end) {
        Some(hs) => Ok((hs, end)),
        None => Err(DecodeError::Malformed),
    }
}

/// The shortest VarInt encoding of `v`.
pub open spec fn varint_bytes(v: nat) -> Seq<u8>
    decreases v,
{
    if v < 128 {
        seq![v as u8]
    } else {
        seq![(v % 128 + 128) as u8] + varint_bytes(v / 128)
    }
}

/// Appends the VarInt encoding of `v` to `out`.
pub fn push_varint(out: &mut Vec<u8>, v: u64)
    ensures
        final(out)@ == old(out)@ + varint_bytes(v as nat),
{
    let mut x: u64 = v;
    while x >= 128
        invariant
            out@ + varint_bytes(x as nat) == old(out)@ + varint_bytes(v as nat),
        decreases x,
    {
        let ghost before = out@;
        out.push((x % 128 + 128) as u8);
        assert(out@ + varint_bytes((x / 128) as nat) =~= before + varint_bytes(x as nat));
        x = x / 128;
    }
    let ghost before = out@;
    out.push(x as u8);
    assert(out@ =~= before + varint_bytes(x as nat));
}

/// The lower-case hexadecimal digit for `n`.
pub open spec fn hex_digit(n: u8) -> u8 {
    if n < 10 {
        (0x30 + n) as u8
    } else {
        (0x61 + n - 10) as u8
    }
}

/// How one byte of text stands inside a JSON string: quote and backslash
/// take a backslash, control bytes a `\u00XX` escape, other bytes stay.
pub open spec fn json_escaped_byte(b: u8) -> Seq<u8> {
    if b == 0x22 || b == 0x5c {
        seq![0x5cu8, b]
    } else if b < 0x20 {
        seq![0x5cu8, 0x75u8, 0x30u8, 0x30u8, hex_digit(b / 16), hex_digit(b % 16)]
    } else {
        seq![b]
    }
}

/// `s` with each byte escaped for a JSON string.
pub open spec fn json_escaped(s: Seq<u8>) -> Seq<u8>
    decreases s.len(),
{
    if s.len() == 0 {
        Seq::empty()
    } else {
        json_escaped(s.drop_last()) + json_escaped_byte(s.last())
    }
}

/// The JSON string literal of `s`.
pub open spec fn json_string(s: Seq<u8>) -> Seq<u8> {
    seq![0x22u8] + json_escaped(s) + seq![0x22u8]
}

/// The framed disconnect packet (id zero) whose reason is the JSON text
/// `reason`.
pub open spec fn disconnect_frame(reason: Seq<u8>) -> Seq<u8> {
    let text = json_string(reason);
    let body = varint_bytes(0) + varint_bytes(text.len()) + text;
    varint_bytes(body.len()) + body
}

fn hex_digit_of(n: u8) -> (r: u8)
    requires
        n < 16,
    ensures
        r == hex_digit(n),
{
    if n < 10 {
        0x30 + n
    } else {
        0x61 + n - 10
    }
}

/// Appends `src` to `out`.
fn push_all(out: &mut Vec<u8>, src: &[u8])
    ensures
        final(out)@ == old(out)@ + src@,
{
    let ghost start = out@;
    let mut i: usize = 0;
    while i < src.len()
        invariant
            i <= src@.len(),
            out@ == start + src@.subrange(0, i as int),
            start == old(out)@,
        decreases src@.len() - i,
    {
        out.push(src[i]);
        i = i + 1;
        assert(out@ =~= start + src@.subrange(0, i as int));
    }
    assert(src@.subrange(0, i as int) =~= src@);
}

/// The JSON string literal of `s`.
fn json_string_of(s: &[u8]) -> (r: Vec<u8>)
    ensures
        r@ == json_string(s@),
{
    let mut out: Vec<u8> = Vec::new();
    out.push(0x22);
    let mut i: usize = 0;
    while i < s.len()
        invariant
            i <= s@.len(),
            out@ == seq![0x22u8] + json_escaped(s@.subrange(0, i as int)),
        decreases s@.len() - i,
    {
        let b = s[i];
        let ghost before = out@;
        if b == 0x22 || b == 0x5c {
            out.push(0x5c);
            out.push(b);
        } else if b < 0x20 {
            out.push(0x5c);
            out.push(0x75);
            out.push(0x30);
            out.push(0x30);
            out.push(hex_digit_of(b / 16));
            out.push(hex_digit_of(b % 16));
        } else {
            out.push(b);
        }
        assert(out@ =~= before + json_escaped_byte(b));
        assert(s@.subrange(0, i + 1).drop_last() =~= s@.subrange(0, i as int));
        i = i + 1;
    }
    assert(s@.subrange(0, i as int) =~= s@);
    out.push(0x22);
    out
}

/// Encodes the disconnect packet that carries `reason` as a JSON text
/// component, framed with its length.
pub fn encode_disconnect(reason: &str) -> (r: Vec<u8>)
    ensures
        r@ == disconnect_frame(reason.spec_bytes()),
{
    let bytes = reason.as_bytes();
    let text = json_string_of(bytes);
    let mut body: Vec<u8> = Vec::new();
    push_varint(&mut body, 0);
    push_varint(&mut body, text.len() as u64);
    push_all(&mut body, text.as_slice());
    let mut out: Vec<u8> = Vec::new();
    push_varint(&mut out, body.len() as u64);
    push_all(&mut out, body.as_slice());
    assert(out@ =~= disconnect_frame(reason.spec_bytes()));
    out
}

/// A VarInt read that stops before `end` depends only on the bytes below `end`.
proof fn lemma_varint_same_below(s: Seq<u8>, t: Seq<u8>, pos: int, k: int, end: int)
    requires
        end <= s.len(),
        end <= t.len(),
        forall|i: int| 0 <= i < end ==> s[i] == t[i],
    ensures
        varint_at(s, pos, k, end) == varint_at(t, pos, k, end),
    decreases 5 - k,
{
    if 0 <= k < 5 {
        lemma_varint_same_below(s, t, pos, k + 1, end);
    }
}

/// A handshake body depends only on the bytes below its end.
proof fn lemma_body_same_below(s: Seq<u8>, t: Seq<u8>, start: int, end: int)
    requires
        end <= s.len(),
        end <= t.len(),
        forall|i: int| 0 <= i < end ==> s[i] == t[i],
    ensures
        body_at(s, start, end) == body_at(t, start, end),
{
    lemma_varint_same_below(s, t, start, 0, end);
    if let Parsed::Done(id, at_version) = varint_at(s, start, 0, end) {
        lemma_varint_same_below(s, t, at_version, 0, end);
        if let Parsed::Done(pv, at_address) = varint_at(s, at_version, 0, end) {
            lemma_varint_same_below(s, t, at_address, 0, end);
            if let Parsed::Done(alen, at_text) = varint_at(s, at_address, 0, end) {
                lemma_varint_same_below(s, t, at_text + alen + 2, 0, end);
                if alen <= MAX_LENGTH_FIELD && at_text + alen + 2 <= end {
                    lemma_varint_bound(s, at_address, 0, end);
                    assert(s.subrange(at_text, at_text + alen) =~= t.subrange(at_text, at_text + alen));
                }
            }
        }
    }
}

/// A VarInt that reads to completion, or can never complete, reads the same
/// when more bytes follow.
proof fn lemma_varint_extend(s: Seq<u8>, t: Seq<u8>, k: int)
    requires
        !(varint_at(s, 0, k, s.len() as int) is Short),
    ensures
        varint_at(s + t, 0, k, (s + t).len() as int) == varint_at(s, 0, k, s.len() as int),
    decreases 5 - k,
{
    if 0 <= k < 5 {
        assert((s + t)[k] == s[k]);
        if s[k] >= 128 {
            lemma_varint_extend(s, t, k + 1);
        }
    }
}

proof fn lemma_varint_reads_back(s: Seq<u8>, pos: int, k: int, v: nat)
    requires
        0 <= k < 5,
        0 <= pos,
        v < varint_bound(k),
        pos + k + varint_bytes(v).len() <= s.len(),
        s.subrange(pos + k, pos + k + varint_bytes(v).len()) == varint_bytes(v),
    ensures
        varint_at(s, pos, k, s.len() as int) == Parsed::<int>::Done(
            v as int,
            pos + k + varint_bytes(v).len(),
        ),
    decreases 5 - k,
{
    let e = varint_bytes(v);
    assert(s[pos + k] == s.subrange(pos + k, pos + k + e.len())[0]);
    if v >= 128 {
        let tail = varint_bytes(v / 128);
        assert(e == seq![(v % 128 + 128) as u8] + tail);
        assert(v / 128 < varint_bound(k + 1)) by (nonlinear_arith)
            requires
                v < 128 * varint_bound(k + 1),
        ;
        if k + 1 >= 5 {
            assert(varint_bound(5) == 1);
            assert(false);
        }
        assert(e.subrange(1, e.len() as int) =~= tail);
        assert forall|i: int| 0 <= i < tail.len() implies #[trigger] s[pos + k + 1 + i] == tail[i] by {
            assert(s[pos + k + 1 + i] == s.subrange(pos + k, pos + k + e.len())[1 + i]);
        }
        assert(s.subrange(pos + k + 1, pos + k + 1 + tail.len()) =~= tail);
        lemma_varint_reads_back(s, pos, k + 1, v / 128);
    }
}

/// Reading back the VarInt encoding of any value below 2^35 gives that
/// value, and stops right after the encoding, whatever follows it.
pub proof fn lemma_varint_round_trip(v: nat, rest: Seq<u8>)
    requires
        v < 0x8_0000_0000,
    ensures
        varint_at(varint_bytes(v) + rest, 0, 0, (varint_bytes(v) + rest).len() as int)
            == Parsed::<int>::Done(v as int, varint_bytes(v).len() as int),
{
    let s = varint_bytes(v) + rest;
    assert(varint_bound(5) == 1);
    assert(varint_bound(4) == 0x80);
    assert(varint_bound(3) == 0x4000);
    assert(varint_bound(2) == 0x20_0000);
    assert(varint_bound(1) == 0x1000_0000);
    assert(varint_bound(0) == 0x8_0000_0000);
    assert(s.subrange(0, varint_bytes(v).len() as int) =~= varint_bytes(v));
    lemma_varint_reads_back(s, 0, 0, v);
}

/// A decoded frame lies within the bytes it was decoded from.
pub proof fn lemma_frame_within(s: Seq<u8>)
    ensures
        handshake_frame(s) matches Parsed::Done(_, n) ==> 0 < n <= s.len(),
{
    lemma_varint_bound(s, 0, 0, s.len() as int);
}

/// Once the bytes at hand decode to a handshake, or can never do so, more
/// bytes after them change nothing.
pub proof fn lemma_frame_extend(s: Seq<u8>, t: Seq<u8>)
    requires
        !(handshake_frame(s) is Short),
    ensures
        handshake_frame(s + t) == handshake_frame(s),
{
    lemma_varint_extend(s, t, 0);
    if let Parsed::Done(len, h) = varint_at(s, 0, 0, s.len() as int) {
        if len <= MAX_LENGTH_FIELD && h + len <= s.len() {
            lemma_body_same_below(s, s + t, h, h + len);
        }
    }
}

} // verus!
