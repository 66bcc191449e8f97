//! Packet framing: a message becomes packets of a 4-byte header (3-byte
//! little-endian payload length, 1-byte sequence id) and up to `MAX_PAYLOAD`
//! payload bytes.
use vstd::prelude::*;
use crate::codec::{le_bytes, le_value, lemma_pow256_values, lemma_le_round_trip, push_le, read_le, push_bytes};

verus! {

/// The largest payload of one packet; a message at least this long goes out
/// in several packets.
pub const MAX_PAYLOAD: usize = 0xFF_FFFF;

/// The sequence id `k` packets after `s`.
pub open spec fn seq_after(s: u8, k: nat) -> u8 {
    ((s as nat + k) % 256) as u8
}

/// A packet header for a payload of `len` bytes with sequence id `s`.
pub open spec fn header(len: nat, s: u8) -> Seq<u8> {
    le_bytes(len, 3).push(s)
}

/// The packets that carry a message with payload `p`, the first one numbered `s`.
pub open spec fn frame(s: u8, p: Seq<u8>) -> Seq<u8>
    decreases p.len(),
{
    if p.len() < MAX_PAYLOAD {
        header(p.len(), s) + p
    } else {
        header(MAX_PAYLOAD as nat, s) + p.take(MAX_PAYLOAD as int) + frame(
            seq_after(s, 1),
            p.skip(MAX_PAYLOAD as int),
        )
    }
}

/// The number of packets that carry a payload of `n` bytes: as many full
/// packets as fit, then one short one (which may be empty).
pub open spec fn packet_count(n: nat) -> nat {
    n / (MAX_PAYLOAD as nat) + 1
}

/// The first message in `b`: the sequence id of its last packet, its payload,
/// and the number of bytes it takes. `None` while it is not complete.
pub open spec fn parse_message(b: Seq<u8>) -> Option<(u8, Seq<u8>, nat)>
    decreases b.len(),
{
    if b.len() < 4 {
        None
    } else {
        let len = le_value(b.subrange(0, 3)) as int;
        let m = MAX_PAYLOAD as int;
        if b.len() < 4 + len {
            None
        } else if len < m {
            Some((b[3], b.subrange(4, 4 + len), (4 + len) as nat))
        } else {
            match parse_message(b.skip(4 + m)) {
                None => None,
                Some((s, q, k)) => Some((s, b.subrange(4, 4 + m) + q, (4 + m + k) as nat)),
            }
        }
    }
}

/// A message takes its header at least, and no more than the bytes there are.
pub proof fn lemma_parse_message_len(b: Seq<u8>)
    ensures
        parse_message(b) matches Some((_, _, k)) ==> 4 <= k <= b.len(),
    decreases b.len(),
{
    if b.len() >= 4 {
        let len = le_value(b.subrange(0, 3)) as int;
        if b.len() >= 4 + len && len >= MAX_PAYLOAD {
            lemma_parse_message_len(b.skip(4 + MAX_PAYLOAD as int));
        }
    }
}

proof fn lemma_header(len: nat, s: u8)
    requires
        len <= MAX_PAYLOAD,
    ensures
        header(len, s).len() == 4,
        le_value(header(len, s).subrange(0, 3)) == len,
        header(len, s)[3] == s,
{
    lemma_pow256_values();
    lemma_le_round_trip(len, 3);
    assert(header(len, s).subrange(0, 3) =~= le_bytes(len, 3));
}

/// Framing a payload and reading the packets back gives the payload, whatever
/// bytes follow; the message takes `packet_count` packets, numbered on from `s`.
pub proof fn lemma_frame_round_trip(s: u8, p: Seq<u8>, rest: Seq<u8>)
    ensures
        parse_message(frame(s, p) + rest) == Some(
            (seq_after(s, (packet_count(p.len()) - 1) as nat), p, frame(s, p).len()),
        ),
        frame(s, p).len() == p.len() + 4 * packet_count(p.len()),
    decreases p.len(),
{
    let m = MAX_PAYLOAD as int;
    let b = frame(s, p) + rest;
    if p.len() < m {
        lemma_header(p.len(), s);
        assert(b.subrange(0, 3) =~= header(p.len(), s).subrange(0, 3));
        let pl = p.len() as int;
        assert(b.subrange(4, 4 + pl) =~= p);
        assert(pl / m == 0) by (nonlinear_arith)
            requires
                0 <= pl < m,
                m > 0,
        ;
    } else {
        let t = p.skip(m as int);
        lemma_header(m as nat, s);
        lemma_frame_round_trip(seq_after(s, 1), t, rest);
        assert(b.subrange(0, 3) =~= header(m as nat, s).subrange(0, 3));
        assert(b.subrange(4, 4 + m) =~= p.take(m as int));
        assert(b.skip(4 + m) =~= frame(seq_after(s, 1), t) + rest);
        assert(p.take(m as int) + t =~= p);
        let pl = p.len() as int;
        let tl = t.len() as int;
        assert(tl / m + 1 == pl / m) by (nonlinear_arith)
            requires
                tl == pl - m,
                pl >= m,
                m > 0,
        ;
        assert(seq_after(seq_after(s, 1), (packet_count(t.len()) - 1) as nat) == seq_after(
            s,
            (packet_count(p.len()) - 1) as nat,
        ));
    }
}

/// Appends the packets that carry payload `p`, the first numbered `s`, and
/// returns the sequence id that the next packet takes.
pub fn write_frames(out: &mut Vec<u8>, s: u8, p: &[u8]) -> (next: u8)
    ensures
        final(out)@ == old(out)@ + frame(s, p@),
        next == seq_after(s, packet_count(p@.len())),
{
    let ghost target = old(out)@ + frame(s, p@);
    let ghost whole = p@;
    let mut pos: usize = 0;
    let mut cur: u8 = s;
    assert(p@.skip(0) =~= p@);
    while p.len() - pos >= MAX_PAYLOAD
        invariant
            pos <= p@.len(),
            p@ == whole,
            target == out@ + frame(cur, p@.skip(pos as int)),
            seq_after(cur, packet_count((p@.len() - pos) as nat)) == seq_after(s, packet_count(p@.len())),
        decreases p@.len() - pos,
    {
        let ghost rest = p@.skip(pos as int);
        let ghost before = out@;
        push_le(out, MAX_PAYLOAD as u64, 3);
        out.push(cur);
        let chunk = slice_range(p, pos, pos + MAX_PAYLOAD);
        push_bytes(out, chunk);
        assert(rest.take(MAX_PAYLOAD as int) =~= chunk@);
        assert(rest.skip(MAX_PAYLOAD as int) =~= p@.skip(pos + MAX_PAYLOAD));
        assert(out@ =~= before + header(MAX_PAYLOAD as nat, cur) + rest.take(MAX_PAYLOAD as int));
        proof {
            let n = (p@.len() - pos) as int;
            let m = MAX_PAYLOAD as int;
            assert((n - m) / m + 1 == n / m) by (nonlinear_arith)
                requires
                    n >= m,
                    m > 0,
            ;
        }
        cur = if cur == 255 { 0 } else { cur + 1 };
        pos = pos + MAX_PAYLOAD;
    }
    let ghost rest = p@.skip(pos as int);
    let ghost before = out@;
    let tail_len = p.len() - pos;
    push_le(out, tail_len as u64, 3);
    out.push(cur);
    let chunk = slice_range(p, pos, p.len());
    push_bytes(out, chunk);
    assert(chunk@ =~= rest);
    assert(out@ =~= before + header(tail_len as nat, cur) + rest);
    proof {
        let n = tail_len as int;
        let m = MAX_PAYLOAD as int;
        assert(n / m == 0) by (nonlinear_arith)
            requires
                0 <= n < m,
                m > 0,
        ;
    }
    if cur == 255 { 0 } else { cur + 1 }
}

/// Reads the first message in `b` from `pos` on: the sequence id of its last
/// packet, its payload, and the position after it; `None` while it is not complete.
pub fn read_message(b: &[u8], pos: usize) -> (r: Option<(u8, Vec<u8>, usize)>)
    requires
        pos <= b@.len(),
    ensures
        match parse_message(b@.skip(pos as int)) {
            None => r is None,
            Some((s, q, k)) => r matches Some((rs, rq, rk)) && rs == s && rq@ == q && rk == pos + k,
        },
        r matches Some((_, _, rk)) ==> rk <= b@.len(),
{
    let mut payload: Vec<u8> = Vec::new();
    let mut cur: usize = pos;
    let m = MAX_PAYLOAD;
    loop
        invariant
            pos <= cur <= b@.len(),
            m == MAX_PAYLOAD,
            match parse_message(b@.skip(cur as int)) {
                None => parse_message(b@.skip(pos as int)) is None,
                Some((s, q, k)) => parse_message(b@.skip(pos as int)) == Some(
                    (s, payload@ + q, ((cur - pos) + k) as nat),
                ),
            },
        decreases b@.len() - cur,
    {
        let ghost here = b@.skip(cur as int);
        if b.len() - cur < 4 {
            return None;
        }
        let len64 = read_le(b, cur, 3);
        proof {
            crate::codec::lemma_le_value_bound(b@.subrange(cur as int, cur + 3));
            lemma_pow256_values();
            assert(here.subrange(0, 3) =~= b@.subrange(cur as int, cur + 3));
            assert(here[3] == b@[cur + 3]);
        }
        let len = len64 as usize;
        if b.len() - cur - 4 < len {
            return None;
        }
        let body = slice_range(b, cur + 4, cur + 4 + len);
        assert(here.subrange(4, 4 + len) =~= body@);
        if len < m {
            let s = b[cur + 3];
            assert(parse_message(here) == Some((s, here.subrange(4, 4 + len), (4 + len) as nat)));
            push_bytes(&mut payload, body);
            return Some((s, payload, cur + 4 + len));
        }
        assert(len == m);
        let ghost old_payload = payload@;
        push_bytes(&mut payload, body);
        assert(here.skip(4 + m) =~= b@.skip(cur + 4 + m));
        proof {
            match parse_message(b@.skip(cur + 4 + m)) {
                None => {},
                Some((s, q, k)) => {
                    assert(old_payload + (body@ + q) =~= payload@ + q);
                },
            }
        }
        cur = cur + 4 + m;
    }
}

/// The packets that carry the messages `msgs` one after the other, the first
/// packet numbered `s` and each further packet numbered one more.
pub open spec fn frames(s: u8, msgs: Seq<Seq<u8>>) -> Seq<u8>
    decreases msgs.len(),
{
    if msgs.len() == 0 {
        Seq::empty()
    } else {
        frames(s, msgs.drop_last()) + frame(seq_after(s, total_packets(msgs.drop_last())), msgs.last())
    }
}

/// The number of packets that carry the messages `msgs`.
pub open spec fn total_packets(msgs: Seq<Seq<u8>>) -> nat
    decreases msgs.len(),
{
    if msgs.len() == 0 {
        0
    } else {
        total_packets(msgs.drop_last()) + packet_count(msgs.last().len())
    }
}

proof fn lemma_seq_after_add(s: u8, a: nat, b: nat)
    ensures
        seq_after(seq_after(s, a), b) == seq_after(s, a + b),
{
}

/// Reassembles messages from the bytes a client sends.
pub struct PacketReader {
    buf: Vec<u8>,
}

impl View for PacketReader {
    type V = Seq<u8>;

    /// The bytes received and not yet taken as messages.
    closed spec fn view(&self) -> Seq<u8> {
        self.buf@
    }
}

impl PacketReader {
    pub fn new() -> (r: Self)
        ensures
            r@ == Seq::<u8>::empty(),
    {
        PacketReader { buf: Vec::new() }
    }

    /// Adds bytes received from the client.
    pub fn feed(&mut self, bytes: &[u8])
        ensures
            final(self)@ == old(self)@ + bytes@,
    {
        push_bytes(&mut self.buf, bytes);
    }

    /// Takes the next complete message: the sequence id of its last packet and
    /// its payload. `None`, and nothing taken, while no message is complete.
    pub fn next(&mut self) -> (r: Option<(u8, Vec<u8>)>)
        ensures
            match parse_message(old(self)@) {
                None => r is None && final(self)@ == old(self)@,
                Some((s, q, k)) => {
                    &&& r matches Some((rs, rq))
                    &&& rs == s
                    &&& rq@ == q
                    &&& final(self)@ == old(self)@.skip(k as int)
                    &&& final(self)@.len() < old(self)@.len()
                    &&& k <= old(self)@.len()
                },
            },
    {
        assert(self.buf@.skip(0) =~= self.buf@);
        proof { lemma_parse_message_len(self.buf@); }
        match read_message(self.buf.as_slice(), 0) {
            None => None,
            Some((s, q, k)) => {
                let rest = slice_range(self.buf.as_slice(), k, self.buf.len());
                let mut left: Vec<u8> = Vec::new();
                push_bytes(&mut left, rest);
                assert(left@ =~= self.buf@.skip(k as int));
                self.buf = left;
                Some((s, q))
            },
        }
    }

    /// The number of bytes received and not yet taken.
    pub fn remaining(&self) -> (r: usize)
        ensures
            r == self@.len(),
    {
        self.buf.len()
    }

    /// Takes all bytes received and not yet taken as messages.
    pub fn take_remaining(&mut self) -> (r: Vec<u8>)
        ensures
            r@ == old(self)@,
            final(self)@ == Seq::<u8>::empty(),
    {
        let mut r: Vec<u8> = Vec::new();
        std::mem::swap(&mut r, &mut self.buf);
        r
    }
}

/// Frames outgoing messages and numbers their packets.
pub struct PacketWriter {
    out: Vec<u8>,
    seq: u8,
    start: Ghost<u8>,
    msgs: Ghost<Seq<Seq<u8>>>,
}

impl PacketWriter {
    /// The bytes framed and not yet taken.
    pub closed spec fn output(&self) -> Seq<u8> {
        self.out@
    }

    /// The sequence id that the next packet takes.
    pub closed spec fn next_seq(&self) -> u8 {
        self.seq
    }

    /// The messages framed since the sequence id was last set.
    pub closed spec fn messages(&self) -> Seq<Seq<u8>> {
        self.msgs@
    }

    /// The sequence id that was last set.
    pub closed spec fn first_seq(&self) -> u8 {
        self.start@
    }

    /// The bytes not yet taken carry the messages framed since, numbered on
    /// from the first sequence id.
    pub open spec fn wf(&self) -> bool {
        &&& self.next_seq() == seq_after(self.first_seq(), total_packets(self.messages()))
        &&& self.output() == frames(self.first_seq(), self.messages())
    }

    pub fn new() -> (w: Self)
        ensures
            w.wf(),
            w.output() == Seq::<u8>::empty(),
            w.next_seq() == 0,
            w.first_seq() == 0,
            w.messages() == Seq::<Seq<u8>>::empty(),
    {
        let w = PacketWriter { out: Vec::new(), seq: 0, start: Ghost(0), msgs: Ghost(Seq::empty()) };
        w
    }

    /// Numbers the next packet `s`; what follows is a new run of messages.
    pub fn set_seq(&mut self, s: u8)
        requires
            old(self).wf(),
            old(self).output() == Seq::<u8>::empty(),
        ensures
            final(self).wf(),
            final(self).output() == old(self).output(),
            final(self).next_seq() == s,
            final(self).first_seq() == s,
            final(self).messages() == Seq::<Seq<u8>>::empty(),
    {
        self.seq = s;
        self.start = Ghost(s);
        self.msgs = Ghost(Seq::empty());
    }

    /// Frames the message `payload` after those already framed.
    pub fn write_packet(&mut self, payload: &[u8])
        requires
            old(self).wf(),
        ensures
            final(self).wf(),
            final(self).output() == old(self).output() + frame(old(self).next_seq(), payload@),
            final(self).next_seq() == seq_after(old(self).next_seq(), packet_count(payload@.len())),
            final(self).first_seq() == old(self).first_seq(),
            final(self).messages() == old(self).messages().push(payload@),
    {
        let ghost old_msgs = self.msgs@;
        let s = self.seq;
        self.seq = write_frames(&mut self.out, s, payload);
        self.msgs = Ghost(old_msgs.push(payload@));
        proof {
            let m = self.msgs@;
            assert(m.drop_last() =~= old_msgs);
            lemma_seq_after_add(self.start@, total_packets(old_msgs), packet_count(payload@.len()));
            assert(self.out@ =~= frames(self.start@, m));
        }
    }

    /// Takes the framed bytes; packets framed later go on numbering from
    /// where these stopped.
    pub fn take_output(&mut self) -> (r: Vec<u8>)
        requires
            old(self).wf(),
        ensures
            final(self).wf(),
            r@ == old(self).output(),
            final(self).output() == Seq::<u8>::empty(),
            final(self).next_seq() == old(self).next_seq(),
            final(self).first_seq() == old(self).next_seq(),
            final(self).messages() == Seq::<Seq<u8>>::empty(),
    {
        let mut r: Vec<u8> = Vec::new();
        std::mem::swap(&mut r, &mut self.out);
        self.start = Ghost(self.seq);
        self.msgs = Ghost(Seq::empty());
        r
    }
}

/// The bytes of `b` from `lo` up to `hi`.
pub fn slice_range(b: &[u8], lo: usize, hi: usize) -> (r: &[u8])
    requires
        lo <= hi <= b@.len(),
    ensures
        r@ == b@.subrange(lo as int, hi as int),
{
    &b[lo..hi]
}

} // verus!
