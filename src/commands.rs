//! The client's handshake response and its commands.
use vstd::prelude::*;
use crate::codec::{le_value, lenenc_decode, read_le, read_lenenc_int, push_bytes, lemma_le_value_bound, lemma_pow256_values};
use crate::packet::slice_range;

verus! {

/// Capability: the client speaks protocol 4.1.
pub const CLIENT_PROTOCOL_41: u32 = 0x200;

/// Capability: the client asks for TLS.
pub const CLIENT_SSL: u32 = 0x800;

/// Capability: the auth response is preceded by its length in one byte.
pub const CLIENT_SECURE_CONNECTION: u32 = 0x8000;

/// Capability: the auth response is a length-encoded string.
pub const CLIENT_PLUGIN_AUTH_LENENC_CLIENT_DATA: u32 = 0x20_0000;

/// A command the client sent.
#[derive(Debug, PartialEq, Eq)]
pub enum Command {
    Query(Vec<u8>),
    ListFields(Vec<u8>),
    Close(u32),
    Prepare(Vec<u8>),
    Init(Vec<u8>),
    Execute { stmt: u32, params: Vec<u8> },
    SendLongData { stmt: u32, param: u16, data: Vec<u8> },
    Ping,
    Quit,
}

/// The bytes of `b` before its first 0, or all of `b` where it holds none.
pub open spec fn until_nul(b: Seq<u8>) -> Seq<u8> {
    if exists|i: int| 0 <= i < b.len() && b[i] == 0 {
        b.take(choose|i: int| 0 <= i < b.len() && b[i] == 0 && forall|j: int| 0 <= j < i ==> b[j] != 0)
    } else {
        b
    }
}

/// Whether `c` is what the command packet `b` says.
pub open spec fn parses_as(b: Seq<u8>, c: Command) -> bool {
    b.len() >= 1 && {
        let rest = b.skip(1);
        match c {
            Command::Quit => b[0] == 0x01,
            Command::Init(s) => b[0] == 0x02 && s@ == rest,
            Command::Query(q) => b[0] == 0x03 && q@ == rest,
            Command::ListFields(t) => b[0] == 0x04 && t@ == until_nul(rest),
            Command::Ping => b[0] == 0x0E,
            Command::Prepare(q) => b[0] == 0x16 && q@ == rest,
            Command::Execute { stmt, params } => {
                &&& b[0] == 0x17
                &&& b.len() >= 10
                &&& le_value(b.subrange(6, 10)) == 1
                &&& stmt as nat == le_value(b.subrange(1, 5))
                &&& params@ == b.skip(10)
            },
            Command::SendLongData { stmt, param, data } => {
                &&& b[0] == 0x18
                &&& b.len() >= 7
                &&& stmt as nat == le_value(b.subrange(1, 5))
                &&& param as nat == le_value(b.subrange(5, 7))
                &&& data@ == b.skip(7)
            },
            Command::Close(stmt) => b[0] == 0x19 && b.len() >= 5 && stmt as nat == le_value(
                b.subrange(1, 5),
            ),
        }
    }
}

/// Whether the command packet `b` is well-formed: a known opcode with the
/// payload it calls for (an EXECUTE of exactly one iteration).
pub open spec fn is_command(b: Seq<u8>) -> bool {
    b.len() >= 1 && {
        let op = b[0];
        ||| op == 0x01 || op == 0x02 || op == 0x03 || op == 0x04 || op == 0x0E || op == 0x16
        ||| op == 0x17 && b.len() >= 10 && le_value(b.subrange(6, 10)) == 1
        ||| op == 0x18 && b.len() >= 7
        ||| op == 0x19 && b.len() >= 5
    }
}

/// Copies the bytes of `b` from `lo` on.
fn tail(b: &[u8], lo: usize) -> (r: Vec<u8>)
    requires
        lo <= b@.len(),
    ensures
        r@ == b@.skip(lo as int),
{
    let mut r: Vec<u8> = Vec::new();
    push_bytes(&mut r, slice_range(b, lo, b.len()));
    assert(r@ =~= b@.skip(lo as int));
    r
}

/// The position of the first 0 of `b` from `lo` on, or the length of `b`.
fn find_nul(b: &[u8], lo: usize) -> (r: usize)
    requires
        lo <= b@.len(),
    ensures
        lo <= r <= b@.len(),
        r < b@.len() ==> b@[r as int] == 0,
        forall|j: int| lo <= j < r ==> b@[j] != 0,
{
    let mut i = lo;
    while i < b.len()
        invariant
            lo <= i <= b@.len(),
            forall|j: int| lo <= j < i ==> b@[j] != 0,
        decreases b@.len() - i,
    {
        if b[i] == 0 {
            return i;
        }
        i = i + 1;
    }
    i
}

proof fn lemma_until_nul(b: Seq<u8>, k: int)
    requires
        0 <= k <= b.len(),
        k < b.len() ==> b[k] == 0,
        forall|j: int| 0 <= j < k ==> b[j] != 0,
    ensures
        until_nul(b) == b.take(k),
{
    if k < b.len() {
        let i = choose|i: int| 0 <= i < b.len() && b[i] == 0 && forall|j: int| 0 <= j < i ==> b[j] != 0;
        if i < k {
            assert(b[i] != 0);
        }
        if k < i {
            assert(b[k] != 0);
        }
    } else {
        assert(b.take(k) =~= b);
    }
}

/// Parses a command packet; `None` where it is not well-formed.
pub fn parse_command(b: &[u8]) -> (r: Option<Command>)
    ensures
        r is Some <==> is_command(b@),
        r matches Some(c) ==> parses_as(b@, c),
{
    if b.len() < 1 {
        return None;
    }
    let op = b[0];
    let ghost rest = b@.skip(1);
    if op == 0x01 {
        Some(Command::Quit)
    } else if op == 0x02 {
        Some(Command::Init(tail(b, 1)))
    } else if op == 0x03 {
        Some(Command::Query(tail(b, 1)))
    } else if op == 0x04 {
        let e = find_nul(b, 1);
        let mut t: Vec<u8> = Vec::new();
        push_bytes(&mut t, slice_range(b, 1, e));
        proof {
            lemma_until_nul(rest, e - 1);
            assert(t@ =~= rest.take(e - 1));
        }
        Some(Command::ListFields(t))
    } else if op == 0x0E {
        Some(Command::Ping)
    } else if op == 0x16 {
        Some(Command::Prepare(tail(b, 1)))
    } else if op == 0x17 {
        if b.len() < 10 {
            return None;
        }
        let stmt = read_le(b, 1, 4);
        let iterations = read_le(b, 6, 4);
        if iterations != 1 {
            return None;
        }
        proof {
            lemma_le_value_bound(b@.subrange(1, 5));
            lemma_pow256_values();
        }
        Some(Command::Execute { stmt: stmt as u32, params: tail(b, 10) })
    } else if op == 0x18 {
        if b.len() < 7 {
            return None;
        }
        let stmt = read_le(b, 1, 4);
        let param = read_le(b, 5, 2);
        proof {
            lemma_le_value_bound(b@.subrange(1, 5));
            lemma_le_value_bound(b@.subrange(5, 7));
            lemma_pow256_values();
        }
        Some(Command::SendLongData { stmt: stmt as u32, param: param as u16, data: tail(b, 7) })
    } else if op == 0x19 {
        if b.len() < 5 {
            return None;
        }
        let stmt = read_le(b, 1, 4);
        proof {
            lemma_le_value_bound(b@.subrange(1, 5));
            lemma_pow256_values();
        }
        Some(Command::Close(stmt as u32))
    } else {
        None
    }
}

/// What the client's handshake response says that this server uses.
#[derive(Debug, PartialEq, Eq)]
pub struct ClientHandshake {
    pub capabilities: u32,
    pub max_packet: u32,
    pub collation: u8,
    /// Empty in a TLS request, which stops before the user name.
    pub username: Vec<u8>,
}

/// Why a handshake response was refused.
#[derive(Clone, Copy, Debug, PartialEq, Eq, Structural)]
pub enum HandshakeError {
    /// It stops before all its fields.
    Incomplete,
    /// The client does not speak protocol 4.1.
    Unsupported,
}

/// The capabilities a handshake response states.
pub open spec fn caps_of(b: Seq<u8>) -> nat {
    le_value(b.subrange(0, 4))
}

/// Whether the auth response at the start of `a` is complete under the
/// capabilities `caps`.
pub open spec fn auth_complete(caps: u32, a: Seq<u8>) -> bool {
    if caps & CLIENT_PLUGIN_AUTH_LENENC_CLIENT_DATA != 0 {
        match lenenc_decode(a) {
            Some((n, h)) => a.len() >= h + n,
            None => false,
        }
    } else if caps & CLIENT_SECURE_CONNECTION != 0 {
        a.len() >= 1 && a.len() >= 1 + a[0]
    } else {
        exists|i: int| 0 <= i < a.len() && a[i] == 0
    }
}

/// The outcome of parsing the handshake response `b`.
#[verifier::opaque]
pub open spec fn handshake_outcome(b: Seq<u8>) -> Result<(u32, Seq<u8>), HandshakeError> {
    if b.len() < 32 {
        Err(HandshakeError::Incomplete)
    } else {
        let caps = caps_of(b) as u32;
        if caps & CLIENT_PROTOCOL_41 == 0 {
            Err(HandshakeError::Unsupported)
        } else if caps & CLIENT_SSL != 0 && b.len() == 32 {
            Ok((caps, Seq::empty()))
        } else {
            let rest = b.skip(32);
            if !(exists|i: int| 0 <= i < rest.len() && rest[i] == 0) {
                Err(HandshakeError::Incomplete)
            } else {
                let name = until_nul(rest);
                if auth_complete(caps, rest.skip(name.len() as int + 1)) {
                    Ok((caps, name))
                } else {
                    Err(HandshakeError::Incomplete)
                }
            }
        }
    }
}

/// Whether the auth response from `a` on in `b` is complete under `caps`.
fn auth_is_complete(b: &[u8], a: usize, caps: u32) -> (r: bool)
    requires
        a <= b@.len(),
    ensures
        r == auth_complete(caps, b@.skip(a as int)),
{
    let ghost auth = b@.skip(a as int);
    if caps & CLIENT_PLUGIN_AUTH_LENENC_CLIENT_DATA != 0 {
        assert(b@.skip(a as int) =~= b@.subrange(a as int, b@.len() as int));
        match read_lenenc_int(b, a) {
            None => false,
            Some((n, p)) => (b.len() - p) as u64 >= n,
        }
    } else if caps & CLIENT_SECURE_CONNECTION != 0 {
        a < b.len() && b.len() - a - 1 >= b[a] as usize
    } else {
        let z = find_nul(b, a);
        if z < b.len() {
            assert(auth[z - a] == 0);
            true
        } else {
            assert forall|i: int| 0 <= i < auth.len() implies auth[i] != 0 by {
                assert(auth[i] == b@[a + i]);
            }
            false
        }
    }
}

/// Parses the client's handshake response. Its auth response is checked for
/// shape only; what follows it is not read.
#[verifier::rlimit(50)]
pub fn parse_client_handshake(b: &[u8]) -> (r: Result<ClientHandshake, HandshakeError>)
    ensures
        match handshake_outcome(b@) {
            Ok((caps, name)) => r matches Ok(h) && h.capabilities == caps && h.username@ == name
                && h.max_packet as nat == le_value(b@.subrange(4, 8)) && h.collation == b@[8],
            Err(e) => r == Err::<ClientHandshake, HandshakeError>(e),
        },
{
    reveal(handshake_outcome);
    if b.len() < 32 {
        return Err(HandshakeError::Incomplete);
    }
    let caps64 = read_le(b, 0, 4);
    let maxp = read_le(b, 4, 4);
    proof {
        lemma_le_value_bound(b@.subrange(0, 4));
        lemma_le_value_bound(b@.subrange(4, 8));
        lemma_pow256_values();
    }
    let caps = caps64 as u32;
    let collation = b[8];
    if caps & CLIENT_PROTOCOL_41 == 0 {
        return Err(HandshakeError::Unsupported);
    }
    if caps & CLIENT_SSL != 0 && b.len() == 32 {
        return Ok(ClientHandshake { capabilities: caps, max_packet: maxp as u32, collation, username: Vec::new() });
    }
    let ghost rest = b@.skip(32);
    let e = find_nul(b, 32);
    if e == b.len() {
        assert(!(exists|i: int| 0 <= i < rest.len() && rest[i] == 0)) by {
            assert forall|i: int| 0 <= i < rest.len() implies rest[i] != 0 by {
                assert(rest[i] == b@[32 + i]);
            }
        }
        return Err(HandshakeError::Incomplete);
    }
    let mut name: Vec<u8> = Vec::new();
    push_bytes(&mut name, slice_range(b, 32, e));
    proof {
        assert(rest[e - 32] == 0);
        lemma_until_nul(rest, e - 32);
        assert(name@ =~= until_nul(rest));
    }
    let a = e + 1;
    assert(rest.skip(name@.len() as int + 1) =~= b@.skip(a as int));
    let complete = auth_is_complete(b, a, caps);
    assert(handshake_outcome(b@) == if complete { Ok::<(u32, Seq<u8>), HandshakeError>((caps, name@)) } else { Err(HandshakeError::Incomplete) });
    if !complete {
        return Err(HandshakeError::Incomplete);
    }
    Ok(ClientHandshake { capabilities: caps, max_packet: maxp as u32, collation, username: name })
}

} // verus!
