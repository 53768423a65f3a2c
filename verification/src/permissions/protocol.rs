//! The messages between the shell and the permission daemon, and their
//! framing on a stream: a little-endian `u32` byte length, then that many
//! bytes of encoded payload.

use vstd::prelude::*;

use crate::text::copy_string;

verus! {

/// The two tiers of risk. The shell only answers `Ask` requests; a
/// `Critical` one needs a password and is refused here.
#[derive(Debug, Clone, Copy, PartialEq, Eq, Structural)]
pub enum RiskLevel {
    Ask,
    Critical,
}

/// A request waiting for a decision.
#[derive(Debug)]
pub struct PermissionRequest {
    pub id: u64,
    pub app_name: String,
    pub action: String,
    pub risk: RiskLevel,
}

/// A request as values.
pub struct RequestView {
    pub id: u64,
    pub app_name: Seq<char>,
    pub action: Seq<char>,
    pub risk: RiskLevel,
}

impl PermissionRequest {
    pub open spec fn view(&self) -> RequestView {
        RequestView { id: self.id, app_name: self.app_name@, action: self.action@, risk: self.risk }
    }

    /// A copy of this request.
    pub fn duplicate(&self) -> (r: Self)
        ensures
            r.view() == self.view(),
    {
        PermissionRequest {
            id: self.id,
            app_name: copy_string(&self.app_name),
            action: copy_string(&self.action),
            risk: self.risk,
        }
    }
}

/// How long an `allow` lasts. There is no permanent grant: that needs a
/// password, which the shell never asks for.
#[derive(Debug, Clone, Copy, PartialEq, Eq, Structural)]
pub enum GrantScope {
    Once,
    Session,
}

/// What the shell sends.
#[derive(Debug)]
pub enum ShellToService {
    /// Registers this shell for the requests of its session.
    Hello { session_id: String },
    /// The answer to request `id`.
    Decision { id: u64, allow: bool, scope: GrantScope },
}

/// What the daemon sends.
#[derive(Debug)]
pub enum ServiceToShell {
    Request(PermissionRequest),
    /// A decision came for a request that expired or was answered
    /// elsewhere.
    AlreadyResolved { id: u64 },
}

/// The four little-endian bytes of `n`.
pub open spec fn le_bytes(n: u32) -> Seq<u8> {
    seq![
        (n % 256) as u8,
        ((n / 256) % 256) as u8,
        ((n / 65536) % 256) as u8,
        (n / 16777216) as u8,
    ]
}

/// The number that four little-endian bytes stand for.
pub open spec fn le_value(b: Seq<u8>) -> int {
    b[0] + 256 * b[1] + 65536 * b[2] + 16777216 * b[3]
}

/// The length a frame announces for a payload of `len` bytes: the length
/// taken modulo 2^32, as a `u32` cast does.
pub open spec fn announced(len: nat) -> u32 {
    (len % 4294967296) as u32
}

/// The frame that carries `payload`: its length, then the payload.
pub fn frame(payload: &Vec<u8>) -> (r: Vec<u8>)
    ensures
        r@ == le_bytes(announced(payload@.len())) + payload@,
{
    let len64 = payload.len() as u64;
    let n = (len64 % 4294967296u64) as u32;
    assert(n == announced(payload@.len()));
    let mut r: Vec<u8> = Vec::new();
    r.push((n % 256) as u8);
    r.push(((n / 256) % 256) as u8);
    r.push(((n / 65536) % 256) as u8);
    r.push((n / 16777216) as u8);
    assert(r@ =~= le_bytes(n));
    let mut i: usize = 0;
    while i < payload.len()
        invariant
            i <= payload@.len(),
            r@ == le_bytes(n) + payload@.subrange(0, i as int),
        decreases payload@.len() - i,
    {
        r.push(payload[i]);
        i = i + 1;
        assert(r@ =~= le_bytes(n) + payload@.subrange(0, i as int));
    }
    assert(payload@.subrange(0, payload@.len() as int) =~= payload@);
    r
}

/// The payload length a frame's four header bytes announce.
pub fn frame_len(header: [u8; 4]) -> (n: usize)
    ensures
        n == le_value(header@),
{
    let v: u32 = header[0] as u32 + 256 * (header[1] as u32) + 65536 * (header[2] as u32)
        + 16777216 * (header[3] as u32);
    v as usize
}

/// The bytes of `n` read back give `n`.
pub proof fn lemma_le_roundtrip(n: u32)
    ensures
        le_value(le_bytes(n)) == n,
{
    let b0 = n % 256;
    let q0 = n / 256;
    let b1 = q0 % 256;
    let q1 = q0 / 256;
    let b2 = q1 % 256;
    let b3 = q1 / 256;
    assert(n == b0 + 256 * q0);
    assert(q0 == b1 + 256 * q1);
    assert(q1 == b2 + 256 * b3);
    assert(n / 65536 == q1) by {
        vstd::arithmetic::div_mod::lemma_div_denominator(n as int, 256, 256);
    }
    assert(n / 16777216 == b3) by {
        vstd::arithmetic::div_mod::lemma_div_denominator(n as int, 65536, 256);
        vstd::arithmetic::div_mod::lemma_div_denominator(n as int, 256, 256);
    }
}

/// Framing keeps the payload whole: the header of a frame announces the
/// length of the payload that follows it, for every payload shorter than
/// 2^32 bytes.
pub proof fn law_frame_roundtrip(payload: Seq<u8>)
    requires
        payload.len() < 4294967296,
    ensures
        le_value((le_bytes(announced(payload.len())) + payload).subrange(0, 4)) == payload.len(),
        (le_bytes(announced(payload.len())) + payload).subrange(4, 4 + payload.len() as int) == payload,
{
    let f = le_bytes(announced(payload.len())) + payload;
    assert(f.subrange(0, 4) =~= le_bytes(announced(payload.len())));
    assert(f.subrange(4, 4 + payload.len() as int) =~= payload);
    lemma_le_roundtrip(announced(payload.len()));
}

} // verus!
