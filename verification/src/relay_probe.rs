use vstd::prelude::*;
use crate::bytes::extend_bytes;

verus! {

/// Max message size for the relay probe protocol (256 bytes).
pub const PROBE_MSG_MAX: usize = 256;

/// Challenge sent to a relay candidate: a random nonce to echo back.
#[derive(Debug, Clone, Copy, PartialEq, Eq)]
pub struct ProbeRequest {
    pub nonce: [u8; 32],
}

/// Echo response from the relay.
#[derive(Debug, Clone, Copy, PartialEq, Eq)]
pub struct ProbeResponse {
    /// Must equal the request nonce for verification.
    pub nonce: [u8; 32],
}

/// The 32 nonce bytes at the start of `b`, if there are that many.
fn nonce_prefix(b: &[u8]) -> (r: Option<[u8; 32]>)
    ensures
        match r {
            Some(n) => b@.len() >= 32 && n@ == b@.subrange(0, 32),
            None => b@.len() < 32,
        },
{
    if b.len() < 32 {
        return None;
    }
    let mut n = [0u8; 32];
    let mut i: usize = 0;
    while i < 32
        invariant
            i <= 32,
            b@.len() >= 32,
            n@.len() == 32,
            forall|j: int| 0 <= j < i ==> n@[j] == b@[j],
        decreases 32 - i,
    {
        n[i] = b[i];
        i = i + 1;
    }
    assert(n@ =~= b@.subrange(0, 32));
    Some(n)
}

impl ProbeRequest {
    /// The wire form: the 32 nonce bytes.
    pub fn to_bytes(&self) -> (v: Vec<u8>)
        ensures
            v@ == self.nonce@,
    {
        let mut v: Vec<u8> = Vec::new();
        extend_bytes(&mut v, self.nonce.as_slice());
        assert(v@ =~= self.nonce@);
        v
    }

    /// Decode a request: the first 32 bytes are the nonce (any trailing
    /// bytes are ignored); `None` when fewer than 32 bytes arrive.
    pub fn from_bytes(b: &[u8]) -> (r: Option<Self>)
        ensures
            match r {
                Some(q) => b@.len() >= 32 && q.nonce@ == b@.subrange(0, 32),
                None => b@.len() < 32,
            },
    {
        match nonce_prefix(b) {
            Some(nonce) => Some(ProbeRequest { nonce }),
            None => None,
        }
    }
}

impl ProbeResponse {
    /// The echo of a request: the same nonce.
    pub fn echo(req: &ProbeRequest) -> (r: Self)
        ensures
            r.nonce == req.nonce,
    {
        ProbeResponse { nonce: req.nonce }
    }

    /// The wire form: the 32 nonce bytes.
    pub fn to_bytes(&self) -> (v: Vec<u8>)
        ensures
            v@ == self.nonce@,
    {
        let mut v: Vec<u8> = Vec::new();
        extend_bytes(&mut v, self.nonce.as_slice());
        assert(v@ =~= self.nonce@);
        v
    }

    /// Decode a response as `ProbeRequest::from_bytes` does.
    pub fn from_bytes(b: &[u8]) -> (r: Option<Self>)
        ensures
            match r {
                Some(q) => b@.len() >= 32 && q.nonce@ == b@.subrange(0, 32),
                None => b@.len() < 32,
            },
    {
        match nonce_prefix(b) {
            Some(nonce) => Some(ProbeResponse { nonce }),
            None => None,
        }
    }

    /// Whether this response proves the probe: it echoes the nonce.
    pub fn matches(&self, req: &ProbeRequest) -> (b: bool)
        ensures
            b == (self.nonce@ == req.nonce@),
    {
        crate::credential::key32_eq(&self.nonce, &req.nonce)
    }
}

/// Whether a length prefix announces a probe message the protocol accepts.
pub fn probe_frame_ok(len: u32) -> (b: bool)
    ensures
        b == (len <= PROBE_MSG_MAX),
{
    (len as usize) <= PROBE_MSG_MAX
}

/// Decoding the wire form of a request gives the request back.
pub proof fn lemma_probe_roundtrip(q: ProbeRequest, bytes: Seq<u8>)
    requires
        bytes == q.nonce@,
    ensures
        bytes.len() >= 32,
        bytes.subrange(0, 32) == q.nonce@,
{
    assert(bytes.subrange(0, 32) =~= q.nonce@);
}

} // verus!
