use vstd::prelude::*;
use crate::clock::now_unix_millis;
use crate::error::MiasmaError;
use crate::key32map::{Key32Map, count_where};
use crate::packet::{CircuitId, ReturnPath, decrypt_response, response_plain};

verus! {

/// State kept for an in-flight onion request: its return path and when it
/// was registered (ms).
#[derive(Debug)]
pub struct PendingCircuit {
    pub return_path: ReturnPath,
    pub created_at: u64,
}

/// The table key of a circuit id: its 16 bytes followed by 16 zero bytes.
pub open spec fn table_key(id: Seq<u8>) -> Seq<u8> {
    id + Seq::new(16, |i: int| 0u8)
}

/// Whether a circuit registered at `created_at` is still alive at `now`
/// (its age, saturating at zero, is below `ttl`).
pub open spec fn alive_at(created_at: u64, now: u64, ttl: u64) -> bool {
    (if now >= created_at { now - created_at } else { 0 }) < ttl
}

/// `alive_at` as a predicate on pending circuits.
pub open spec fn alive_pred(now: u64, ttl: u64) -> spec_fn(PendingCircuit) -> bool {
    |c: PendingCircuit| alive_at(c.created_at, now, ttl)
}

/// The circuits of `m` still alive at `now`.
pub open spec fn alive_circuits(m: Map<Seq<u8>, PendingCircuit>, now: u64, ttl: u64) -> Map<Seq<u8>, PendingCircuit> {
    Map::new(|k: Seq<u8>| m.contains_key(k) && alive_at(m[k].created_at, now, ttl), |k: Seq<u8>| m[k])
}

/// What delivering `blob` to a circuit with return path `rp` gives: the
/// blob opened with the first relay's key, then with the second relay's.
pub open spec fn delivered(rp: ReturnPath, blob: Seq<u8>) -> Option<Seq<u8>> {
    match response_plain(rp.r1_init_key@, blob) {
        Some(mid) => response_plain(rp.r2_r1_key@, mid),
        None => None,
    }
}

/// Whether `r` is what delivering `blob` to circuit `id` at `now` gives in
/// a table `m` with TTL `ttl`.
pub open spec fn delivery_outcome(m: Map<Seq<u8>, PendingCircuit>, ttl: u64, id: CircuitId, blob: Seq<u8>, now: u64,
    r: Result<Option<Vec<u8>>, MiasmaError>) -> bool {
    let k = table_key(id.0@);
    if !m.contains_key(k) || !alive_at(m[k].created_at, now, ttl) {
        r matches Ok(None)
    } else {
        match r {
            Ok(Some(pt)) => delivered(m[k].return_path, blob) == Some(pt@),
            Ok(None) => false,
            Err(e) => e is Decryption && delivered(m[k].return_path, blob) is None,
        }
    }
}

/// Tracks active onion circuits and routes incoming responses; a circuit
/// is forgotten once answered, or on the next registration after its TTL.
pub struct CircuitManager {
    pending: Key32Map<PendingCircuit>,
    ttl: u64,
}

/// The table key of a circuit id.
fn key_of(id: &CircuitId) -> (k: [u8; 32])
    ensures
        k@ == table_key(id.0@),
{
    let mut k = [0u8; 32];
    let mut i: usize = 0;
    while i < 16
        invariant
            i <= 16,
            k@.len() == 32,
            forall|j: int| 0 <= j < i ==> k@[j] == id.0@[j],
            forall|j: int| 16 <= j < 32 ==> k@[j] == 0,
        decreases 16 - i,
    {
        k[i] = id.0[i];
        i = i + 1;
    }
    assert(k@ =~= table_key(id.0@));
    k
}

impl CircuitManager {
    /// The pending circuits, by table key.
    pub closed spec fn view(&self) -> Map<Seq<u8>, PendingCircuit> {
        self.pending@
    }

    /// Internal consistency.
    pub closed spec fn wf(&self) -> bool {
        self.pending.wf()
    }

    /// How long an unanswered circuit is kept (ms).
    pub closed spec fn ttl_value(&self) -> u64 {
        self.ttl
    }

    /// A manager with the given TTL (ms) and no circuits.
    pub fn new(ttl: u64) -> (m: Self)
        ensures
            m.wf(),
            m@ == Map::<Seq<u8>, PendingCircuit>::empty(),
            m.ttl_value() == ttl,
    {
        CircuitManager { pending: Key32Map::new(), ttl }
    }

    /// A manager keeping circuits for 60 seconds (a DHT query and a relay
    /// round trip).
    pub fn with_default_ttl() -> (m: Self)
        ensures
            m.wf(),
            m@ == Map::<Seq<u8>, PendingCircuit>::empty(),
            m.ttl_value() == 60_000,
    {
        Self::new(60_000)
    }

    /// Register a circuit at time `now` (ms): circuits past their TTL are
    /// dropped first, then the return path is filed under its circuit id
    /// (replacing any earlier circuit with that id). Returns the id.
    pub fn register_at(&mut self, return_path: ReturnPath, now: u64) -> (id: CircuitId)
        requires
            old(self).wf(),
        ensures
            final(self).wf(),
            final(self).ttl_value() == old(self).ttl_value(),
            id == return_path.circuit_id,
            final(self)@ == alive_circuits(old(self)@, now, old(self).ttl_value()).insert(table_key(id.0@),
                PendingCircuit { return_path, created_at: now }),
    {
        let ttl = self.ttl;
        let keep = |c: &PendingCircuit| -> (r: bool)
            ensures
                r == alive_at(c.created_at, now, ttl),
            { (if now >= c.created_at { now - c.created_at } else { 0 }) < ttl };
        let ghost before = self.pending@;
        self.pending.retain(keep);
        let ghost kept = self.pending@;
        assert(kept =~= alive_circuits(before, now, ttl)) by {
            assert forall|k: Seq<u8>| #[trigger] kept.contains_key(k) <==> alive_circuits(before, now, ttl).contains_key(k) by {
                if before.contains_key(k) && !kept.contains_key(k) {
                    assert(keep.ensures((&before[k],), false));
                }
                if kept.contains_key(k) {
                    assert(keep.ensures((&before[k],), true));
                }
            }
        }
        let id = return_path.circuit_id;
        let key = key_of(&id);
        self.pending.insert(&key, PendingCircuit { return_path, created_at: now });
        id
    }

    /// Register a circuit now.
    pub fn register(&mut self, return_path: ReturnPath) -> (id: CircuitId)
        requires
            old(self).wf(),
        ensures
            final(self).wf(),
            final(self).ttl_value() == old(self).ttl_value(),
            id == return_path.circuit_id,
            exists|now: u64| final(self)@ == #[trigger] alive_circuits(old(self)@, now, old(self).ttl_value()).insert(
                table_key(id.0@), PendingCircuit { return_path, created_at: now }),
    {
        let now = now_unix_millis();
        self.register_at(return_path, now)
    }

    /// Deliver an encrypted response for a circuit at time `now` (ms):
    /// `Ok(None)` when the circuit is unknown, already answered or past its
    /// TTL; otherwise the response, opened through both relays' layers, or
    /// the decryption error. Either way the circuit is forgotten.
    pub fn deliver_response_at(&mut self, circuit_id: CircuitId, encrypted_blob: &[u8], now: u64)
        -> (r: Result<Option<Vec<u8>>, MiasmaError>)
        requires
            old(self).wf(),
        ensures
            final(self).wf(),
            final(self).ttl_value() == old(self).ttl_value(),
            final(self)@ == old(self)@.remove(table_key(circuit_id.0@)),
            delivery_outcome(old(self)@, old(self).ttl_value(), circuit_id, encrypted_blob@, now, r),
    {
        let key = key_of(&circuit_id);
        let (k1, k2, created_at) = match self.pending.get(&key) {
            None => return Ok(None),
            Some(entry) => (entry.return_path.r1_init_key, entry.return_path.r2_r1_key, entry.created_at),
        };
        self.pending.remove(&key);
        if !((if now >= created_at { now - created_at } else { 0 }) < self.ttl) {
            return Ok(None);
        }
        let intermediate = match decrypt_response(&k1, encrypted_blob) {
            Ok(v) => v,
            Err(e) => return Err(e),
        };
        match decrypt_response(&k2, intermediate.as_slice()) {
            Ok(pt) => Ok(Some(pt)),
            Err(e) => Err(e),
        }
    }

    /// Deliver an encrypted response for a circuit now: `Ok(None)` when the
    /// circuit is unknown or expired (see `deliver_response_at`).
    pub fn deliver_response(&mut self, circuit_id: CircuitId, encrypted_blob: &[u8])
        -> (r: Result<Option<Vec<u8>>, MiasmaError>)
        requires
            old(self).wf(),
        ensures
            final(self).wf(),
            final(self).ttl_value() == old(self).ttl_value(),
            final(self)@ == old(self)@.remove(table_key(circuit_id.0@)),
            !old(self)@.contains_key(table_key(circuit_id.0@)) ==> r matches Ok(None),
            exists|now: u64| #[trigger] delivery_outcome(old(self)@, old(self).ttl_value(), circuit_id, encrypted_blob@,
                now, r),
    {
        let now = now_unix_millis();
        let r = self.deliver_response_at(circuit_id, encrypted_blob, now);
        assert(delivery_outcome(old(self)@, old(self).ttl_value(), circuit_id, encrypted_blob@, now, r));
        r
    }

    /// Number of circuits alive at time `now` (ms).
    pub fn active_count_at(&self, now: u64) -> (n: usize)
        requires
            self.wf(),
        ensures
            n == count_where(self@, alive_pred(now, self.ttl_value())),
    {
        let ghost pred = alive_pred(now, self.ttl);
        let mut cnt: usize = 0;
        let mut i: usize = 0;
        let n = self.pending.len();
        while i < n
            invariant
                self.wf(),
                pred == alive_pred(now, self.ttl),
                n == self.pending.len_spec(),
                i <= n,
                cnt <= i,
                cnt == self.pending.count_prefix(pred, i as int),
            decreases n - i,
        {
            let (_, c) = self.pending.entry_at(i);
            if (if now >= c.created_at { now - c.created_at } else { 0 }) < self.ttl {
                cnt = cnt + 1;
            }
            i = i + 1;
        }
        proof {
            self.pending.lemma_count_values(pred);
        }
        cnt
    }

    /// Number of circuits alive now.
    pub fn active_count(&self) -> (n: usize)
        requires
            self.wf(),
        ensures
            exists|now: u64| n == count_where(self@, #[trigger] alive_pred(now, self.ttl_value())),
    {
        let now = now_unix_millis();
        self.active_count_at(now)
    }
}

/// A circuit registered at `now` and answered at `later` with a response
/// sealed for its second relay and then its first gives that response
/// back while the circuit is alive, and nothing once its TTL has passed:
/// what a registration files, a timely delivery opens.
pub proof fn lemma_register_then_deliver(m: Map<Seq<u8>, PendingCircuit>, rp: ReturnPath, now: u64, later: u64,
    ttl: u64, blob: Seq<u8>, mid: Seq<u8>, body: Seq<u8>, r: Result<Option<Vec<u8>>, MiasmaError>)
    requires
        response_plain(rp.r1_init_key@, blob) == Some(mid),
        response_plain(rp.r2_r1_key@, mid) == Some(body),
        delivery_outcome(alive_circuits(m, now, ttl).insert(table_key(rp.circuit_id.0@),
            PendingCircuit { return_path: rp, created_at: now }), ttl, rp.circuit_id, blob, later, r),
    ensures
        alive_at(now, later, ttl) ==> (r matches Ok(Some(pt)) && pt@ == body),
        !alive_at(now, later, ttl) ==> r matches Ok(None),
{
}

} // verus!
