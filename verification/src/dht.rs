use vstd::prelude::*;
use crate::key32map::Key32Map;
use crate::types::DhtRecord;

verus! {

/// The DHT record store used while onion routing is bypassed: records kept
/// locally, keyed by their MID digest.
pub struct BypassOnionDhtExecutor {
    store: Key32Map<DhtRecord>,
}

impl BypassOnionDhtExecutor {
    /// The stored records, by MID digest.
    pub closed spec fn view(&self) -> Map<Seq<u8>, DhtRecord> {
        self.store@
    }

    /// Internal consistency.
    pub closed spec fn wf(&self) -> bool {
        self.store.wf()
    }

    /// An empty store.
    pub fn new() -> (e: Self)
        ensures
            e.wf(),
            e@ == Map::<Seq<u8>, DhtRecord>::empty(),
    {
        BypassOnionDhtExecutor { store: Key32Map::new() }
    }

    /// Store a record under its MID digest, replacing an earlier one.
    pub fn put(&mut self, record: DhtRecord)
        requires
            old(self).wf(),
        ensures
            final(self).wf(),
            final(self)@ == old(self)@.insert(record.mid_digest@, record),
    {
        let key = record.mid_digest;
        self.store.insert(&key, record);
    }

    /// The record stored under a MID digest, if any.
    pub fn get(&self, mid: &[u8; 32]) -> (r: Option<&DhtRecord>)
        requires
            self.wf(),
        ensures
            match r {
                Some(rec) => self@.contains_key(mid@) && self@[mid@] == *rec,
                None => !self@.contains_key(mid@),
            },
    {
        self.store.get(mid)
    }
}

impl Default for BypassOnionDhtExecutor {
    /// An empty store.
    fn default() -> (e: Self)
        ensures
            e.wf(),
            e@ == Map::<Seq<u8>, DhtRecord>::empty(),
    {
        Self::new()
    }
}

/// A get after a put under the same digest gives the record put; other
/// digests are unaffected.
pub proof fn lemma_get_after_put(m: Map<Seq<u8>, DhtRecord>, record: DhtRecord, mid: Seq<u8>)
    ensures
        m.insert(record.mid_digest@, record).contains_key(record.mid_digest@),
        m.insert(record.mid_digest@, record)[record.mid_digest@] == record,
        mid != record.mid_digest@ ==> (m.insert(record.mid_digest@, record).contains_key(mid) == m.contains_key(mid)
            && (m.contains_key(mid) ==> m.insert(record.mid_digest@, record)[mid] == m[mid])),
{
}

} // verus!
