use vstd::prelude::*;

verus! {

/// Node classification — determines storage and routing duties.
#[derive(Debug, Clone, Copy, PartialEq, Eq)]
pub enum NodeType {
    /// Stores a limited share quota.
    Light,
    /// Stores full quota.
    Full,
    /// Translates BitTorrent magnets into dissolves.
    Bridge,
    /// Well-known entry points.
    Bootstrap,
}

impl Default for NodeType {
    /// Full.
    fn default() -> (t: Self)
        ensures
            t == NodeType::Full,
    {
        NodeType::Full
    }
}

/// Location of a single shard on the network.
#[derive(Debug, Clone)]
pub struct ShardLocation {
    /// libp2p PeerId bytes.
    pub peer_id_bytes: Vec<u8>,
    /// Global shard index.
    pub shard_index: u16,
    /// Multiaddr strings where this peer can be reached.
    pub addrs: Vec<String>,
}

/// DHT record stored under a MID key.
#[derive(Debug, Clone)]
pub struct DhtRecord {
    /// Raw 32-byte BLAKE3 digest of the MID.
    pub mid_digest: [u8; 32],
    /// Number of data shards (k).
    pub data_shards: u8,
    /// Total shards (n).
    pub total_shards: u8,
    /// Protocol version.
    pub version: u8,
    /// Known shard locations at time of dissolution.
    pub locations: Vec<ShardLocation>,
    /// Unix timestamp (seconds) when this record was published.
    pub published_at: u64,
}

impl DhtRecord {
    /// DHT key used to store/retrieve this record: the raw MID digest.
    pub fn dht_key(&self) -> (k: Vec<u8>)
        ensures
            k@ == self.mid_digest@,
    {
        let mut k: Vec<u8> = Vec::new();
        crate::bytes::extend_bytes(&mut k, &self.mid_digest);
        assert(k@ =~= self.mid_digest@);
        k
    }
}

} // verus!
