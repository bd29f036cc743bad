use vstd::prelude::*;
use crate::bytes::{bytes_eq, slice_to_vec};
use crate::descriptor_store::ResolvedIntroPoint;
use crate::error::MiasmaError;
use crate::netaddr::{peer_id_bytes, peer_id_bytes_of};
use crate::onion_relay::RelayInfo;
use crate::text::{decimal, push_decimal, push_literal, string_from_chars};

verus! {

// ─── Relay path hierarchy ───────────────────────────────────────────────────

/// The kinds of relayed retrieval path, strongest first.
#[derive(Debug, Clone, Copy, PartialEq, Eq)]
pub enum RelayPath {
    /// Onion + rendezvous: content-blind, reaches holders behind NAT.
    OnionRendezvous,
    /// Standard onion: content-blind, directly reachable holders.
    Onion,
    /// Rendezvous relay: IP-only privacy, reaches holders behind NAT.
    RendezvousRelay,
    /// Relay circuit: IP-only privacy.
    RelayCircuit,
}

/// The position of a path in the hierarchy (0 is the strongest).
pub open spec fn path_rank(p: RelayPath) -> nat {
    match p {
        RelayPath::OnionRendezvous => 0,
        RelayPath::Onion => 1,
        RelayPath::RendezvousRelay => 2,
        RelayPath::RelayCircuit => 3,
    }
}

/// The relay hops a path provides.
pub open spec fn hops_of(p: RelayPath) -> nat {
    match p {
        RelayPath::OnionRendezvous | RelayPath::Onion => 2,
        RelayPath::RendezvousRelay | RelayPath::RelayCircuit => 1,
    }
}

/// Whether a path may be tried: it provides at least `min_relay_hops` hops
/// and what it needs is there (an onion relay and rendezvous holders; two
/// onion relays; rendezvous holders; at least `max(min_relay_hops, 1)`
/// relay peers).
pub open spec fn path_eligible(p: RelayPath, min_relay_hops: nat, onion_relays: nat, has_rendezvous: bool,
    relay_peers: nat) -> bool {
    &&& min_relay_hops <= hops_of(p)
    &&& match p {
        RelayPath::OnionRendezvous => has_rendezvous && onion_relays > 0,
        RelayPath::Onion => onion_relays >= 2,
        RelayPath::RendezvousRelay => has_rendezvous,
        RelayPath::RelayCircuit => relay_peers >= min_relay_hops && relay_peers >= 1,
    }
}

/// Whether `p` comes after the path last tried (every path does when none was).
pub open spec fn comes_after(tried: Option<RelayPath>, p: RelayPath) -> bool {
    match tried {
        None => true,
        Some(t) => path_rank(p) > path_rank(t),
    }
}

impl RelayPath {
    /// The relay hops this path provides.
    pub fn hops(&self) -> (n: usize)
        ensures
            n == hops_of(*self),
    {
        match self {
            RelayPath::OnionRendezvous | RelayPath::Onion => 2,
            RelayPath::RendezvousRelay | RelayPath::RelayCircuit => 1,
        }
    }
}

/// The path that follows `p` in the hierarchy, if any.
fn successor(p: Option<RelayPath>) -> (r: Option<RelayPath>)
    ensures
        match r {
            Some(q) => comes_after(p, q) && forall|x: RelayPath| comes_after(p, x) ==> path_rank(q) <= path_rank(x),
            None => forall|x: RelayPath| !comes_after(p, x),
        },
{
    match p {
        None => Some(RelayPath::OnionRendezvous),
        Some(RelayPath::OnionRendezvous) => Some(RelayPath::Onion),
        Some(RelayPath::Onion) => Some(RelayPath::RendezvousRelay),
        Some(RelayPath::RendezvousRelay) => Some(RelayPath::RelayCircuit),
        Some(RelayPath::RelayCircuit) => None,
    }
}

/// Whether `r` is a right choice of the next path after `tried`: the
/// strongest later eligible path, or a network error when none remains.
pub open spec fn next_path_outcome(tried: Option<RelayPath>, min_relay_hops: nat, onion_relays: nat,
    has_rendezvous: bool, relay_peers: nat, r: Result<RelayPath, MiasmaError>) -> bool {
    match r {
        Ok(p) => comes_after(tried, p) && path_eligible(p, min_relay_hops, onion_relays, has_rendezvous, relay_peers)
            && forall|q: RelayPath| comes_after(tried, q) && path_rank(q) < path_rank(p) ==> !path_eligible(q,
                min_relay_hops, onion_relays, has_rendezvous, relay_peers),
        Err(e) => e is Network && forall|q: RelayPath| comes_after(tried, q) ==> !path_eligible(q,
            min_relay_hops, onion_relays, has_rendezvous, relay_peers),
    }
}

/// The first choice: with at most two hops asked for, holders reachable by
/// rendezvous and a single onion-capable relay, retrieval starts with onion
/// + rendezvous; without rendezvous holders and with fewer than two onion
/// relays it never starts with either onion path.
pub proof fn lemma_first_relay_path(min_relay_hops: nat, onion_relays: nat, has_rendezvous: bool, relay_peers: nat,
    r: Result<RelayPath, MiasmaError>)
    requires
        next_path_outcome(None, min_relay_hops, onion_relays, has_rendezvous, relay_peers, r),
    ensures
        min_relay_hops <= 2 && has_rendezvous && onion_relays >= 1 ==> r == Ok::<RelayPath, MiasmaError>(
            RelayPath::OnionRendezvous),
        !has_rendezvous && onion_relays < 2 ==> !(r matches Ok(RelayPath::OnionRendezvous))
            && !(r matches Ok(RelayPath::Onion)),
        r matches Ok(p) ==> hops_of(p) >= min_relay_hops,
{
    if min_relay_hops <= 2 && has_rendezvous && onion_relays >= 1 {
        assert(path_eligible(RelayPath::OnionRendezvous, min_relay_hops, onion_relays, has_rendezvous, relay_peers));
        assert(comes_after(None, RelayPath::OnionRendezvous));
        if let Ok(p) = r {
            if p != RelayPath::OnionRendezvous {
                assert(path_rank(RelayPath::OnionRendezvous) < path_rank(p));
            }
        }
    }
}

/// The hierarchy in order: with every resource at hand and one hop asked
/// for, each path is followed by the next weaker one, onion + rendezvous,
/// standard onion, rendezvous relay, relay circuit, and then nothing.
pub proof fn lemma_relay_path_order(tried: Option<RelayPath>, r: Result<RelayPath, MiasmaError>)
    requires
        next_path_outcome(tried, 1, 2, true, 1, r),
    ensures
        tried is None ==> r == Ok::<RelayPath, MiasmaError>(RelayPath::OnionRendezvous),
        tried == Some(RelayPath::OnionRendezvous) ==> r == Ok::<RelayPath, MiasmaError>(RelayPath::Onion),
        tried == Some(RelayPath::Onion) ==> r == Ok::<RelayPath, MiasmaError>(RelayPath::RendezvousRelay),
        tried == Some(RelayPath::RendezvousRelay) ==> r == Ok::<RelayPath, MiasmaError>(RelayPath::RelayCircuit),
        tried == Some(RelayPath::RelayCircuit) ==> r is Err,
{
    let all = |x: RelayPath| path_eligible(x, 1, 2, true, 1);
    assert(all(RelayPath::OnionRendezvous) && all(RelayPath::Onion) && all(RelayPath::RendezvousRelay)
        && all(RelayPath::RelayCircuit));
    match tried {
        None => { assert(comes_after(tried, RelayPath::OnionRendezvous)); },
        Some(RelayPath::OnionRendezvous) => { assert(comes_after(tried, RelayPath::Onion)); },
        Some(RelayPath::Onion) => { assert(comes_after(tried, RelayPath::RendezvousRelay)); },
        Some(RelayPath::RendezvousRelay) => { assert(comes_after(tried, RelayPath::RelayCircuit)); },
        Some(RelayPath::RelayCircuit) => {},
    }
    if let Ok(p) = r {
        match tried {
            None => { if p != RelayPath::OnionRendezvous { assert(path_rank(RelayPath::OnionRendezvous) < path_rank(p)); } },
            Some(RelayPath::OnionRendezvous) => { if p != RelayPath::Onion { assert(path_rank(RelayPath::Onion) < path_rank(p)); } },
            Some(RelayPath::Onion) => { if p != RelayPath::RendezvousRelay { assert(path_rank(RelayPath::RendezvousRelay) < path_rank(p)); } },
            _ => {},
        }
    }
}

/// What each path needs: a hop count it cannot exceed (two for the onion
/// paths, one for the others), rendezvous holders for the rendezvous paths,
/// and for the relay circuit at least `max(min_relay_hops, 1)` relay peers.
/// No path serves more than two hops.
pub proof fn lemma_relay_path_needs(p: RelayPath, min_relay_hops: nat, onion_relays: nat, has_rendezvous: bool,
    relay_peers: nat)
    requires
        path_eligible(p, min_relay_hops, onion_relays, has_rendezvous, relay_peers),
    ensures
        min_relay_hops <= 2,
        (p == RelayPath::OnionRendezvous || p == RelayPath::Onion) ==> onion_relays >= 1,
        (p == RelayPath::RendezvousRelay || p == RelayPath::RelayCircuit) ==> min_relay_hops <= 1,
        (p == RelayPath::OnionRendezvous || p == RelayPath::RendezvousRelay) ==> has_rendezvous,
        p == RelayPath::RelayCircuit ==> relay_peers >= 1 && relay_peers >= min_relay_hops,
        p == RelayPath::Onion ==> onion_relays >= 2,
{
}

/// Onion + rendezvous needs one onion-capable relay, however many there
/// are; the standard onion path needs two.
pub proof fn lemma_onion_relay_needs(min_relay_hops: nat, a: nat, b: nat, has_rendezvous: bool, relay_peers: nat)
    requires
        a >= 1,
        b >= 1,
    ensures
        path_eligible(RelayPath::OnionRendezvous, min_relay_hops, a, has_rendezvous, relay_peers)
            == path_eligible(RelayPath::OnionRendezvous, min_relay_hops, b, has_rendezvous, relay_peers),
        !path_eligible(RelayPath::Onion, min_relay_hops, 1, has_rendezvous, relay_peers),
        !path_eligible(RelayPath::OnionRendezvous, min_relay_hops, 0, has_rendezvous, relay_peers),
{
}

/// The next relayed path to try after `tried` (from the strongest when
/// nothing was tried): the strongest later path that is eligible, or a
/// network error when none remains.
pub fn next_relay_path(tried: Option<RelayPath>, min_relay_hops: usize, onion_relays: usize, has_rendezvous: bool,
    relay_peers: usize) -> (r: Result<RelayPath, MiasmaError>)
    ensures
        next_path_outcome(tried, min_relay_hops as nat, onion_relays as nat, has_rendezvous, relay_peers as nat, r),
        match r {
            Ok(p) => comes_after(tried, p)
                && path_eligible(p, min_relay_hops as nat, onion_relays as nat, has_rendezvous, relay_peers as nat)
                && hops_of(p) >= min_relay_hops
                && forall|q: RelayPath| comes_after(tried, q) && path_rank(q) < path_rank(p) ==> !path_eligible(q,
                    min_relay_hops as nat, onion_relays as nat, has_rendezvous, relay_peers as nat),
            Err(e) => e is Network && forall|q: RelayPath| comes_after(tried, q) ==> !path_eligible(q,
                min_relay_hops as nat, onion_relays as nat, has_rendezvous, relay_peers as nat),
        },
{
    let mut cur = tried;
    loop
        invariant
            cur is None ==> tried is None,
            cur matches Some(c) ==> comes_after(tried, c) || tried == Some(c),
            forall|q: RelayPath| comes_after(tried, q) && !comes_after(cur, q) ==> !path_eligible(q,
                min_relay_hops as nat, onion_relays as nat, has_rendezvous, relay_peers as nat),
        decreases
            match cur {
                None => 4nat,
                Some(c) => (3 - path_rank(c)) as nat,
            },
    {
        match successor(cur) {
            None => {
                return Err(MiasmaError::Network(crate::text::owned("all eligible relay paths exhausted")));
            },
            Some(p) => {
                let ok = min_relay_hops <= p.hops() && match p {
                    RelayPath::OnionRendezvous => has_rendezvous && onion_relays > 0,
                    RelayPath::Onion => onion_relays >= 2,
                    RelayPath::RendezvousRelay => has_rendezvous,
                    RelayPath::RelayCircuit => relay_peers >= min_relay_hops && relay_peers >= 1,
                };
                if ok {
                    return Ok(p);
                }
                cur = Some(p);
            },
        }
    }
}

// ─── Relay choice for onion retrieval ───────────────────────────────────────

/// The index of the first relay whose peer id differs from `r2_peer_id`:
/// the first hop of a circuit must never be its second.
pub fn pick_first_relay(relays: &Vec<RelayInfo>, r2_peer_id: &Vec<u8>) -> (r: Option<usize>)
    ensures
        r matches Some(i) ==> i < relays@.len() && relays@[i as int].peer_id@ != r2_peer_id@
            && forall|j: int| 0 <= j < i ==> (#[trigger] relays@[j]).peer_id@ == r2_peer_id@,
        r is None ==> forall|j: int| 0 <= j < relays@.len() ==> (#[trigger] relays@[j]).peer_id@ == r2_peer_id@,
{
    let mut i: usize = 0;
    while i < relays.len()
        invariant
            i <= relays@.len(),
            forall|j: int| 0 <= j < i ==> (#[trigger] relays@[j]).peer_id@ == r2_peer_id@,
        decreases relays@.len() - i,
    {
        if !bytes_eq(relays[i].peer_id.as_slice(), r2_peer_id.as_slice()) {
            return Some(i);
        }
        i = i + 1;
    }
    None
}

/// Whether `i` is the first introduction point that publishes an onion key.
pub open spec fn first_onion_intro(resolved: Seq<ResolvedIntroPoint>, i: int) -> bool {
    &&& 0 <= i < resolved.len()
    &&& resolved[i].onion_pubkey is Some
    &&& forall|j: int| 0 <= j < i ==> (#[trigger] resolved[j]).onion_pubkey is None
}

/// Whether `info` is the relay record of introduction point `ip`: its
/// binary peer id, its onion key and the UTF-8 bytes of its first address.
pub open spec fn intro_record(ip: ResolvedIntroPoint, info: RelayInfo) -> bool {
    &&& ip.addresses@.len() > 0
    &&& peer_id_bytes_of(ip.peer_id@) == Some(info.peer_id@)
    &&& ip.onion_pubkey == Some(info.onion_pubkey)
    &&& info.addr@ == vstd::utf8::encode_utf8(ip.addresses@[0]@)
}

/// The second hop for a holder reached through introduction points: the
/// record of the first onion-capable introduction point; `None` when no
/// point is onion-capable, or that point has no address or its peer id
/// does not parse.
pub fn intro_relay(resolved: &Vec<ResolvedIntroPoint>) -> (r: Option<RelayInfo>)
    ensures
        match r {
            Some(info) => exists|i: int| #[trigger] first_onion_intro(resolved@, i) && intro_record(resolved@[i], info),
            None => forall|i: int| #[trigger] first_onion_intro(resolved@, i) ==> resolved@[i].addresses@.len() == 0
                || peer_id_bytes_of(resolved@[i].peer_id@) is None,
        },
{
    let mut i: usize = 0;
    while i < resolved.len()
        invariant
            i <= resolved@.len(),
            forall|j: int| 0 <= j < i ==> (#[trigger] resolved@[j]).onion_pubkey is None,
        decreases resolved@.len() - i,
    {
        let ip = &resolved[i];
        if let Some(pk) = ip.onion_pubkey {
            assert(first_onion_intro(resolved@, i as int));
            assert forall|k: int| #[trigger] first_onion_intro(resolved@, k) implies k == i by {
                if k < i {
                    assert(resolved@[k].onion_pubkey is None);
                } else if k > i {
                    assert(resolved@[i as int].onion_pubkey is None);
                }
            }
            if ip.addresses.len() == 0 {
                return None;
            }
            let pid = match peer_id_bytes(ip.peer_id.as_str()) {
                Some(b) => b,
                None => return None,
            };
            let addr = ip.addresses[0].as_str().as_bytes();
            let info = RelayInfo { peer_id: pid, onion_pubkey: pk, addr: slice_to_vec(addr, 0, addr.len()) };
            assert(addr@.subrange(0, addr@.len() as int) =~= addr@);
            assert(intro_record(resolved@[i as int], info));
            return Some(info);
        }
        i = i + 1;
    }
    None
}

/// A copy of a relay record.
fn copy_relay(r: &RelayInfo) -> (c: RelayInfo)
    ensures
        c.peer_id@ == r.peer_id@,
        c.onion_pubkey == r.onion_pubkey,
        c.addr@ == r.addr@,
{
    RelayInfo { peer_id: r.peer_id.clone(), onion_pubkey: r.onion_pubkey, addr: r.addr.clone() }
}

/// The two relays of one shard's onion circuit: the second hop is the
/// holder's introduction point when the holder is reached by rendezvous,
/// else the second relay of the pool; the first hop is the first relay of
/// the pool that is not the second. The shard is skipped (`None`) when the
/// second hop is missing or no distinct first hop exists.
pub fn plan_shard_hops(relays: &Vec<RelayInfo>, intro: Option<RelayInfo>, holder_is_rendezvous: bool)
    -> (r: Option<(usize, RelayInfo)>)
    ensures
        match r {
            Some((i, r2)) => {
                &&& i < relays@.len()
                &&& relays@[i as int].peer_id@ != r2.peer_id@
                &&& forall|j: int| 0 <= j < i ==> (#[trigger] relays@[j]).peer_id@ == r2.peer_id@
                &&& if holder_is_rendezvous {
                    intro matches Some(x) && x.peer_id@ == r2.peer_id@ && x.onion_pubkey == r2.onion_pubkey
                        && x.addr@ == r2.addr@
                } else {
                    relays@.len() >= 2 && relays@[1].peer_id@ == r2.peer_id@
                        && relays@[1].onion_pubkey == r2.onion_pubkey && relays@[1].addr@ == r2.addr@
                }
            },
            None => {
                let r2_id = if holder_is_rendezvous {
                    match intro {
                        Some(x) => Some(x.peer_id@),
                        None => None,
                    }
                } else if relays@.len() >= 2 {
                    Some(relays@[1].peer_id@)
                } else {
                    None
                };
                r2_id matches Some(id) ==> forall|j: int| 0 <= j < relays@.len()
                    ==> (#[trigger] relays@[j]).peer_id@ == id
            },
        },
{
    let r2 = if holder_is_rendezvous {
        match intro {
            Some(x) => x,
            None => return None,
        }
    } else {
        if relays.len() < 2 {
            return None;
        }
        copy_relay(&relays[1])
    };
    match pick_first_relay(relays, &r2.peer_id) {
        Some(i) => Some((i, r2)),
        None => None,
    }
}

// ─── Shard collection ───────────────────────────────────────────────────────

/// Whether an onion retrieval that has `collected` shards still tries the
/// next location: it stops as soon as it has the `k` it needs.
pub fn needs_more_shards(collected: usize, k: usize) -> (b: bool)
    ensures
        b == (collected < k),
{
    collected < k
}

/// The message of a retrieval that ended short of shards:
/// `"<label>: got <collected>/<k> shards"`.
pub open spec fn short_of_shards_text(label: Seq<char>, collected: nat, k: nat) -> Seq<char> {
    label + ": got "@ + decimal(collected) + "/"@ + decimal(k) + " shards"@
}

/// The verdict on an onion retrieval's shard collection: success with at
/// least `k` shards, else a secret-sharing error saying how many it got.
pub fn shard_collection_outcome(label: &str, collected: usize, k: usize) -> (r: Result<(), MiasmaError>)
    ensures
        r is Ok <==> collected >= k,
        r matches Err(e) ==> (e matches MiasmaError::Sss(m) && m@ == short_of_shards_text(label@, collected as nat,
            k as nat)),
{
    if collected >= k {
        return Ok(());
    }
    let mut text: Vec<char> = Vec::new();
    push_literal(&mut text, label);
    push_literal(&mut text, ": got ");
    push_decimal(&mut text, collected as u64);
    push_literal(&mut text, "/");
    push_decimal(&mut text, k as u64);
    push_literal(&mut text, " shards");
    assert(text@ =~= short_of_shards_text(label@, collected as nat, k as nat));
    Err(MiasmaError::Sss(string_from_chars(&text)))
}

} // verus!
