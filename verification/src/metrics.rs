use vstd::prelude::*;
use crate::credential::CredentialTier;
use crate::descriptor::PeerDescriptor;
use crate::descriptor_store::{derefs, meets_tier_spec};
use crate::text::{chars_eq, chars_of, extend_chars, split_chars, split_fields, string_from_chars};

verus! {

/// The `/16` prefix `"a.b"` of an address written `/ip4/a.b.c.d/...`, if
/// the address has that shape: the second `/`-field is `ip4` and the third
/// has at least two `.`-fields.
pub open spec fn ipv4_prefix_16(addr: Seq<char>) -> Option<Seq<char>> {
    let parts = split_fields(addr, '/');
    if parts.len() >= 3 && parts[1] == "ip4"@ {
        let ip = split_fields(parts[2], '.');
        if ip.len() >= 2 {
            Some(ip[0] + "."@ + ip[1])
        } else {
            None
        }
    } else {
        None
    }
}

/// Extract the IPv4 `/16` prefix (`"a.b"`) from a multiaddr string.
pub fn extract_ipv4_prefix_16(addr: &str) -> (r: Option<String>)
    ensures
        match r {
            Some(p) => ipv4_prefix_16(addr@) == Some(p@),
            None => ipv4_prefix_16(addr@) is None,
        },
{
    let chars = chars_of(addr);
    let parts = split_chars(&chars, '/');
    proof {
        assert(parts@.len() == split_fields(addr@, '/').len());
    }
    if parts.len() >= 3 {
        let ip4 = chars_of("ip4");
        assert(parts@[1]@ == split_fields(addr@, '/')[1]);
        if chars_eq(&parts[1], &ip4) {
            let ip_parts = split_chars(&parts[2], '.');
            assert(parts@[2]@ == split_fields(addr@, '/')[2]);
            assert(ip_parts@.len() == split_fields(parts@[2]@, '.').len());
            if ip_parts.len() >= 2 {
                let mut out: Vec<char> = Vec::new();
                extend_chars(&mut out, &ip_parts[0]);
                out.push('.');
                extend_chars(&mut out, &ip_parts[1]);
                assert(ip_parts@[0]@ == split_fields(parts@[2]@, '.')[0]);
                assert(ip_parts@[1]@ == split_fields(parts@[2]@, '.')[1]);
                let dot = ".";
                proof {
                    reveal_strlit(".");
                }
                assert(out@ =~= ip_parts@[0]@ + "."@ + ip_parts@[1]@);
                return Some(string_from_chars(&out));
            }
        }
    }
    None
}

/// Whether a descriptor offers relaying.
pub open spec fn relay_desc() -> spec_fn(PeerDescriptor) -> bool {
    |d: PeerDescriptor| d.capabilities.can_relay
}

/// Whether a descriptor is pseudonymous: relayed, or carrying a credential.
pub open spec fn pseudonymous_desc() -> spec_fn(PeerDescriptor) -> bool {
    |d: PeerDescriptor| d.reachability is Relayed || d.credential is Some
}

/// Whether a descriptor holds a valid credential of at least Observed tier.
pub open spec fn credentialed_desc() -> spec_fn(PeerDescriptor) -> bool {
    |d: PeerDescriptor| meets_tier_spec(d, CredentialTier::Observed)
}

/// Whether a descriptor carries a BBS+ proof.
pub open spec fn bbs_desc() -> spec_fn(PeerDescriptor) -> bool {
    |d: PeerDescriptor| d.bbs_proof is Some
}

/// Whether `p` is the `/16` prefix of address `j` of relay descriptor `i`.
pub open spec fn relay_prefix_at(ds: Seq<PeerDescriptor>, i: int, j: int, p: Seq<char>) -> bool {
    &&& 0 <= i < ds.len()
    &&& ds[i].capabilities.can_relay
    &&& 0 <= j < ds[i].addresses@.len()
    &&& ipv4_prefix_16(ds[i].addresses@[j]@) == Some(p)
}

/// The distinct IPv4 `/16` prefixes among the addresses of relay descriptors.
pub open spec fn relay_prefixes(ds: Seq<PeerDescriptor>) -> Set<Seq<char>> {
    Set::new(|p: Seq<char>| exists|i: int, j: int| #[trigger] relay_prefix_at(ds, i, j, p))
}

/// The integer measures of a set of active descriptors.
#[derive(Debug, Clone, Copy, PartialEq, Eq)]
pub struct OutcomeCounts {
    /// Descriptors in all.
    pub total_descriptors: usize,
    /// Descriptors that offer relaying.
    pub relay_count: usize,
    /// Distinct IPv4 `/16` prefixes among relay addresses.
    pub relay_prefix_diversity: usize,
    /// Descriptors that are relayed or carry a credential.
    pub pseudonymous_count: usize,
    /// Descriptors with a valid credential of at least Observed tier.
    pub credentialed_count: usize,
    /// Descriptors that carry a BBS+ proof.
    pub bbs_credentialed_count: usize,
}

/// Whether `v` holds `x`.
fn has_chars(v: &Vec<Vec<char>>, x: &Vec<char>) -> (b: bool)
    ensures
        b == exists|k: int| 0 <= k < v@.len() && (#[trigger] v@[k])@ == x@,
{
    let mut k: usize = 0;
    while k < v.len()
        invariant
            k <= v@.len(),
            forall|m: int| 0 <= m < k ==> (#[trigger] v@[m])@ != x@,
        decreases v@.len() - k,
    {
        if chars_eq(&v[k], x) {
            return true;
        }
        k = k + 1;
    }
    false
}

/// The views of a list of character vectors.
pub open spec fn char_views(v: Seq<Vec<char>>) -> Seq<Seq<char>> {
    v.map_values(|x: Vec<char>| x@)
}

/// Add the `/16` prefixes of relay descriptor `i`'s addresses to `prefixes`,
/// each once.
fn add_relay_prefixes(prefixes: &mut Vec<Vec<char>>, ds: Ghost<Seq<PeerDescriptor>>, i: usize, d: &PeerDescriptor)
    requires
        0 <= i < ds@.len(),
        ds@[i as int] == *d,
        d.capabilities.can_relay,
        char_views(old(prefixes)@).no_duplicates(),
        forall|p: Seq<char>| char_views(old(prefixes)@).contains(p)
            <==> exists|a: int, b: int| a < i && #[trigger] relay_prefix_at(ds@, a, b, p),
    ensures
        char_views(final(prefixes)@).no_duplicates(),
        forall|p: Seq<char>| char_views(final(prefixes)@).contains(p)
            <==> exists|a: int, b: int| a <= i && #[trigger] relay_prefix_at(ds@, a, b, p),
{
    let mut j: usize = 0;
    while j < d.addresses.len()
        invariant
            0 <= i < ds@.len(),
            ds@[i as int] == *d,
            d.capabilities.can_relay,
            j <= d.addresses@.len(),
            char_views(prefixes@).no_duplicates(),
            forall|p: Seq<char>| char_views(prefixes@).contains(p)
                <==> exists|a: int, b: int| (a < i || (a == i && b < j)) && #[trigger] relay_prefix_at(ds@, a, b, p),
        decreases d.addresses@.len() - j,
    {
        let ghost before = char_views(prefixes@);
        if let Some(p) = extract_ipv4_prefix_16(d.addresses[j].as_str()) {
            let pc = chars_of(p.as_str());
            assert(relay_prefix_at(ds@, i as int, j as int, pc@));
            if !has_chars(prefixes, &pc) {
                assert(!before.contains(pc@)) by {
                    if before.contains(pc@) {
                        let k = choose|k: int| 0 <= k < before.len() && before[k] == pc@;
                        assert(prefixes@[k]@ == pc@);
                    }
                }
                prefixes.push(pc);
                assert(char_views(prefixes@) =~= before.push(pc@));
                assert(char_views(prefixes@)[before.len() as int] == pc@);
            } else {
                proof {
                    let k = choose|k: int| 0 <= k < prefixes@.len() && (#[trigger] prefixes@[k])@ == pc@;
                    assert(before[k] == pc@);
                    assert(char_views(prefixes@) == before);
                }
            }
            assert forall|q: Seq<char>| char_views(prefixes@).contains(q)
                <==> exists|a: int, b: int| (a < i || (a == i && b < j + 1)) && #[trigger] relay_prefix_at(ds@, a, b, q) by {
                if char_views(prefixes@).contains(q) {
                    if before.contains(q) {
                        let (a, b) = choose|a: int, b: int| (a < i || (a == i && b < j)) && #[trigger] relay_prefix_at(ds@, a, b, q);
                        assert((a < i || (a == i && b < j + 1)) && relay_prefix_at(ds@, a, b, q));
                    } else {
                        let k = choose|k: int| 0 <= k < char_views(prefixes@).len() && char_views(prefixes@)[k] == q;
                        if k < before.len() {
                            assert(before[k] == q);
                        }
                        assert(q == pc@);
                        assert(relay_prefix_at(ds@, i as int, j as int, q));
                    }
                }
                if exists|a: int, b: int| (a < i || (a == i && b < j + 1)) && #[trigger] relay_prefix_at(ds@, a, b, q) {
                    let (a, b) = choose|a: int, b: int| (a < i || (a == i && b < j + 1)) && #[trigger] relay_prefix_at(ds@, a, b, q);
                    if a == i && b == j {
                        assert(q == pc@);
                        assert(char_views(prefixes@).contains(pc@));
                    } else {
                        assert(before.contains(q));
                        let k = choose|k: int| 0 <= k < before.len() && before[k] == q;
                        assert(char_views(prefixes@)[k] == q);
                    }
                }
            }
        } else {
            assert forall|q: Seq<char>| char_views(prefixes@).contains(q)
                <==> exists|a: int, b: int| (a < i || (a == i && b < j + 1)) && #[trigger] relay_prefix_at(ds@, a, b, q) by {
                if exists|a: int, b: int| (a < i || (a == i && b < j + 1)) && #[trigger] relay_prefix_at(ds@, a, b, q) {
                    let (a, b) = choose|a: int, b: int| (a < i || (a == i && b < j + 1)) && #[trigger] relay_prefix_at(ds@, a, b, q);
                    assert(!(a == i && b == j));
                    assert(before.contains(q));
                }
            }
        }
        j = j + 1;
    }
    assert forall|q: Seq<char>| char_views(prefixes@).contains(q)
        <==> exists|a: int, b: int| a <= i && #[trigger] relay_prefix_at(ds@, a, b, q) by {
        if exists|a: int, b: int| a <= i && #[trigger] relay_prefix_at(ds@, a, b, q) {
            let (a, b) = choose|a: int, b: int| a <= i && #[trigger] relay_prefix_at(ds@, a, b, q);
            assert((a < i || (a == i && b < j)) && relay_prefix_at(ds@, a, b, q));
        }
    }
}

/// Count the relays, prefixes, pseudonymous, credentialed and BBS+
/// descriptors among `active`.
pub fn outcome_counts(active: &Vec<&PeerDescriptor>) -> (c: OutcomeCounts)
    ensures
        c.total_descriptors == active@.len(),
        c.relay_count == derefs(active@).filter(relay_desc()).len(),
        c.relay_prefix_diversity == relay_prefixes(derefs(active@)).len(),
        c.pseudonymous_count == derefs(active@).filter(pseudonymous_desc()).len(),
        c.credentialed_count == derefs(active@).filter(credentialed_desc()).len(),
        c.bbs_credentialed_count == derefs(active@).filter(bbs_desc()).len(),
{
    let ghost ds = derefs(active@);
    let mut relays: usize = 0;
    let mut pseudo: usize = 0;
    let mut creds: usize = 0;
    let mut bbs: usize = 0;
    let mut prefixes: Vec<Vec<char>> = Vec::new();
    let mut i: usize = 0;
    while i < active.len()
        invariant
            i <= active@.len(),
            ds == derefs(active@),
            relays == ds.take(i as int).filter(relay_desc()).len(),
            pseudo == ds.take(i as int).filter(pseudonymous_desc()).len(),
            creds == ds.take(i as int).filter(credentialed_desc()).len(),
            bbs == ds.take(i as int).filter(bbs_desc()).len(),
            relays <= i && pseudo <= i && creds <= i && bbs <= i,
            char_views(prefixes@).no_duplicates(),
            forall|p: Seq<char>| char_views(prefixes@).contains(p)
                <==> exists|a: int, b: int| a < i && #[trigger] relay_prefix_at(ds, a, b, p),
        decreases active@.len() - i,
    {
        let d = active[i];
        proof {
            assert(ds[i as int] == *d);
            assert(ds.take(i + 1) =~= ds.take(i as int).push(*d));
            ds.take(i as int).lemma_filter_push(*d, relay_desc());
            ds.take(i as int).lemma_filter_push(*d, pseudonymous_desc());
            ds.take(i as int).lemma_filter_push(*d, credentialed_desc());
            ds.take(i as int).lemma_filter_push(*d, bbs_desc());
        }
        if d.is_relay() {
            relays = relays + 1;
            add_relay_prefixes(&mut prefixes, Ghost(ds), i, d);
        } else {
            assert forall|q: Seq<char>| char_views(prefixes@).contains(q)
                <==> exists|a: int, b: int| a < i + 1 && #[trigger] relay_prefix_at(ds, a, b, q) by {
                if exists|a: int, b: int| a < i + 1 && #[trigger] relay_prefix_at(ds, a, b, q) {
                    let (a, b) = choose|a: int, b: int| a < i + 1 && #[trigger] relay_prefix_at(ds, a, b, q);
                    assert(a != i);
                }
            }
        }
        if d.is_relayed() || d.credential.is_some() {
            pseudo = pseudo + 1;
        }
        if d.meets_tier(CredentialTier::Observed) {
            creds = creds + 1;
        }
        if d.bbs_proof.is_some() {
            bbs = bbs + 1;
        }
        i = i + 1;
    }
    proof {
        assert(ds.take(active@.len() as int) =~= ds);
        let pv = char_views(prefixes@);
        pv.unique_seq_to_set();
        assert(pv.to_set() =~= relay_prefixes(ds));
        assert(pv.len() == prefixes@.len());
    }
    OutcomeCounts {
        total_descriptors: active.len(),
        relay_count: relays,
        relay_prefix_diversity: prefixes.len(),
        pseudonymous_count: pseudo,
        credentialed_count: creds,
        bbs_credentialed_count: bbs,
    }
}

} // verus!
