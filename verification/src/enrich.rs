//! Pod enrichment: pick the address of the Node a Pod runs on, preferring
//! an external address, and expose it as a Pod annotation.
use vstd::prelude::*;

use crate::annmap::AnnotationMap;
use vstd::string::StringSliceAdditionalSpecFns;

verus! {

/// The Node address types this controller understands, in order of
/// preference.
#[derive(Clone, Copy, Debug, PartialEq, PartialOrd, Eq, Ord, Structural)]
pub enum NodeAddressType {
    ExternalIP,
    InternalIP,
}

/// `a` is preferred over `b`.
pub open spec fn addr_type_lt(a: NodeAddressType, b: NodeAddressType) -> bool {
    a is ExternalIP && b is InternalIP
}

/// The address type a Kubernetes `type` field names, if understood.
pub open spec fn spec_addr_type(n: Seq<u8>) -> Option<NodeAddressType> {
    if n == "ExternalIP".spec_bytes() {
        Some(NodeAddressType::ExternalIP)
    } else if n == "InternalIP".spec_bytes() {
        Some(NodeAddressType::InternalIP)
    } else {
        None
    }
}

/// Parse a Node address `type` field; unknown types are ignored.
pub fn node_address_type_from_name(n: &[u8]) -> (r: Option<NodeAddressType>)
    ensures
        r == spec_addr_type(n@),
{
    if crate::bytestr::bytes_eq(n, "ExternalIP".as_bytes()) {
        Some(NodeAddressType::ExternalIP)
    } else if crate::bytestr::bytes_eq(n, "InternalIP".as_bytes()) {
        Some(NodeAddressType::InternalIP)
    } else {
        None
    }
}

/// The preferred address among a Node's `(type, address)` pairs: the first
/// one of the most preferred understood type.
pub open spec fn spec_select_address(addrs: Seq<(Seq<u8>, Seq<u8>)>) -> Option<
    (NodeAddressType, Seq<u8>),
>
    decreases addrs.len(),
{
    if addrs.len() == 0 {
        None
    } else {
        let rest = spec_select_address(addrs.drop_first());
        match spec_addr_type(addrs[0].0) {
            None => rest,
            Some(ty) => match rest {
                None => Some((ty, addrs[0].1)),
                Some(best) => if addr_type_lt(best.0, ty) {
                    Some(best)
                } else {
                    Some((ty, addrs[0].1))
                },
            },
        }
    }
}

proof fn lemma_select_address_concat(a: Seq<(Seq<u8>, Seq<u8>)>, b: Seq<(Seq<u8>, Seq<u8>)>)
    ensures
        spec_select_address(a + b) == (match (spec_select_address(a), spec_select_address(b)) {
            (None, rb) => rb,
            (Some(ra), None) => Some(ra),
            (Some(ra), Some(rb)) => if addr_type_lt(rb.0, ra.0) {
                Some(rb)
            } else {
                Some(ra)
            },
        }),
    decreases a.len(),
{
    if a.len() == 0 {
        assert(a + b =~= b);
    } else {
        assert((a + b).drop_first() =~= a.drop_first() + b);
        assert((a + b)[0] == a[0]);
        lemma_select_address_concat(a.drop_first(), b);
    }
}

/// Pick the address to advertise for a Node, from its `(type, address)`
/// pairs: addresses of unknown type are skipped, an external address wins
/// over an internal one, and the first address of the winning type is
/// taken.
pub fn select_node_address(addrs: &Vec<(Vec<u8>, Vec<u8>)>) -> (r: Option<Vec<u8>>)
    ensures
        match r {
            Some(a) => {
                &&& spec_select_address(crate::bytestr::pairs_view(addrs@)) is Some
                &&& a@ == (spec_select_address(crate::bytestr::pairs_view(addrs@))->0).1
            },
            None => spec_select_address(crate::bytestr::pairs_view(addrs@)) is None,
        },
{
    let ghost all = crate::bytestr::pairs_view(addrs@);
    let n = addrs.len();
    let mut i: usize = 0;
    let mut best: Option<(NodeAddressType, Vec<u8>)> = None;
    proof {
        assert(all.subrange(0, 0) =~= Seq::<(Seq<u8>, Seq<u8>)>::empty());
    }
    while i < n
        invariant
            0 <= i <= n,
            n == all.len(),
            all == crate::bytestr::pairs_view(addrs@),
            match best {
                None => spec_select_address(all.subrange(0, i as int)) is None,
                Some(b) => spec_select_address(all.subrange(0, i as int)) == Some((b.0, b.1@)),
            },
        decreases n - i,
    {
        let pair = &addrs[i];
        proof {
            assert(all[i as int] == (pair.0@, pair.1@));
            assert(all.subrange(0, i + 1 as int) =~= all.subrange(0, i as int) + seq![
                all[i as int],
            ]);
            lemma_select_address_concat(all.subrange(0, i as int), seq![all[i as int]]);
            assert(seq![all[i as int]].drop_first() =~= Seq::<(Seq<u8>, Seq<u8>)>::empty());
            assert(seq![all[i as int]][0] == all[i as int]);
            assert(spec_select_address(Seq::<(Seq<u8>, Seq<u8>)>::empty()) is None);
        }
        match node_address_type_from_name(&pair.0) {
            Some(ty) => {
                let replace = match &best {
                    None => true,
                    Some(b) => matches!(ty, NodeAddressType::ExternalIP) && matches!(
                        b.0,
                        NodeAddressType::InternalIP
                    ),
                };
                if replace {
                    best = Some((ty, pair.1.clone()));
                    proof {
                        assert((best->0).1@ == pair.1@);
                    }
                }
            },
            None => {},
        }
        i = i + 1;
    }
    proof {
        assert(all.subrange(0, n as int) =~= all);
    }
    match best {
        Some(b) => Some(b.1),
        None => None,
    }
}

/// The annotation key under which the Node address is written.
pub fn node_address_annotation_key() -> (r: &'static [u8])
    ensures
        r@ == "enrichment.stackable.tech/node-address".spec_bytes(),
{
    "enrichment.stackable.tech/node-address".as_bytes()
}

/// The annotations the enrichment controller applies to a Pod on a Node
/// with the given addresses: the selected address under the node-address
/// key, or nothing if no address is understood.
pub fn node_enrichment_annotations(addrs: &Vec<(Vec<u8>, Vec<u8>)>) -> (r: AnnotationMap)
    ensures
        r.wf(),
        match spec_select_address(crate::bytestr::pairs_view(addrs@)) {
            Some(best) => r@ == Map::<Seq<u8>, Seq<u8>>::empty().insert(
                "enrichment.stackable.tech/node-address".spec_bytes(),
                best.1,
            ),
            None => r@ == Map::<Seq<u8>, Seq<u8>>::empty(),
        },
{
    let mut anns = AnnotationMap::new();
    match select_node_address(addrs) {
        Some(addr) => {
            let mut key: Vec<u8> = Vec::new();
            crate::bytestr::bytes_extend(&mut key, node_address_annotation_key());
            proof {
                assert(key@ =~= "enrichment.stackable.tech/node-address".spec_bytes());
            }
            anns.insert(key, addr);
        },
        None => {},
    }
    anns
}

} // verus!
