//! The endpoints a handler starts from.

use crate::chainlist::{extra_rpcs_of, get_extra_rpcs, ChainCatalog};
use crate::types::{rpcs_view, NetworkId, Rpc, RpcView, Tracking};
use vstd::prelude::*;

verus! {

/// Whether an endpoint of tracking level `level` suits a caller who prefers
/// `preference`.
///
/// A caller who accepts tracking takes every endpoint. One who accepts
/// limited tracking takes those that track little or nothing, and those of
/// which nothing is known. One who accepts none takes only those known not
/// to track.
pub open spec fn suits(preference: Tracking, level: Option<Tracking>) -> bool {
    match preference {
        Tracking::Yes => true,
        Tracking::Limited => match level {
            Some(Tracking::Yes) => false,
            _ => true,
        },
        Tracking::NoTracking => level == Some(Tracking::NoTracking),
    }
}

/// The endpoints that suit `preference`.
pub open spec fn suitable(preference: Tracking) -> spec_fn(RpcView) -> bool {
    |rpc: RpcView| suits(preference, rpc.tracking)
}

/// Whether `rpc` suits a caller who prefers `preference`.
pub fn should_include(preference: Tracking, rpc: &Rpc) -> (wanted: bool)
    ensures
        wanted == suits(preference, rpc.tracking),
{
    match preference {
        Tracking::Yes => true,
        Tracking::Limited => match rpc.tracking {
            Some(Tracking::Limited) => true,
            Some(Tracking::NoTracking) => true,
            Some(Tracking::Yes) => false,
            None => true,
        },
        Tracking::NoTracking => match rpc.tracking {
            Some(Tracking::NoTracking) => true,
            _ => false,
        },
    }
}

/// The endpoints a handler for `network_id` starts from: the caller's own,
/// then those of the catalog that suit the caller's tracking preference, in
/// catalog order.
pub fn select_base_rpc_set(
    catalog: &ChainCatalog,
    network_id: NetworkId,
    tracking: Tracking,
    injected_rpcs: Vec<Rpc>,
) -> (rpcs: Vec<Rpc>)
    ensures
        rpcs_view(rpcs@) == rpcs_view(injected_rpcs@) + extra_rpcs_of(*catalog, network_id).filter(
            suitable(tracking),
        ),
{
    let mut rpcs = injected_rpcs;
    let chainlist_rpcs = get_extra_rpcs(catalog, network_id);
    let ghost own = rpcs_view(injected_rpcs@);
    let ghost listed = rpcs_view(chainlist_rpcs@);
    let mut i: usize = 0;
    assert(listed.take(0).filter(suitable(tracking)) =~= Seq::<RpcView>::empty()) by {
        reveal(Seq::filter);
    }
    assert(rpcs_view(rpcs@) =~= own + listed.take(0).filter(suitable(tracking)));
    while i < chainlist_rpcs.len()
        invariant
            i <= chainlist_rpcs.len(),
            listed == rpcs_view(chainlist_rpcs@),
            rpcs_view(rpcs@) == own + listed.take(i as int).filter(suitable(tracking)),
        decreases chainlist_rpcs.len() - i,
    {
        let ghost before = rpcs_view(rpcs@);
        proof {
            reveal(Seq::filter);
            assert(listed.take(i + 1).drop_last() =~= listed.take(i as int));
            assert(listed.take(i + 1).last() == chainlist_rpcs[i as int]@);
        }
        if should_include(tracking, &chainlist_rpcs[i]) {
            rpcs.push(chainlist_rpcs[i].clone());
            assert(rpcs_view(rpcs@) =~= before.push(chainlist_rpcs[i as int]@));
        }
        i += 1;
    }
    assert(listed.take(chainlist_rpcs.len() as int) =~= listed);
    rpcs
}

} // verus!
