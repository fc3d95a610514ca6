//! The catalog of networks and their public endpoints.
//!
//! The catalog is data handed to the crate; nothing here fetches it.

use crate::ranking::{is_stable_order, stable_order};
use crate::text::{contains, occurs_in};
use crate::types::{NetworkId, Rpc, RpcView, Tracking};
use vstd::prelude::*;
use vstd::string::*;
use vstd::utf8::encode_utf8;

verus! {

/// One network of the catalog.
#[derive(Debug, PartialEq, Eq)]
pub struct ChainInfo {
    pub chain_id: NetworkId,
    pub name: String,
    /// Total value locked on the network, in tenths of a US dollar.
    pub tvl: u64,
}

impl Clone for ChainInfo {
    fn clone(&self) -> (copy: Self)
        ensures
            copy == *self,
    {
        ChainInfo { chain_id: self.chain_id, name: self.name.clone(), tvl: self.tvl }
    }
}

/// The endpoint URLs the catalog lists for one network.
#[derive(Debug, PartialEq, Eq)]
pub struct ChainRpcs {
    pub chain_id: NetworkId,
    pub urls: Vec<String>,
}

/// The catalog: per network its name and value locked, and the URLs of its
/// public endpoints.
#[derive(Debug)]
pub struct ChainCatalog {
    pub chain_data: Vec<ChainInfo>,
    pub chain_ids: Vec<(NetworkId, String)>,
    pub extra_rpcs: Vec<ChainRpcs>,
}

/// The chains whose id is among `keep`.
pub open spec fn kept_chains(keep: Seq<NetworkId>) -> spec_fn(ChainInfo) -> bool {
    |chain: ChainInfo| keep.contains(chain.chain_id)
}

/// The id entries whose id is among `keep`.
pub open spec fn kept_ids(keep: Seq<NetworkId>) -> spec_fn((NetworkId, String)) -> bool {
    |entry: (NetworkId, String)| keep.contains(entry.0)
}

/// The endpoint lists whose id is among `keep`.
pub open spec fn kept_rpcs(keep: Seq<NetworkId>) -> spec_fn(ChainRpcs) -> bool {
    |entry: ChainRpcs| keep.contains(entry.chain_id)
}

/// `rpc` without its final `/`, if it ends in one.
pub fn remove_trailing_slash(rpc: &str) -> (trimmed: String)
    ensures
        trimmed@ == if rpc@.len() > 0 && rpc@.last() == '/' {
            rpc@.drop_last()
        } else {
            rpc@
        },
{
    let n = rpc.unicode_len();
    if n > 0 && rpc.get_char(n - 1) == '/' {
        rpc.substring_char(0, n - 1).to_owned()
    } else {
        rpc.to_owned()
    }
}

/// Whether `id` is among `ids`.
pub fn contains_id(ids: &Vec<NetworkId>, id: NetworkId) -> (found: bool)
    ensures
        found == ids@.contains(id),
{
    let mut i: usize = 0;
    while i < ids.len()
        invariant
            i <= ids.len(),
            forall|j: int| 0 <= j < i ==> ids[j] != id,
        decreases ids.len() - i,
    {
        if ids[i] == id {
            return true;
        }
        i += 1;
    }
    false
}

/// Prunes the catalog to the networks in `chains_to_retain`. What is kept
/// keeps its order.
pub fn initialize_chain_data(catalog: &mut ChainCatalog, chains_to_retain: Vec<NetworkId>)
    ensures
        final(catalog).chain_data@ == old(catalog).chain_data@.filter(
            kept_chains(chains_to_retain@),
        ),
        final(catalog).chain_ids@ == old(catalog).chain_ids@.filter(kept_ids(chains_to_retain@)),
        final(catalog).extra_rpcs@ == old(catalog).extra_rpcs@.filter(
            kept_rpcs(chains_to_retain@),
        ),
{
    let ghost keep = chains_to_retain@;
    let mut chain_data: Vec<ChainInfo> = Vec::new();
    let mut chain_ids: Vec<(NetworkId, String)> = Vec::new();
    let mut extra_rpcs: Vec<ChainRpcs> = Vec::new();
    core::mem::swap(&mut catalog.chain_data, &mut chain_data);
    core::mem::swap(&mut catalog.chain_ids, &mut chain_ids);
    core::mem::swap(&mut catalog.extra_rpcs, &mut extra_rpcs);

    let ghost all_data = chain_data@;
    let mut kept_data: Vec<ChainInfo> = Vec::new();
    assert(all_data.take(0).filter(kept_chains(keep)) =~= Seq::<ChainInfo>::empty()) by {
        reveal(Seq::filter);
    }
    for chain in it: chain_data.into_iter()
        invariant
            keep == chains_to_retain@,
            it.seq() == all_data,
            kept_data@ == all_data.take(it.index() as int).filter(kept_chains(keep)),
    {
        proof {
            reveal(Seq::filter);
            let i = it.index() as int;
            assert(all_data.take(i + 1).drop_last() =~= all_data.take(i));
            assert(all_data.take(i + 1).last() == chain);
        }
        if contains_id(&chains_to_retain, chain.chain_id) {
            kept_data.push(chain);
        }
    }
    assert(all_data.take(all_data.len() as int) =~= all_data);

    let ghost all_ids = chain_ids@;
    let mut kept_id_entries: Vec<(NetworkId, String)> = Vec::new();
    assert(all_ids.take(0).filter(kept_ids(keep)) =~= Seq::<(NetworkId, String)>::empty()) by {
        reveal(Seq::filter);
    }
    for entry in it: chain_ids.into_iter()
        invariant
            keep == chains_to_retain@,
            it.seq() == all_ids,
            kept_id_entries@ == all_ids.take(it.index() as int).filter(kept_ids(keep)),
    {
        proof {
            reveal(Seq::filter);
            let i = it.index() as int;
            assert(all_ids.take(i + 1).drop_last() =~= all_ids.take(i));
            assert(all_ids.take(i + 1).last() == entry);
        }
        if contains_id(&chains_to_retain, entry.0) {
            kept_id_entries.push(entry);
        }
    }
    assert(all_ids.take(all_ids.len() as int) =~= all_ids);

    let ghost all_rpcs = extra_rpcs@;
    let mut kept_rpc_entries: Vec<ChainRpcs> = Vec::new();
    assert(all_rpcs.take(0).filter(kept_rpcs(keep)) =~= Seq::<ChainRpcs>::empty()) by {
        reveal(Seq::filter);
    }
    for entry in it: extra_rpcs.into_iter()
        invariant
            keep == chains_to_retain@,
            it.seq() == all_rpcs,
            kept_rpc_entries@ == all_rpcs.take(it.index() as int).filter(kept_rpcs(keep)),
    {
        proof {
            reveal(Seq::filter);
            let i = it.index() as int;
            assert(all_rpcs.take(i + 1).drop_last() =~= all_rpcs.take(i));
            assert(all_rpcs.take(i + 1).last() == entry);
        }
        if contains_id(&chains_to_retain, entry.chain_id) {
            kept_rpc_entries.push(entry);
        }
    }
    assert(all_rpcs.take(all_rpcs.len() as int) =~= all_rpcs);

    catalog.chain_data = kept_data;
    catalog.chain_ids = kept_id_entries;
    catalog.extra_rpcs = kept_rpc_entries;
}

/// The ids and names of the networks, in catalog order.
pub fn get_chain_ids(catalog: &ChainCatalog) -> (ids: Vec<(NetworkId, String)>)
    ensures
        ids@ == catalog.chain_ids@,
{
    let mut ids: Vec<(NetworkId, String)> = Vec::new();
    let mut i: usize = 0;
    while i < catalog.chain_ids.len()
        invariant
            i <= catalog.chain_ids.len(),
            ids@ == catalog.chain_ids@.take(i as int),
        decreases catalog.chain_ids.len() - i,
    {
        let entry = &catalog.chain_ids[i];
        ids.push((entry.0, entry.1.clone()));
        assert(ids@ =~= catalog.chain_ids@.take(i + 1));
        i += 1;
    }
    assert(catalog.chain_ids@.take(catalog.chain_ids.len() as int) =~= catalog.chain_ids@);
    ids
}

/// Entry `i` is the first of `chains` with id `chain_id`.
pub open spec fn is_first_chain(chains: Seq<ChainInfo>, chain_id: NetworkId, i: int) -> bool {
    &&& 0 <= i < chains.len()
    &&& chains[i].chain_id == chain_id
    &&& forall|j: int| 0 <= j < i ==> (#[trigger] chains[j]).chain_id != chain_id
}

/// The catalog's entry for `chain_id`: the first, should there be several.
pub fn get_chain_info(catalog: &ChainCatalog, chain_id: NetworkId) -> (info: Option<ChainInfo>)
    ensures
        match info {
            Some(chain) => exists|i: int| #[trigger]
                is_first_chain(catalog.chain_data@, chain_id, i) && catalog.chain_data[i] == chain,
            None => forall|i: int|
                0 <= i < catalog.chain_data.len() ==> (#[trigger] catalog.chain_data[i]).chain_id
                    != chain_id,
        },
{
    let mut i: usize = 0;
    while i < catalog.chain_data.len()
        invariant
            i <= catalog.chain_data.len(),
            forall|j: int| 0 <= j < i ==> (#[trigger] catalog.chain_data[j]).chain_id != chain_id,
        decreases catalog.chain_data.len() - i,
    {
        if catalog.chain_data[i].chain_id == chain_id {
            assert(is_first_chain(catalog.chain_data@, chain_id, i as int));
            return Some(catalog.chain_data[i].clone());
        }
        i += 1;
    }
    None
}

/// The sort keys that put the largest value locked first.
pub open spec fn descending_tvl(chains: Seq<ChainInfo>) -> Seq<u64> {
    Seq::new(chains.len(), |i: int| (u64::MAX - chains[i].tvl) as u64)
}

/// `items` taken in the order that `order` lists their positions in.
pub open spec fn picked<T>(items: Seq<T>, order: Seq<usize>) -> Seq<T> {
    Seq::new(order.len(), |i: int| items[order[i] as int])
}

/// The networks by descending value locked; networks with equal value keep
/// their catalog order.
pub fn get_chains_by_tvl(catalog: &ChainCatalog) -> (chains: Vec<ChainInfo>)
    ensures
        exists|order: Seq<usize>| #[trigger]
            is_stable_order(descending_tvl(catalog.chain_data@), order) && chains@ == picked(
                catalog.chain_data@,
                order,
            ),
        forall|i: int, j: int|
            0 <= i < j < chains.len() ==> (#[trigger] chains[i]).tvl >= (#[trigger] chains[j]).tvl,
{
    let data = &catalog.chain_data;
    let mut keys: Vec<u64> = Vec::new();
    let mut i: usize = 0;
    while i < data.len()
        invariant
            i <= data.len(),
            keys@ == descending_tvl(data@).take(i as int),
        decreases data.len() - i,
    {
        keys.push(u64::MAX - data[i].tvl);
        assert(keys@ =~= descending_tvl(data@).take(i + 1));
        i += 1;
    }
    assert(descending_tvl(data@).take(data.len() as int) =~= descending_tvl(data@));
    let order = stable_order(&keys);
    let mut chains: Vec<ChainInfo> = Vec::new();
    let mut k: usize = 0;
    while k < order.len()
        invariant
            k <= order.len(),
            keys@ == descending_tvl(data@),
            is_stable_order(keys@, order@),
            chains@ == picked(data@, order@).take(k as int),
        decreases order.len() - k,
    {
        chains.push(data[order[k]].clone());
        assert(chains@ =~= picked(data@, order@).take(k + 1));
        k += 1;
    }
    assert(picked(data@, order@).take(order.len() as int) =~= picked(data@, order@));
    chains
}

/// What `text` becomes when every character is replaced by its lowercase
/// form, as the standard library does it.
pub uninterp spec fn lowercase(text: Seq<char>) -> Seq<char>;

/// `str::to_lowercase`: the lowercase equivalent of `text`.
#[verifier::external_body]
fn to_lowercase(text: &str) -> (lower: String)
    ensures
        lower@ == lowercase(text@),
{
    text.to_lowercase()
}

/// The chains whose name contains `term`, letter case aside.
pub open spec fn named_like(term: Seq<char>) -> spec_fn(ChainInfo) -> bool {
    |chain: ChainInfo|
        occurs_in(encode_utf8(lowercase(term)), encode_utf8(lowercase(chain.name@)))
}

/// The networks whose name contains `name`, letter case aside, in catalog
/// order.
pub fn find_chains_by_name(catalog: &ChainCatalog, name: &str) -> (chains: Vec<ChainInfo>)
    ensures
        chains@ == catalog.chain_data@.filter(named_like(name@)),
{
    let search_term = to_lowercase(name);
    let data = &catalog.chain_data;
    let mut chains: Vec<ChainInfo> = Vec::new();
    let mut i: usize = 0;
    assert(data@.take(0).filter(named_like(name@)) =~= Seq::<ChainInfo>::empty()) by {
        reveal(Seq::filter);
    }
    while i < data.len()
        invariant
            i <= data.len(),
            search_term@ == lowercase(name@),
            chains@ == data@.take(i as int).filter(named_like(name@)),
        decreases data.len() - i,
    {
        let lowered = to_lowercase(data[i].name.as_str());
        proof {
            reveal(Seq::filter);
            assert(data@.take(i + 1).drop_last() =~= data@.take(i as int));
            assert(data@.take(i + 1).last() == data[i as int]);
        }
        if contains(lowered.as_str(), search_term.as_str()) {
            chains.push(data[i].clone());
        }
        i += 1;
    }
    assert(data@.take(data.len() as int) =~= data@);
    chains
}

/// The normal form in which the `url` crate writes `text` once it has
/// parsed it as an absolute URL; `None` where it does not parse.
pub uninterp spec fn parsed_url(text: Seq<char>) -> Option<Seq<char>>;

/// `url::Url::parse`, followed by the conversion of the URL into a string:
/// the serialization of the URL that `text` parses to, or `None` where it
/// does not parse as an absolute URL.
#[verifier::external_body]
fn parse_url(text: &str) -> (url: Option<String>)
    ensures
        match url {
            Some(normal) => parsed_url(text@) == Some(normal@),
            None => parsed_url(text@).is_none(),
        },
{
    url::Url::parse(text).ok().map(String::from)
}

/// What the catalog says of every endpoint it lists.
pub const CATALOG_TRACKING_DETAILS: &'static str = "None as default";

/// The endpoint that the catalog stands for with a URL in normal form.
pub open spec fn catalog_rpc(url: Seq<char>) -> RpcView {
    RpcView {
        url,
        tracking: Some(Tracking::NoTracking),
        tracking_details: Some(CATALOG_TRACKING_DETAILS@),
        is_open_source: Some(true),
    }
}

/// The endpoints made of the first `n` of `urls`: one for each URL that
/// parses, in order, under its normal form.
pub open spec fn parsed_rpcs(urls: Seq<String>, n: nat) -> Seq<RpcView>
    decreases n,
{
    if n == 0 || n > urls.len() {
        Seq::empty()
    } else {
        let before = parsed_rpcs(urls, (n - 1) as nat);
        match parsed_url(urls[n - 1]@) {
            Some(normal) => before.push(catalog_rpc(normal)),
            None => before,
        }
    }
}

/// Entry `i` is the first endpoint list of the catalog for `chain_id`.
pub open spec fn is_first_rpcs(entries: Seq<ChainRpcs>, chain_id: NetworkId, i: int) -> bool {
    &&& 0 <= i < entries.len()
    &&& entries[i].chain_id == chain_id
    &&& forall|j: int| 0 <= j < i ==> (#[trigger] entries[j]).chain_id != chain_id
}

/// The endpoints the catalog lists for `chain_id`.
pub open spec fn extra_rpcs_of(catalog: ChainCatalog, chain_id: NetworkId) -> Seq<RpcView> {
    if exists|i: int| is_first_rpcs(catalog.extra_rpcs@, chain_id, i) {
        let i = choose|i: int| is_first_rpcs(catalog.extra_rpcs@, chain_id, i);
        parsed_rpcs(catalog.extra_rpcs[i].urls@, catalog.extra_rpcs[i].urls@.len())
    } else {
        Seq::empty()
    }
}

/// The endpoints the catalog lists for `chain_id`: one for each of its URLs
/// that parses, none where the catalog does not know the network.
pub fn get_extra_rpcs(catalog: &ChainCatalog, chain_id: NetworkId) -> (rpcs: Vec<Rpc>)
    ensures
        crate::types::rpcs_view(rpcs@) == extra_rpcs_of(*catalog, chain_id),
{
    let entries = &catalog.extra_rpcs;
    let mut i: usize = 0;
    while i < entries.len()
        invariant
            i <= entries.len(),
            *entries == catalog.extra_rpcs,
            forall|j: int| 0 <= j < i ==> (#[trigger] entries[j]).chain_id != chain_id,
        decreases entries.len() - i,
    {
        if entries[i].chain_id == chain_id {
            proof {
                assert(is_first_rpcs(entries@, chain_id, i as int));
                let chosen = choose|k: int| is_first_rpcs(entries@, chain_id, k);
                if chosen < i {
                    assert(entries[chosen].chain_id != chain_id);
                }
                if i < chosen {
                    assert(entries[i as int].chain_id != chain_id);
                }
            }
            let urls = &entries[i].urls;
            let mut rpcs: Vec<Rpc> = Vec::new();
            let mut k: usize = 0;
            assert(crate::types::rpcs_view(rpcs@) =~= parsed_rpcs(urls@, 0));
            while k < urls.len()
                invariant
                    k <= urls.len(),
                    crate::types::rpcs_view(rpcs@) == parsed_rpcs(urls@, k as nat),
                decreases urls.len() - k,
            {
                let ghost before = crate::types::rpcs_view(rpcs@);
                match parse_url(urls[k].as_str()) {
                    Some(normal) => {
                        let rpc = Rpc {
                            url: normal,
                            tracking: Some(Tracking::NoTracking),
                            tracking_details: Some(CATALOG_TRACKING_DETAILS.to_owned()),
                            is_open_source: Some(true),
                        };
                        rpcs.push(rpc);
                        assert(crate::types::rpcs_view(rpcs@) =~= before.push(
                            catalog_rpc(normal@),
                        ));
                    },
                    None => {},
                }
                k += 1;
            }
            return rpcs;
        }
        i += 1;
    }
    let rpcs: Vec<Rpc> = Vec::new();
    assert(crate::types::rpcs_view(rpcs@) =~= Seq::<RpcView>::empty());
    assert forall|k: int| !is_first_rpcs(entries@, chain_id, k) by {
        if 0 <= k < entries.len() {
            assert(entries[k].chain_id != chain_id);
        }
    }
    rpcs
}

} // verus!
