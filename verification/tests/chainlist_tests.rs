use ez_web3_rpc::chainlist::{
    find_chains_by_name, get_chain_ids, get_chain_info, get_chains_by_tvl, get_extra_rpcs,
    initialize_chain_data, remove_trailing_slash, ChainCatalog, ChainInfo, ChainRpcs,
};
use ez_web3_rpc::{NetworkId, Tracking};

fn chain(chain_id: NetworkId, name: &str, tvl: u64) -> ChainInfo {
    ChainInfo { chain_id, name: name.to_string(), tvl }
}

fn sample_catalog() -> ChainCatalog {
    ChainCatalog {
        chain_data: vec![
            chain(1, "ethereum", 500_000),
            chain(100, "gnosis", 3_000),
            chain(10, "op_mainnet", 9_000),
            chain(137, "polygon", 9_000),
        ],
        chain_ids: vec![
            (1, "ethereum".to_string()),
            (100, "gnosis".to_string()),
            (10, "op_mainnet".to_string()),
            (137, "polygon".to_string()),
        ],
        extra_rpcs: vec![
            ChainRpcs {
                chain_id: 1,
                urls: vec![
                    "https://eth.example.org".to_string(),
                    "not a url".to_string(),
                    "wss://eth.example.org/ws".to_string(),
                ],
            },
            ChainRpcs { chain_id: 100, urls: vec!["https://gnosis.example.org/rpc".to_string()] },
        ],
    }
}

#[test]
fn test_remove_trailing_slash_basic() {
    assert_eq!(remove_trailing_slash("http://foo.com/"), "http://foo.com");
    assert_eq!(remove_trailing_slash("http://foo.com"), "http://foo.com");
    assert_eq!(remove_trailing_slash("/"), "");
    assert_eq!(remove_trailing_slash(""), "");
}

#[test]
fn remove_trailing_slash_takes_one_slash_only() {
    assert_eq!(remove_trailing_slash("http://foo.com//"), "http://foo.com/");
    assert_eq!(remove_trailing_slash("https://é.example/"), "https://é.example");
}

#[test]
fn test_chainlist_initialize_and_restore() {
    let mut catalog = sample_catalog();
    let original = get_chain_ids(&catalog);
    if original.is_empty() {
        return;
    }
    let original_ids: Vec<NetworkId> = original.iter().map(|(id, _)| *id).collect();
    let keep = original_ids[0];
    initialize_chain_data(&mut catalog, vec![keep]);
    let filtered = get_chain_ids(&catalog);
    assert!(filtered.iter().all(|(id, _)| *id == keep));
    initialize_chain_data(&mut catalog, original_ids.clone());
    let restored = get_chain_ids(&catalog);
    assert!(restored.len() >= 1);
}

#[test]
fn initialize_chain_data_prunes_all_three_tables_in_order() {
    let mut catalog = sample_catalog();
    initialize_chain_data(&mut catalog, vec![137, 100, 1]);
    assert_eq!(
        catalog.chain_data,
        vec![chain(1, "ethereum", 500_000), chain(100, "gnosis", 3_000), chain(137, "polygon", 9_000)]
    );
    assert_eq!(
        catalog.chain_ids,
        vec![(1, "ethereum".to_string()), (100, "gnosis".to_string()), (137, "polygon".to_string())]
    );
    assert_eq!(catalog.extra_rpcs.len(), 2);
    initialize_chain_data(&mut catalog, vec![]);
    assert!(catalog.chain_data.is_empty());
    assert!(catalog.chain_ids.is_empty());
    assert!(catalog.extra_rpcs.is_empty());
}

#[test]
fn test_get_chains_by_tvl_sorted() {
    let chains = get_chains_by_tvl(&sample_catalog());
    for w in chains.windows(2) {
        if let [a, b] = w {
            assert!(a.tvl >= b.tvl, "TVL not sorted descending");
        }
    }
}

#[test]
fn get_chains_by_tvl_keeps_catalog_order_among_equals() {
    let chains = get_chains_by_tvl(&sample_catalog());
    let ids: Vec<NetworkId> = chains.iter().map(|c| c.chain_id).collect();
    assert_eq!(ids, vec![1, 10, 137, 100]);
}

#[test]
fn test_find_chains_by_name_partial() {
    let catalog = sample_catalog();
    let ids = get_chain_ids(&catalog);
    if let Some((_, name)) = ids.first() {
        let search_fragment = &name[0..std::cmp::min(3, name.len())];
        let results = find_chains_by_name(&catalog, search_fragment);
        if !results.is_empty() {
            assert!(results.iter().any(|c| c.name.contains(search_fragment)));
        }
    }
}

#[test]
fn find_chains_by_name_ignores_letter_case() {
    let catalog = sample_catalog();
    let found = find_chains_by_name(&catalog, "ETH");
    assert_eq!(found, vec![chain(1, "ethereum", 500_000)]);
    let found = find_chains_by_name(&catalog, "O");
    let ids: Vec<NetworkId> = found.iter().map(|c| c.chain_id).collect();
    assert_eq!(ids, vec![100, 10, 137]);
    assert!(find_chains_by_name(&catalog, "solana").is_empty());
    assert_eq!(find_chains_by_name(&catalog, "").len(), 4);
}

#[test]
fn test_get_extra_rpcs_returns_valid_urls() {
    let catalog = sample_catalog();
    let ids = get_chain_ids(&catalog);
    if let Some((id, _)) = ids.first() {
        let rpcs = get_extra_rpcs(&catalog, *id);
        for rpc in rpcs {
            let url = url::Url::parse(&rpc.url).unwrap();
            assert!(!url.scheme().is_empty(), "scheme should not be empty");
        }
    }
}

#[test]
fn get_extra_rpcs_skips_what_does_not_parse_and_writes_urls_in_normal_form() {
    let catalog = sample_catalog();
    let rpcs = get_extra_rpcs(&catalog, 1);
    let urls: Vec<&str> = rpcs.iter().map(|r| r.url.as_str()).collect();
    assert_eq!(urls, vec!["https://eth.example.org/", "wss://eth.example.org/ws"]);
    for rpc in &rpcs {
        assert_eq!(rpc.tracking, Some(Tracking::NoTracking));
        assert_eq!(rpc.tracking_details.as_deref(), Some("None as default"));
        assert_eq!(rpc.is_open_source, Some(true));
    }
    assert!(get_extra_rpcs(&catalog, 10).is_empty());
    assert!(get_extra_rpcs(&catalog, 424242).is_empty());
}

#[test]
fn get_chain_info_finds_the_entry_or_nothing() {
    let catalog = sample_catalog();
    assert_eq!(get_chain_info(&catalog, 100), Some(chain(100, "gnosis", 3_000)));
    assert_eq!(get_chain_info(&catalog, 424242), None);
}
