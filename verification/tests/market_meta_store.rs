use hyperliquid_rust_sdk::{
    outcome_encoding_from_identifier, resolve_outcome_asset_id_from_identifier, AssetMeta,
    MarketMetaStore, MarketMetaStoreData, Meta, OutcomeMetaOutcome, OutcomeMetaResponse,
    OutcomeQuestion, OutcomeSideSpec, SpotAssetMeta, SpotMeta, StrMap, TokenInfo,
};

fn meta(names: &[(&str, u32)]) -> Meta {
    Meta {
        universe: names
            .iter()
            .map(|(name, sz_decimals)| AssetMeta {
                name: (*name).to_string(),
                sz_decimals: *sz_decimals,
                max_leverage: 50,
                only_isolated: None,
            })
            .collect(),
    }
}

fn spot_meta() -> SpotMeta {
    SpotMeta {
        tokens: vec![
            TokenInfo {
                name: "PURR".to_string(),
                sz_decimals: 0,
                wei_decimals: 6,
                index: 0,
                token_id: [0u8; 16],
                is_canonical: true,
            },
            TokenInfo {
                name: "USDC".to_string(),
                sz_decimals: 6,
                wei_decimals: 6,
                index: 1,
                token_id: [0u8; 16],
                is_canonical: true,
            },
            TokenInfo {
                name: "HYPE".to_string(),
                sz_decimals: 2,
                wei_decimals: 8,
                index: 2,
                token_id: [0u8; 16],
                is_canonical: true,
            },
        ],
        universe: vec![
            SpotAssetMeta {
                tokens: [0, 1],
                name: "PURR/USDC".to_string(),
                index: 0,
                is_canonical: true,
            },
            SpotAssetMeta {
                tokens: [2, 1],
                name: "@107".to_string(),
                index: 107,
                is_canonical: true,
            },
        ],
    }
}

fn outcome_meta() -> OutcomeMetaResponse {
    OutcomeMetaResponse {
        outcomes: vec![
            OutcomeMetaOutcome {
                outcome: 2,
                name: "Recurring".to_string(),
                description: "class:priceBinary|underlying:BTC".to_string(),
                side_specs: vec![
                    OutcomeSideSpec {
                        name: "Yes".to_string(),
                        token: Some(20),
                    },
                    OutcomeSideSpec {
                        name: "No".to_string(),
                        token: None,
                    },
                ],
            },
            OutcomeMetaOutcome {
                outcome: 3,
                name: "Settled".to_string(),
                description: "class:binary".to_string(),
                side_specs: vec![
                    OutcomeSideSpec {
                        name: "Yes".to_string(),
                        token: None,
                    },
                    OutcomeSideSpec {
                        name: "No".to_string(),
                        token: None,
                    },
                ],
            },
        ],
        questions: vec![
            OutcomeQuestion {
                question: 7,
                name: "BTC daily".to_string(),
                description: "question".to_string(),
                fallback_outcome: 2,
                named_outcomes: vec![2],
                settled_named_outcomes: vec![],
            },
            OutcomeQuestion {
                question: 8,
                name: "Settled question".to_string(),
                description: "question".to_string(),
                fallback_outcome: 3,
                named_outcomes: vec![],
                settled_named_outcomes: vec![3],
            },
        ],
    }
}

fn mids_of(pairs: &[(&str, &str)]) -> StrMap<String> {
    let mut mids = StrMap::new();
    for (coin, mid) in pairs {
        mids.insert((*coin).to_string(), (*mid).to_string());
    }
    mids
}

#[test]
fn maps_perp_spot_and_builder_aliases() {
    let data = MarketMetaStore::build_data(
        &meta(&[("BTC", 5), ("ETH", 4)]),
        &spot_meta(),
        &[
            (1, "dexA".to_string(), meta(&[("dexA:AAA", 1)])),
            (2, "dexB".to_string(), meta(&[("BBB", 2)])),
            (3, "dexC".to_string(), meta(&[("BTC", 0)])),
        ],
    );

    assert_eq!(data.coin_to_asset.get("BTC"), Some(&0));
    assert_eq!(data.coin_to_asset.get("BTC-PERP"), Some(&0));
    assert_eq!(data.coin_to_asset.get("main:BTC"), Some(&0));
    assert_eq!(data.coin_to_asset.get("main:BTC-PERP"), Some(&0));
    assert_eq!(data.coin_to_sz_decimals.get("ETH"), Some(&4));

    assert_eq!(data.coin_to_asset.get("PURR/USDC"), Some(&10000));
    assert_eq!(data.coin_to_asset.get("HYPE/USDC"), Some(&10107));
    assert_eq!(data.coin_to_asset.get("HYPE-SPOT"), Some(&10107));
    assert_eq!(data.coin_to_asset.get("@107"), Some(&10107));
    assert_eq!(data.coin_to_asset.get("107"), Some(&10107));
    assert_eq!(data.coin_to_asset.get("10107"), Some(&10107));
    assert_eq!(data.coin_to_sz_decimals.get("@107"), Some(&2));
    assert_eq!(
        data.symbol_to_spot_pair.get("HYPE/USDC"),
        Some(&"@107".to_string())
    );
    assert_eq!(
        data.spot_pair_to_symbol.get("@107"),
        Some(&"HYPE/USDC".to_string())
    );

    assert_eq!(data.coin_to_asset.get("dexA:AAA"), Some(&110000));
    assert_eq!(data.coin_to_asset.get("dexA:AAA-PERP"), Some(&110000));
    assert_eq!(data.coin_to_asset.get("dexB:BBB"), Some(&120000));
    assert_eq!(data.coin_to_asset.get("BBB"), Some(&120000));
    assert_eq!(data.coin_to_asset.get("dexC:BTC"), Some(&130000));
    assert_eq!(
        data.coin_to_asset.get("BTC"),
        Some(&0),
        "builder DEX bare aliases must not override main perps"
    );
}

#[test]
fn lookups_normalize_spot_pair_ids_and_replace_atomically() {
    let mut store = MarketMetaStore::from_data(MarketMetaStore::build_data(
        &meta(&[("BTC", 5)]),
        &spot_meta(),
        &[],
    ));

    assert_eq!(store.asset_id("HYPE-SPOT"), Some(10107));
    assert_eq!(store.sz_decimals("107"), Some(2));
    assert_eq!(store.spot_pair_id("107"), Some("@107".to_string()));
    assert_eq!(
        store.symbol_by_spot_pair_id("107"),
        Some("HYPE/USDC".to_string())
    );
    assert_eq!(store.mid_key("HYPE/USDC"), Some("@107".to_string()));

    let mut next = MarketMetaStoreData::default();
    next.coin_to_asset.insert("NEW".to_string(), 7);
    store.replace_data(next).unwrap();
    assert_eq!(store.asset_id("BTC"), None);
    assert_eq!(store.asset_id("NEW"), Some(7));
}

#[test]
fn maps_hip4_outcome_markets_and_overlays_mids() {
    let mids = mids_of(&[("#20", "0.604185"), ("#21", "0.395815")]);
    let data = MarketMetaStore::build_data_with_outcomes(
        &meta(&[("BTC", 5)]),
        &spot_meta(),
        &[],
        Some(outcome_meta()),
        Some(&mids),
    );
    let mut store = MarketMetaStore::from_data(data);

    assert_eq!(store.outcome_asset_id("#20"), Some(100000020));
    assert_eq!(store.outcome_asset_id("+20"), Some(100000020));
    assert_eq!(store.outcome_asset_id("20"), Some(100000020));
    assert_eq!(store.outcome_asset_id("100000020"), Some(100000020));
    assert_eq!(store.outcome_token_name("#20"), Some("+20".to_string()));
    assert_eq!(store.outcome_encoding("100000021"), Some(21));

    let yes = store.resolve_outcome_market("#20").unwrap();
    assert_eq!(yes.coin, "#20");
    assert_eq!(yes.encoding, 20);
    assert_eq!(yes.asset_id, 100000020);
    assert_eq!(yes.outcome_id, 2);
    assert_eq!(yes.side_index, 0);
    assert_eq!(yes.side_name, "Yes");
    assert_eq!(yes.question_id, Some(7));
    assert_eq!(yes.mid, Some("0.604185".to_string()));

    let no = store.resolve_outcome_market("+21").unwrap();
    assert_eq!(no.side_name, "No");
    assert_eq!(no.asset_id, 100000021);
    assert_eq!(store.outcome_markets_by_outcome(2).len(), 2);
    assert_eq!(store.outcome_markets_by_question(7).len(), 2);
    assert!(store.resolve_outcome_market("#30").unwrap().is_settled);

    store
        .apply_all_mids(&mids_of(&[("#20", "0.61")]))
        .unwrap();
    assert_eq!(
        store.outcome_order_info("#20").unwrap().mid,
        Some("0.61".to_string())
    );
}

#[test]
fn parses_hip4_outcome_identifiers() {
    assert_eq!(outcome_encoding_from_identifier("#20"), Some(20));
    assert_eq!(outcome_encoding_from_identifier("+21"), Some(21));
    assert_eq!(outcome_encoding_from_identifier("100000020"), Some(20));
    assert_eq!(
        resolve_outcome_asset_id_from_identifier("21"),
        Some(100000021)
    );
    assert_eq!(resolve_outcome_asset_id_from_identifier("#22"), None);
    assert_eq!(resolve_outcome_asset_id_from_identifier("#9"), None);
}
