use hyperliquid_rust_sdk::market_meta_store::rebuild_outcome_indexes;
use hyperliquid_rust_sdk::outcome_index::sort_by_encoding;
use hyperliquid_rust_sdk::{
    select_builder_dexs, AssetMeta, BaseUrl, CandleSnapshotRequest, Error, InfoClient,
    MarketMetaStore, MarketMetaStoreData, MarketMetaStoreDexs, MarketMetaStoreOptions, Meta,
    OutcomeMetaOutcome, OutcomeMetaResponse, OutcomeQuestion, OutcomeSideSpec, PerpDex,
    RefreshInterval, SpotAssetMeta, SpotMeta, StrMap, TokenInfo,
};

fn meta(names: &[(&str, u32)]) -> Meta {
    Meta {
        universe: names
            .iter()
            .map(|(name, sz_decimals)| AssetMeta {
                name: (*name).to_string(),
                sz_decimals: *sz_decimals,
                max_leverage: 20,
                only_isolated: None,
            })
            .collect(),
    }
}

fn token(name: &str, index: usize, sz_decimals: u8) -> TokenInfo {
    TokenInfo {
        name: name.to_string(),
        sz_decimals,
        wei_decimals: 8,
        index,
        token_id: [0u8; 16],
        is_canonical: true,
    }
}

fn pair(tokens: [usize; 2], name: &str, index: usize) -> SpotAssetMeta {
    SpotAssetMeta {
        tokens,
        name: name.to_string(),
        index,
        is_canonical: true,
    }
}

fn side(name: &str) -> OutcomeSideSpec {
    OutcomeSideSpec {
        name: name.to_string(),
        token: None,
    }
}

fn outcome(number: u32, sides: &[&str]) -> OutcomeMetaOutcome {
    OutcomeMetaOutcome {
        outcome: number,
        name: format!("outcome {number}"),
        description: "d".to_string(),
        side_specs: sides.iter().map(|s| side(s)).collect(),
    }
}

fn mids_of(pairs: &[(&str, &str)]) -> StrMap<String> {
    let mut mids = StrMap::new();
    for (coin, mid) in pairs {
        mids.insert((*coin).to_string(), (*mid).to_string());
    }
    mids
}

fn empty_spot() -> SpotMeta {
    SpotMeta {
        universe: vec![],
        tokens: vec![],
    }
}

#[test]
fn later_main_perps_take_a_repeated_name() {
    let data = MarketMetaStore::build_data(&meta(&[("BTC", 5), ("BTC", 3)]), &empty_spot(), &[]);
    assert_eq!(data.coin_to_asset.get("BTC"), Some(&1));
    assert_eq!(data.coin_to_sz_decimals.get("main:BTC-PERP"), Some(&3));
    assert_eq!(data.coin_to_asset.len(), 4);
}

#[test]
fn perp_names_are_trimmed_and_keep_their_mid_key() {
    let data = MarketMetaStore::build_data(&meta(&[(" ETH ", 4)]), &empty_spot(), &[]);
    let store = MarketMetaStore::from_data(data);
    assert_eq!(store.asset_id("ETH"), Some(0));
    assert_eq!(store.asset_id("ETH -PERP"), Some(0));
    assert_eq!(store.mid_key("ETH"), Some(" ETH ".to_string()));
    assert_eq!(store.asset_id("ETH-PERP"), None);
}

#[test]
fn spot_pairs_with_unknown_tokens_are_skipped() {
    let spot = SpotMeta {
        tokens: vec![token("PURR", 0, 0), token("USDC", 1, 6)],
        universe: vec![pair([0, 9], "PURR/XYZ", 3), pair([0, 1], "   ", 4)],
    };
    let data = MarketMetaStore::build_data(&meta(&[]), &spot, &[]);
    assert_eq!(data.coin_to_asset.get("PURR/XYZ"), None);
    assert_eq!(data.coin_to_asset.get("@3"), None);
    // a blank pair name falls back to the index
    assert_eq!(data.coin_to_asset.get("@4"), Some(&10004));
    assert_eq!(data.coin_to_asset.get("PURR-SPOT"), Some(&10004));
    assert_eq!(data.spot_pair_to_symbol.get("4"), Some(&"PURR/USDC".to_string()));
    assert_eq!(data.symbol_to_spot_pair.get("10004"), Some(&"@4".to_string()));
}

#[test]
fn the_last_token_with_an_index_is_used() {
    let spot = SpotMeta {
        tokens: vec![token("OLD", 0, 1), token("USDC", 1, 6), token("NEW", 0, 3)],
        universe: vec![pair([0, 1], "X", 5)],
    };
    let data = MarketMetaStore::build_data(&meta(&[]), &spot, &[]);
    assert_eq!(data.coin_to_asset.get("NEW/USDC"), Some(&10005));
    assert_eq!(data.coin_to_sz_decimals.get("NEW-SPOT"), Some(&3));
    assert_eq!(data.coin_to_asset.get("OLD/USDC"), None);
}

#[test]
fn blank_builder_dexs_add_nothing() {
    let data = MarketMetaStore::build_data(&meta(&[]), &empty_spot(), &[(4, "  ".to_string(), meta(&[("ZZZ", 1)]))]);
    assert_eq!(data.coin_to_asset.len(), 0);
    let data = MarketMetaStore::build_data(&meta(&[]), &empty_spot(), &[(4, " dexD ".to_string(), meta(&[("ZZZ", 1), ("dexD:YYY", 2)]))]);
    assert_eq!(data.coin_to_asset.get("dexD:ZZZ"), Some(&140000));
    assert_eq!(data.coin_to_asset.get("YYY-PERP"), Some(&140001));
    assert_eq!(data.coin_to_asset.get("dexD:YYY-PERP"), Some(&140001));
    let store = MarketMetaStore::from_data(data);
    assert_eq!(store.mid_key("ZZZ"), Some("dexD:ZZZ".to_string()));
}

#[test]
fn asset_ids_fall_back_to_outcome_identifiers() {
    let store = MarketMetaStore::from_data(MarketMetaStoreData::default());
    assert_eq!(store.asset_id("#20"), Some(100000020));
    assert_eq!(store.asset_id("BTC"), None);
    assert_eq!(store.outcome_asset_id("+31"), Some(100000031));
    assert_eq!(store.outcome_token_name("20"), Some("+20".to_string()));
    assert_eq!(store.outcome_encoding("100000021"), Some(21));
    assert!(store.resolve_outcome_market("#20").is_none());
    assert!(store.outcome_order_info("#20").is_none());
    assert_eq!(store.outcome_token_name("#22"), None);
}

fn outcome_store() -> MarketMetaStore {
    let response = OutcomeMetaResponse {
        outcomes: vec![outcome(4, &["Yes", "No", "Maybe"]), outcome(0, &["Zero"]), outcome(5, &["Up"])],
        questions: vec![OutcomeQuestion {
            question: 9,
            name: "Q".to_string(),
            description: "q".to_string(),
            fallback_outcome: 1,
            named_outcomes: vec![5, 4],
            settled_named_outcomes: vec![5],
        }],
    };
    let mids = mids_of(&[("#41", "0.3"), ("+40", "0.7")]);
    MarketMetaStore::from_data(MarketMetaStore::build_data_with_outcomes(
        &meta(&[]),
        &empty_spot(),
        &[],
        Some(response),
        Some(&mids),
    ))
}

#[test]
fn outcome_sides_beyond_the_second_and_outcome_zero_are_not_indexed() {
    let store = outcome_store();
    let coins: Vec<String> = store.outcome_markets().into_iter().map(|r| r.coin).collect();
    assert_eq!(coins, vec!["#40".to_string(), "#41".to_string(), "#50".to_string()]);
    assert!(store.resolve_outcome_market("#42").is_none());
    assert!(store.resolve_outcome_market("#0").is_none());
}

#[test]
fn outcome_records_carry_question_settlement_and_direct_mids() {
    let store = outcome_store();
    let yes = store.resolve_outcome_market("40").unwrap();
    assert_eq!(yes.question_id, Some(9));
    assert_eq!(yes.question_name, Some("Q".to_string()));
    assert_eq!(yes.fallback_outcome, Some(1));
    assert!(!yes.is_settled);
    // mids are taken by exact coin while building
    assert_eq!(yes.mid, None);
    let no = store.resolve_outcome_market("+41").unwrap();
    assert_eq!(no.mid, Some("0.3".to_string()));
    assert_eq!(no.side_name, "No");
    let up = store.resolve_outcome_market("100000050").unwrap();
    assert!(up.is_settled);
    assert_eq!(up.outcome_name, "outcome 5");
}

#[test]
fn indexes_group_records_in_encoding_order() {
    let store = outcome_store();
    let by_four: Vec<u32> = store.outcome_markets_by_outcome(4).iter().map(|r| r.encoding).collect();
    assert_eq!(by_four, vec![40, 41]);
    let by_question: Vec<u32> = store.outcome_markets_by_question(9).iter().map(|r| r.encoding).collect();
    assert_eq!(by_question, vec![40, 41, 50]);
    assert!(store.outcome_markets_by_outcome(0).is_empty());
    assert!(store.outcome_markets_by_question(1).is_empty());
}

#[test]
fn mids_apply_through_any_alias_and_are_read_back() {
    let mut store = outcome_store();
    store.apply_all_mids(&mids_of(&[("+40", "0.55"), ("unknown", "1"), ("#99", "2")])).unwrap();
    assert_eq!(store.outcome_order_info("#40").unwrap().mid, Some("0.55".to_string()));
    assert_eq!(store.outcome_order_info("#41").unwrap().mid, Some("0.3".to_string()));
    let by_four = store.outcome_markets_by_outcome(4);
    assert_eq!(by_four[0].mid, Some("0.55".to_string()));
}

#[test]
fn outcome_coins_name_their_assets() {
    let store = outcome_store();
    assert_eq!(store.asset_id("#40"), Some(100000040));
    assert_eq!(store.asset_id("+41"), Some(100000041));
    assert_eq!(store.asset_id("100000050"), Some(100000050));
    let info = store.outcome_order_info(" #41 ").unwrap();
    assert_eq!(info.coin, "#41");
    assert_eq!(info.token_name, "+41");
    assert_eq!(info.outcome_id, 4);
    assert_eq!(info.side_index, 1);
    assert_eq!(info.outcome_name, "outcome 4");
}

#[test]
fn snapshots_and_table_copies_match_the_store() {
    let store = outcome_store();
    let snap = store.snapshot();
    assert_eq!(snap.outcome_markets_by_coin.len(), 3);
    assert_eq!(snap.outcome_alias_to_coin.get("100000041"), Some(&"#41".to_string()));
    assert_eq!(store.coin_to_asset().get("+50"), Some(&100000050));
    assert_eq!(store.coin_to_sz_decimals().len(), 0);
    assert!(snap.raw_outcome_meta.is_some());
}

#[test]
fn auto_refresh_needs_a_positive_interval() {
    let mut store = MarketMetaStore::new(
        None,
        Some(MarketMetaStoreOptions {
            refresh_interval: RefreshInterval::from_millis(0),
            ..MarketMetaStoreOptions::default()
        }),
    );
    match store.start_auto_refresh(None) {
        Err(Error::GenericRequest(message)) => {
            assert_eq!(message, "Refresh interval must be greater than zero")
        }
        Ok(()) => panic!("a zero interval was accepted"),
    }
    assert!(!store.is_auto_refresh_enabled());

    let mut store = MarketMetaStore::new(Some(BaseUrl::Testnet), None);
    assert_eq!(store.options().refresh_interval.as_secs(), 60);
    assert_eq!(store.options().refresh_interval.subsec_nanos(), 0);
    assert!(store.start_auto_refresh(None).is_ok());
    assert!(store.is_auto_refresh_enabled());
    store.stop_auto_refresh();
    assert!(!store.is_auto_refresh_enabled());
    assert!(matches!(store.base_url(), BaseUrl::Testnet));
}

#[test]
fn default_options_fetch_nothing_extra() {
    let options = MarketMetaStoreOptions::default();
    assert!(matches!(options.dexs, MarketMetaStoreDexs::NoBuilderDexs));
    assert!(!options.outcomes);
    assert!(!options.auto_refresh);
    assert_eq!(options.refresh_interval.as_secs(), 60);
    assert_eq!(options.refresh_interval.subsec_nanos(), 0);
}

#[test]
fn builder_dexs_to_fetch() {
    let listed = vec![
        Some(PerpDex { name: "main".to_string() }),
        None,
        Some(PerpDex { name: "dexA".to_string() }),
        Some(PerpDex { name: "  ".to_string() }),
        Some(PerpDex { name: "dexB".to_string() }),
    ];
    assert_eq!(
        select_builder_dexs(&listed, &MarketMetaStoreDexs::All),
        vec![(2, "dexA".to_string()), (4, "dexB".to_string())]
    );
    assert_eq!(
        select_builder_dexs(&listed, &MarketMetaStoreDexs::Selected(vec!["dexB".to_string(), "main".to_string()])),
        vec![(4, "dexB".to_string())]
    );
    assert!(select_builder_dexs(&listed, &MarketMetaStoreDexs::NoBuilderDexs).is_empty());
}

#[test]
fn info_endpoints_and_websocket_addresses() {
    assert_eq!(BaseUrl::Mainnet.get_url(), "https://api.hyperliquid.xyz");
    let client = InfoClient::new(None);
    assert_eq!(client.base_url(), "https://api.hyperliquid.xyz");
    assert_eq!(client.ws_url(), "wss://api.hyperliquid.xyz/ws");
    assert!(!client.reconnect());
    let client = InfoClient::with_reconnect(Some(BaseUrl::Localhost));
    assert_eq!(client.ws_url(), "ws://localhost:3001/ws");
    assert!(client.reconnect());
    let client = InfoClient::new(Some(BaseUrl::Testnet));
    assert_eq!(client.ws_url(), "wss://api.hyperliquid-testnet.xyz/ws");
}

#[test]
fn candle_requests_keep_their_parameters() {
    let request = CandleSnapshotRequest::new("BTC".to_string(), "1h".to_string(), 10, 20);
    assert_eq!(request.coin(), "BTC");
    assert_eq!(request.interval(), "1h");
    assert_eq!(request.start_time(), 10);
    assert_eq!(request.end_time(), 20);
}

#[test]
fn string_maps_keep_first_insertion_order() {
    let mut map = StrMap::new();
    map.insert("b".to_string(), 1u32);
    map.insert("a".to_string(), 2u32);
    map.insert("b".to_string(), 3u32);
    assert_eq!(map.len(), 2);
    assert_eq!(map.key_at(0), "b");
    assert_eq!(*map.value_at(0), 3);
    assert_eq!(map.get("a"), Some(&2));
    assert!(!map.contains_key("c"));
}

#[test]
fn snapshots_copy_the_raw_outcome_response() {
    let store = outcome_store();
    let raw = store.snapshot().raw_outcome_meta.unwrap();
    let outcomes: Vec<(u32, usize)> = raw.outcomes.iter().map(|o| (o.outcome, o.side_specs.len())).collect();
    assert_eq!(outcomes, vec![(4, 3), (0, 1), (5, 1)]);
    assert_eq!(raw.outcomes[0].side_specs[2].name, "Maybe");
    assert_eq!(raw.questions.len(), 1);
    assert_eq!(raw.questions[0].named_outcomes, vec![5, 4]);
    assert_eq!(raw.questions[0].settled_named_outcomes, vec![5]);
    let copy = store.snapshot().clone();
    assert_eq!(copy.raw_outcome_meta.unwrap().outcomes[2].name, "outcome 5");
}

#[test]
fn main_perps_keep_their_names_when_outcomes_are_added() {
    let response = OutcomeMetaResponse {
        outcomes: vec![outcome(4, &["Yes", "No"])],
        questions: vec![],
    };
    let spot = SpotMeta {
        tokens: vec![token("BTC", 0, 2), token("USDC", 1, 6)],
        universe: vec![pair([0, 1], "BTC", 7)],
    };
    let data = MarketMetaStore::build_data_with_outcomes(
        &meta(&[("BTC", 5), ("40", 1)]),
        &spot,
        &[],
        Some(response),
        None,
    );
    assert_eq!(data.coin_to_asset.get("BTC"), Some(&0));
    assert_eq!(data.coin_to_sz_decimals.get("BTC"), Some(&5));
    assert_eq!(data.mid_key_by_symbol.get("BTC"), Some(&"BTC".to_string()));
    // a bare encoding is no outcome name: the perp keeps it
    assert_eq!(data.coin_to_asset.get("40"), Some(&1));
    assert_eq!(data.coin_to_asset.get("#40"), Some(&100000040));
}

#[test]
fn building_without_outcomes_is_the_plain_build() {
    let spot = SpotMeta {
        tokens: vec![token("PURR", 0, 0), token("USDC", 1, 6)],
        universe: vec![pair([0, 1], "PURR/USDC", 0)],
    };
    let m = meta(&[("BTC", 5), ("ETH", 4)]);
    let mids = mids_of(&[("#40", "0.5"), ("BTC", "1")]);
    let plain = MarketMetaStore::build_data(&m, &spot, &[]);
    let with = MarketMetaStore::build_data_with_outcomes(&m, &spot, &[], None, Some(&mids));
    for name in ["BTC", "ETH", "BTC-PERP", "main:ETH-PERP", "PURR/USDC", "@0", "PURR-SPOT", "10000"] {
        assert_eq!(plain.coin_to_asset.get(name), with.coin_to_asset.get(name), "{name}");
        assert_eq!(plain.coin_to_sz_decimals.get(name), with.coin_to_sz_decimals.get(name), "{name}");
        assert_eq!(plain.mid_key_by_symbol.get(name), with.mid_key_by_symbol.get(name), "{name}");
    }
    assert_eq!(plain.coin_to_asset.len(), with.coin_to_asset.len());
    assert_eq!(with.outcome_markets_by_coin.len(), 0);
    assert_eq!(with.outcome_alias_to_coin.len(), 0);
    assert!(with.outcome_markets_by_outcome.is_empty());
    assert!(with.outcome_markets_by_question.is_empty());
    assert!(with.raw_outcome_meta.is_none());
}

#[test]
fn applying_mids_again_leaves_the_indexes_as_built() {
    let mut store = outcome_store();
    let before: Vec<(u32, Vec<u32>)> = [0u32, 4, 5]
        .iter()
        .map(|o| (*o, store.outcome_markets_by_outcome(*o).iter().map(|r| r.encoding).collect()))
        .collect();
    store.apply_all_mids(&mids_of(&[])).unwrap();
    store.apply_all_mids(&mids_of(&[])).unwrap();
    let after: Vec<(u32, Vec<u32>)> = [0u32, 4, 5]
        .iter()
        .map(|o| (*o, store.outcome_markets_by_outcome(*o).iter().map(|r| r.encoding).collect()))
        .collect();
    assert_eq!(before, after);
    assert_eq!(after[1].1, vec![40, 41]);
    let snap = store.snapshot();
    assert!(snap.outcome_markets_by_outcome.values().all(|v| !v.is_empty()));
    assert!(snap.outcome_markets_by_question.values().all(|v| !v.is_empty()));
}

#[test]
fn refresh_intervals_below_a_millisecond_are_kept() {
    let tiny = RefreshInterval::new(0, 500);
    assert!(!tiny.is_zero());
    assert_eq!((tiny.as_secs(), tiny.subsec_nanos()), (0, 500));
    let carried = RefreshInterval::new(2, 1_500_000_000);
    assert_eq!((carried.as_secs(), carried.subsec_nanos()), (3, 500_000_000));
    let ms = RefreshInterval::from_millis(2_250);
    assert_eq!((ms.as_secs(), ms.subsec_nanos()), (2, 250_000_000));
    assert!(RefreshInterval::new(0, 0).is_zero());
    let mut store = MarketMetaStore::new(
        None,
        Some(MarketMetaStoreOptions { refresh_interval: tiny, ..MarketMetaStoreOptions::default() }),
    );
    assert!(store.start_auto_refresh(None).is_ok());
}

#[test]
fn auto_refresh_without_a_runtime_reports_why_and_stops() {
    let mut store = MarketMetaStore::new(None, None);
    assert!(store.start_auto_refresh(None).is_ok());
    assert!(store.is_auto_refresh_enabled());
    match store.start_auto_refresh(Some("no reactor running".to_string())) {
        Err(Error::GenericRequest(message)) => {
            assert_eq!(message, "Tokio runtime required for auto refresh: no reactor running")
        }
        Ok(()) => panic!("started without a runtime"),
    }
    assert!(!store.is_auto_refresh_enabled());

    let mut zero = MarketMetaStore::new(
        None,
        Some(MarketMetaStoreOptions {
            refresh_interval: RefreshInterval::from_secs(0),
            ..MarketMetaStoreOptions::default()
        }),
    );
    match zero.start_auto_refresh(Some("no reactor running".to_string())) {
        Err(Error::GenericRequest(message)) => {
            assert_eq!(message, "Refresh interval must be greater than zero")
        }
        Ok(()) => panic!("a zero interval was accepted"),
    }
}

#[test]
fn rebuilding_the_indexes_twice_is_rebuilding_once() {
    let mut data = outcome_store().snapshot();
    let shape = |d: &MarketMetaStoreData| {
        let mut by_outcome: Vec<(u32, Vec<String>)> = d
            .outcome_markets_by_outcome
            .iter()
            .map(|(k, v)| (*k, v.iter().map(|r| r.coin.clone()).collect()))
            .collect();
        by_outcome.sort();
        let mut by_question: Vec<(u32, Vec<String>)> = d
            .outcome_markets_by_question
            .iter()
            .map(|(k, v)| (*k, v.iter().map(|r| r.coin.clone()).collect()))
            .collect();
        by_question.sort();
        (by_outcome, by_question)
    };
    let built = shape(&data);
    rebuild_outcome_indexes(&mut data);
    let once = shape(&data);
    rebuild_outcome_indexes(&mut data);
    assert_eq!(once, built);
    assert_eq!(shape(&data), once);
    assert_eq!(data.outcome_markets_by_coin.len(), 3);
    assert_eq!(data.coin_to_asset.get("#40"), Some(&100000040));
}

#[test]
fn equal_encodings_keep_their_order_when_sorted() {
    let store = outcome_store();
    let mut a = store.resolve_outcome_market("#41").unwrap();
    let mut b = a.clone();
    a.side_name = "first".to_string();
    b.side_name = "second".to_string();
    let low = store.resolve_outcome_market("#40").unwrap();
    let sorted = sort_by_encoding(&vec![a, low, b]);
    let order: Vec<(u32, String)> = sorted.iter().map(|r| (r.encoding, r.side_name.clone())).collect();
    assert_eq!(
        order,
        vec![(40, "Yes".to_string()), (41, "first".to_string()), (41, "second".to_string())]
    );
}
