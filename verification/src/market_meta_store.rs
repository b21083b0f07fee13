//! The market metadata store: tables from every name of a market to its
//! asset id, size decimals, spot pair and mid key, and the HIP-4 outcome
//! markets with their aliases and indexes.

use std::collections::HashMap;
use vstd::prelude::*;
use crate::identifiers::{
    lemma_unique_names_distinct, string_views, unique_names, unique_name_seq,
};
use crate::identifiers::normalize_spot_pair_id;
use crate::meta::{Meta, SpotAssetMeta, SpotMeta, TokenInfo};
use crate::model::{distinct_encodings, keyed_by_coin, lemma_mids_keyed_by_coin, lemma_outcomes_keyed_by_coin};
use crate::model::{
    builder_coin, builder_dex_fits, builder_dexs_fit, builder_names, builder_offset, qualified_name,
    with_builder_assets, with_builder_dex, with_builder_dexs, last_token, main_prefix, overwrite, perp_names, perp_suffix, spot_asset_id, spot_market_fits,
    spot_markets_fit, spot_names, spot_pair_id_of, spot_suffix, spot_symbol, usdc, with_aliases,
    groups_records, outcome_key, outcome_record, question_for, question_key, side_encoding,
    with_outcome_side, with_outcome_sides, with_outcomes, indexed_sides,
    with_default_perps, with_spot_market, empty_model, first_alias_hit, resolve_alias, with_mids, with_spot_markets, written_of, DataModel,
};
use crate::text::{decimal, strip_prefix_str, trim, trimmed, u32_to_string, usize_to_string};
use crate::records::{opt_str_view, OutcomeMarketRecord, OutcomeMarketRecordView, OutcomeOrderInfo};
use crate::outcome_index::{build_indexes, encoding_sort, grouped, index_view, record_views};
use crate::meta::{OutcomeMetaOutcome, OutcomeQuestion};
use crate::identifiers::{coin_name, encoding_asset_id, outcome_alias_candidates, outcome_asset_id_from_encoding, token_name, alias_candidates};
use crate::str_map::StrMap;
use crate::builder_dexs::MarketMetaStoreDexs;
use crate::error::Error;
use crate::info::BaseUrl;
use crate::identifiers::{identifier_asset_id, identifier_encoding, normal_spot_pair_id, resolve_outcome_asset_id_from_identifier, outcome_encoding_from_identifier};
use crate::meta::{opt_outcome_meta_view, OutcomeMetaResponse};
use crate::identifiers::concat_str;

verus! {

/// The tables of the store.
#[derive(Debug)]
pub struct MarketMetaStoreData {
    pub coin_to_asset: StrMap<u32>,
    pub coin_to_sz_decimals: StrMap<u32>,
    pub spot_pair_to_symbol: StrMap<String>,
    pub symbol_to_spot_pair: StrMap<String>,
    pub raw_outcome_meta: Option<OutcomeMetaResponse>,
    pub outcome_markets_by_coin: StrMap<OutcomeMarketRecord>,
    pub outcome_alias_to_coin: StrMap<String>,
    pub outcome_markets_by_outcome: HashMap<u32, Vec<OutcomeMarketRecord>>,
    pub outcome_markets_by_question: HashMap<u32, Vec<OutcomeMarketRecord>>,
    pub mid_key_by_symbol: StrMap<String>,
}

impl View for MarketMetaStoreData {
    type V = DataModel;

    open spec fn view(&self) -> DataModel {
        DataModel {
            coin_to_asset: self.coin_to_asset@,
            coin_to_sz_decimals: self.coin_to_sz_decimals@,
            spot_pair_to_symbol: self.spot_pair_to_symbol@,
            symbol_to_spot_pair: self.symbol_to_spot_pair@,
            outcome_markets_by_coin: self.outcome_markets_by_coin@,
            outcome_alias_to_coin: self.outcome_alias_to_coin@,
            mid_key_by_symbol: self.mid_key_by_symbol@,
        }
    }
}

impl MarketMetaStoreData {
    /// The outcome records, in the order of their coins.
    pub open spec fn market_records(self) -> Seq<OutcomeMarketRecordView> {
        record_views(self.outcome_markets_by_coin.value_seq())
    }

    /// The outcome and question indexes group the outcome records: each
    /// key's list holds that key's records, in the order that ordering all
    /// records by encoding (equal encodings keeping their order) gives.
    pub open spec fn indexes_consistent(self) -> bool {
        &&& groups_records(index_view(self.outcome_markets_by_outcome), self.market_records(), outcome_key())
        &&& groups_records(index_view(self.outcome_markets_by_question), self.market_records(), question_key())
        &&& index_view(self.outcome_markets_by_outcome) == grouped(encoding_sort(self.market_records()), outcome_key())
        &&& index_view(self.outcome_markets_by_question) == grouped(encoding_sort(self.market_records()), question_key())
    }

    /// Everything of the outcomes: their records, indexes and response.
    pub open spec fn same_outcomes(self, other: Self) -> bool {
        &&& self.same_indexes(other)
        &&& self.outcome_markets_by_coin == other.outcome_markets_by_coin
    }

    /// Everything but the string tables.
    pub open spec fn same_indexes(self, other: Self) -> bool {
        &&& self.raw_outcome_meta == other.raw_outcome_meta
        &&& self.outcome_markets_by_outcome == other.outcome_markets_by_outcome
        &&& self.outcome_markets_by_question == other.outcome_markets_by_question
    }
}

impl Default for MarketMetaStoreData {
    fn default() -> (r: Self)
        ensures
            r@ == empty_model(),
            r.raw_outcome_meta is None,
            index_view(r.outcome_markets_by_outcome) == Map::<u32, Seq<OutcomeMarketRecordView>>::empty(),
            index_view(r.outcome_markets_by_question) == Map::<u32, Seq<OutcomeMarketRecordView>>::empty(),
            r.market_records() == Seq::<OutcomeMarketRecordView>::empty(),
            r.indexes_consistent(),
    {
        let r = MarketMetaStoreData {
            coin_to_asset: StrMap::new(),
            coin_to_sz_decimals: StrMap::new(),
            spot_pair_to_symbol: StrMap::new(),
            symbol_to_spot_pair: StrMap::new(),
            raw_outcome_meta: None,
            outcome_markets_by_coin: StrMap::new(),
            outcome_alias_to_coin: StrMap::new(),
            outcome_markets_by_outcome: HashMap::new(),
            outcome_markets_by_question: HashMap::new(),
            mid_key_by_symbol: StrMap::new(),
        };
        proof {
            r.outcome_markets_by_coin.lemma_value_seq_len();
            assert(r.market_records() =~= Seq::<OutcomeMarketRecordView>::empty());
            assert(index_view(r.outcome_markets_by_outcome) =~= Map::empty());
            assert(index_view(r.outcome_markets_by_question) =~= Map::empty());
            let e = encoding_sort(r.market_records());
            assert(e == r.market_records());
            assert(grouped(e, outcome_key()) =~= Map::empty());
            assert(grouped(e, question_key()) =~= Map::empty());
        }
        r
    }
}

impl Clone for MarketMetaStoreData {
    /// A copy of every table and of the raw outcome response.
    fn clone(&self) -> (r: Self)
        ensures
            r@ == self@,
            r.market_records() == self.market_records(),
            index_view(r.outcome_markets_by_outcome) == index_view(self.outcome_markets_by_outcome),
            index_view(r.outcome_markets_by_question) == index_view(self.outcome_markets_by_question),
            r.indexes_consistent() == self.indexes_consistent(),
            opt_outcome_meta_view(r.raw_outcome_meta) == opt_outcome_meta_view(self.raw_outcome_meta),
    {
        let r = MarketMetaStoreData {
            coin_to_asset: self.coin_to_asset.clone(),
            coin_to_sz_decimals: self.coin_to_sz_decimals.clone(),
            spot_pair_to_symbol: self.spot_pair_to_symbol.clone(),
            symbol_to_spot_pair: self.symbol_to_spot_pair.clone(),
            raw_outcome_meta: self.raw_outcome_meta.clone(),
            outcome_markets_by_coin: self.outcome_markets_by_coin.clone(),
            outcome_alias_to_coin: self.outcome_alias_to_coin.clone(),
            outcome_markets_by_outcome: self.outcome_markets_by_outcome.clone(),
            outcome_markets_by_question: self.outcome_markets_by_question.clone(),
            mid_key_by_symbol: self.mid_key_by_symbol.clone(),
        };
        proof {
            assert(r.coin_to_asset.value_seq() =~= self.coin_to_asset.value_seq());
            StrMap::lemma_same_entries(r.coin_to_asset, self.coin_to_asset);
            assert(r.coin_to_sz_decimals.value_seq() =~= self.coin_to_sz_decimals.value_seq());
            StrMap::lemma_same_entries(r.coin_to_sz_decimals, self.coin_to_sz_decimals);
            assert(r.spot_pair_to_symbol.value_seq() =~= self.spot_pair_to_symbol.value_seq());
            StrMap::lemma_same_entries(r.spot_pair_to_symbol, self.spot_pair_to_symbol);
            assert(r.symbol_to_spot_pair.value_seq() =~= self.symbol_to_spot_pair.value_seq());
            StrMap::lemma_same_entries(r.symbol_to_spot_pair, self.symbol_to_spot_pair);
            assert(r.outcome_markets_by_coin.value_seq() =~= self.outcome_markets_by_coin.value_seq());
            StrMap::lemma_same_entries(r.outcome_markets_by_coin, self.outcome_markets_by_coin);
            assert(r.outcome_alias_to_coin.value_seq() =~= self.outcome_alias_to_coin.value_seq());
            StrMap::lemma_same_entries(r.outcome_alias_to_coin, self.outcome_alias_to_coin);
            assert(r.mid_key_by_symbol.value_seq() =~= self.mid_key_by_symbol.value_seq());
            StrMap::lemma_same_entries(r.mid_key_by_symbol, self.mid_key_by_symbol);
        }
        r
    }
}

/// Maps every name of `aliases`, trimmed and once each, to `asset_id`,
/// `sz_decimals` and `mid_key`; with `preserve_existing`, names that already
/// have an asset are left alone.
fn set_aliases(
    data: &mut MarketMetaStoreData,
    aliases: &Vec<String>,
    asset_id: u32,
    sz_decimals: u32,
    mid_key: &str,
    preserve_existing: bool,
)
    ensures
        final(data)@ == with_aliases(
            old(data)@,
            string_views(aliases@),
            asset_id,
            sz_decimals,
            mid_key@,
            preserve_existing,
        ),
        final(data).same_outcomes(*old(data)),
{
    let names = unique_names(aliases);
    let ghost d0 = data@;
    let ghost u = string_views(names@);
    proof {
        lemma_unique_names_distinct(string_views(aliases@));
        let w0 = written_of(d0.coin_to_asset, u.take(0), preserve_existing);
        assert(w0 =~= Set::empty());
        assert(overwrite(d0.coin_to_asset, w0, asset_id) =~= d0.coin_to_asset);
        assert(overwrite(d0.coin_to_sz_decimals, w0, sz_decimals) =~= d0.coin_to_sz_decimals);
        assert(overwrite(d0.mid_key_by_symbol, w0, mid_key@) =~= d0.mid_key_by_symbol);
    }
    let mut i: usize = 0;
    while i < names.len()
        invariant
            i <= names@.len(),
            u == string_views(names@),
            u == unique_name_seq(string_views(aliases@)),
            u.no_duplicates(),
            data@ == (DataModel {
                coin_to_asset: overwrite(
                    d0.coin_to_asset,
                    written_of(d0.coin_to_asset, u.take(i as int), preserve_existing),
                    asset_id,
                ),
                coin_to_sz_decimals: overwrite(
                    d0.coin_to_sz_decimals,
                    written_of(d0.coin_to_asset, u.take(i as int), preserve_existing),
                    sz_decimals,
                ),
                mid_key_by_symbol: overwrite(
                    d0.mid_key_by_symbol,
                    written_of(d0.coin_to_asset, u.take(i as int), preserve_existing),
                    mid_key@,
                ),
                ..d0
            }),
            data.same_outcomes(*old(data)),
        decreases names@.len() - i,
    {
        let alias = &names[i];
        let ghost a = alias@;
        let ghost w = written_of(d0.coin_to_asset, u.take(i as int), preserve_existing);
        let ghost w1 = written_of(d0.coin_to_asset, u.take(i + 1), preserve_existing);
        assert(u[i as int] == a);
        assert(!u.take(i as int).contains(a)) by {
            if u.take(i as int).contains(a) {
                let j = choose|j: int| 0 <= j < i && #[trigger] u.take(i as int)[j] == a;
                assert(u[j] == u[i as int]);
            }
        }
        assert forall|k: Seq<char>| k != a implies (u.take(i + 1).contains(k) <==> u.take(
            i as int,
        ).contains(k)) by {
            if u.take(i + 1).contains(k) {
                let j = choose|j: int| 0 <= j < i + 1 && #[trigger] u.take(i + 1)[j] == k;
                assert(u.take(i as int)[j] == k);
            }
            if u.take(i as int).contains(k) {
                let j = choose|j: int| 0 <= j < i && #[trigger] u.take(i as int)[j] == k;
                assert(u.take(i + 1)[j] == k);
            }
        }
        assert(u.take(i + 1)[i as int] == a);
        if preserve_existing && data.coin_to_asset.contains_key(alias.as_str()) {
            assert(w1 =~= w);
        } else {
            data.coin_to_asset.insert(alias.clone(), asset_id);
            data.coin_to_sz_decimals.insert(alias.clone(), sz_decimals);
            data.mid_key_by_symbol.insert(alias.clone(), mid_key.to_owned());
            assert(w1 =~= w.insert(a));
            assert(data@.coin_to_asset =~= overwrite(d0.coin_to_asset, w1, asset_id));
            assert(data@.coin_to_sz_decimals =~= overwrite(d0.coin_to_sz_decimals, w1, sz_decimals));
            assert(data@.mid_key_by_symbol =~= overwrite(d0.mid_key_by_symbol, w1, mid_key@));
        }
        i = i + 1;
    }
    assert(u.take(names@.len() as int) =~= u);
}

/// Names the perpetuals of the main DEX: `X`, `X-PERP`, `main:X` and
/// `main:X-PERP` lead to asset id `index`.
fn process_default_perps(data: &mut MarketMetaStoreData, meta: &Meta)
    ensures
        final(data)@ == with_default_perps(old(data)@, meta.universe@),
        final(data).same_outcomes(*old(data)),
{
    let mut index: usize = 0;
    while index < meta.universe.len()
        invariant
            index <= meta.universe@.len(),
            data@ == with_default_perps(old(data)@, meta.universe@.take(index as int)),
            data.same_outcomes(*old(data)),
        decreases meta.universe@.len() - index,
    {
        let asset = &meta.universe[index];
        let name = asset.name.as_str();
        let with_perp = concat_str(name, "-PERP");
        let main = concat_str("main:", name);
        let main_perp = concat_str(main.as_str(), "-PERP");
        let mut aliases: Vec<String> = Vec::new();
        aliases.push(asset.name.clone());
        aliases.push(with_perp);
        aliases.push(main);
        aliases.push(main_perp);
        proof {
            reveal_strlit("-PERP");
            reveal_strlit("main:");
            assert("-PERP"@ =~= perp_suffix());
            assert("main:"@ =~= main_prefix());
            assert(string_views(aliases@) =~= perp_names(asset.name@));
            let u = meta.universe@;
            assert(u.take(index + 1).drop_last() =~= u.take(index as int));
            assert(u.take(index + 1).last() == u[index as int]);
        }
        set_aliases(data, &aliases, index as u32, asset.sz_decimals, name, false);
        index = index + 1;
    }
    assert(meta.universe@.take(meta.universe@.len() as int) =~= meta.universe@);
}

/// The position of the last token of `tokens` with index `idx`.
fn find_token(tokens: &Vec<TokenInfo>, idx: usize) -> (r: Option<usize>)
    ensures
        match r {
            Some(j) => j < tokens@.len() && last_token(tokens@, idx) == Some(tokens@[j as int]),
            None => last_token(tokens@, idx) is None,
        },
{
    let mut n: usize = tokens.len();
    assert(tokens@.take(n as int) =~= tokens@);
    while n > 0
        invariant
            n <= tokens@.len(),
            last_token(tokens@, idx) == last_token(tokens@.take(n as int), idx),
        decreases n,
    {
        let ghost t = tokens@.take(n as int);
        assert(t.last() == tokens@[n - 1]);
        assert(t.drop_last() =~= tokens@.take(n - 1));
        if tokens[n - 1].index == idx {
            return Some(n - 1);
        }
        n = n - 1;
    }
    None
}

/// Maps every key of `keys` to `value`.
fn map_all_to(map: &mut StrMap<String>, keys: &Vec<String>, value: &String)
    ensures
        final(map)@ == overwrite(old(map)@, string_views(keys@).to_set(), value@),
{
    let ghost m0 = map@;
    let ghost ks = string_views(keys@);
    proof {
        assert(overwrite(m0, ks.take(0).to_set(), value@) =~= m0);
    }
    let mut i: usize = 0;
    while i < keys.len()
        invariant
            i <= keys@.len(),
            ks == string_views(keys@),
            map@ == overwrite(m0, ks.take(i as int).to_set(), value@),
        decreases keys@.len() - i,
    {
        map.insert(keys[i].clone(), value.clone());
        proof {
            assert(ks.take(i + 1).to_set() =~= ks.take(i as int).to_set().insert(ks[i as int])) by {
                assert(ks.take(i + 1) =~= ks.take(i as int).push(ks[i as int]));
                ks.take(i as int).lemma_push_to_set_commute(ks[i as int]);
            }
            assert(map@ =~= overwrite(m0, ks.take(i + 1).to_set(), value@));
        }
        i = i + 1;
    }
    assert(ks.take(keys@.len() as int) =~= ks);
}

/// Names one spot pair whose tokens are known: `BASE/QUOTE`, its pair id,
/// `@n`, `n`, its asset id `10000 + n` and, for USDC quotes, `BASE-SPOT`;
/// names already mapped to an asset keep it.
fn process_spot_market(data: &mut MarketMetaStoreData, tokens: &Vec<TokenInfo>, market: &SpotAssetMeta)
    requires
        spot_market_fits(tokens@, *market),
    ensures
        final(data)@ == with_spot_market(old(data)@, tokens@, *market),
        final(data).same_outcomes(*old(data)),
{
    let b = match find_token(tokens, market.tokens[0]) {
        Some(b) => b,
        None => return,
    };
    let q = match find_token(tokens, market.tokens[1]) {
        Some(q) => q,
        None => return,
    };
    let base = &tokens[b];
    let quote = &tokens[q];
    let asset_id: u32 = 10000 + market.index as u32;
    let base_slash = concat_str(base.name.as_str(), "/");
    let symbol = concat_str(base_slash.as_str(), quote.name.as_str());
    let spot_pair_id = if trimmed(market.name.as_str()).is_empty() {
        normalize_spot_pair_id(usize_to_string(market.index).as_str())
    } else {
        normalize_spot_pair_id(market.name.as_str())
    };
    let numeric_pair_id = usize_to_string(market.index);
    let canonical_pair_id = concat_str("@", numeric_pair_id.as_str());
    let mut aliases: Vec<String> = Vec::new();
    aliases.push(symbol.clone());
    aliases.push(spot_pair_id.clone());
    aliases.push(canonical_pair_id.clone());
    aliases.push(numeric_pair_id.clone());
    aliases.push(u32_to_string(asset_id));
    let usdc_text = "USDC".to_owned();
    proof {
        reveal_strlit("USDC");
        reveal_strlit("/");
        reveal_strlit("@");
        reveal_strlit("-SPOT");
        assert("USDC"@ =~= usdc());
        assert("-SPOT"@ =~= spot_suffix());
        assert("/"@ =~= seq!['/']);
        assert("@"@ =~= seq!['@']);
        assert(symbol@ == spot_symbol(*base, *quote));
        assert(spot_pair_id@ == spot_pair_id_of(*market));
        assert(asset_id == spot_asset_id(*market));
    }
    if quote.name == usdc_text {
        aliases.push(concat_str(base.name.as_str(), "-SPOT"));
    }
    assert(string_views(aliases@) =~= spot_names(*base, *quote, *market));
    set_aliases(data, &aliases, asset_id, base.sz_decimals as u32, spot_pair_id.as_str(), true);
    let names = unique_names(&aliases);
    map_all_to(&mut data.symbol_to_spot_pair, &names, &spot_pair_id);
    proof {
        assert(string_views(names@).to_set() =~= unique_name_seq(spot_names(*base, *quote, *market)).to_set());
    }
    data.spot_pair_to_symbol.insert(spot_pair_id.clone(), symbol.clone());
    data.spot_pair_to_symbol.insert(canonical_pair_id, symbol.clone());
    data.spot_pair_to_symbol.insert(numeric_pair_id, symbol);
}

/// Names the spot pairs of `spot_meta` in order; a pair with an unknown
/// token is skipped.
fn process_spot_assets(data: &mut MarketMetaStoreData, spot_meta: &SpotMeta)
    requires
        spot_markets_fit(spot_meta.tokens@, spot_meta.universe@),
    ensures
        final(data)@ == with_spot_markets(old(data)@, spot_meta.tokens@, spot_meta.universe@),
        final(data).same_outcomes(*old(data)),
{
    let mut i: usize = 0;
    while i < spot_meta.universe.len()
        invariant
            i <= spot_meta.universe@.len(),
            spot_markets_fit(spot_meta.tokens@, spot_meta.universe@),
            data@ == with_spot_markets(old(data)@, spot_meta.tokens@, spot_meta.universe@.take(i as int)),
            data.same_outcomes(*old(data)),
        decreases spot_meta.universe@.len() - i,
    {
        proof {
            let u = spot_meta.universe@;
            assert(u.take(i + 1).drop_last() =~= u.take(i as int));
            assert(u.take(i + 1).last() == u[i as int]);
        }
        process_spot_market(data, &spot_meta.tokens, &spot_meta.universe[i]);
        i = i + 1;
    }
    assert(spot_meta.universe@.take(spot_meta.universe@.len() as int) =~= spot_meta.universe@);
}

/// Names the perpetuals of a builder DEX: with `C` the listed name without
/// a `dex:` prefix, `dex:C`, `dex:C-PERP`, the listed name, the listed name
/// with `-PERP`, `C` and `C-PERP` lead to asset id
/// `100000 + 10000 * perp_dex_index + index`, unless already mapped.
fn process_builder_dex(
    data: &mut MarketMetaStoreData,
    perp_dex_index: usize,
    dex_name: &str,
    dex_meta: &Meta,
)
    requires
        builder_dex_fits(perp_dex_index, dex_name@, *dex_meta),
    ensures
        final(data)@ == with_builder_dex(old(data)@, perp_dex_index, dex_name@, *dex_meta),
        final(data).same_outcomes(*old(data)),
{
    let normalized_dex = trimmed(dex_name);
    if normalized_dex.is_empty() {
        return;
    }
    let offset: u32 = 100000 + (perp_dex_index as u32) * 10000;
    let dex_prefix = concat_str(normalized_dex, ":");
    proof {
        reveal_strlit(":");
        reveal_strlit("-PERP");
        assert(":"@ =~= seq![':']);
        assert("-PERP"@ =~= perp_suffix());
        assert(offset == builder_offset(perp_dex_index));
    }
    let mut index: usize = 0;
    while index < dex_meta.universe.len()
        invariant
            index <= dex_meta.universe@.len(),
            normalized_dex@ == trim(dex_name@),
            dex_prefix@ == trim(dex_name@) + seq![':'],
            offset == builder_offset(perp_dex_index),
            builder_offset(perp_dex_index) + dex_meta.universe@.len() <= u32::MAX + 1,
            ":"@ =~= seq![':'],
            "-PERP"@ =~= perp_suffix(),
            data@ == with_builder_assets(
                old(data)@,
                trim(dex_name@),
                offset,
                dex_meta.universe@.take(index as int),
            ),
            data.same_outcomes(*old(data)),
        decreases dex_meta.universe@.len() - index,
    {
        let asset = &dex_meta.universe[index];
        let asset_id: u32 = offset + index as u32;
        let coin = match strip_prefix_str(asset.name.as_str(), dex_prefix.as_str()) {
            Some(c) => c,
            None => asset.name.as_str(),
        };
        let qualified = concat_str(dex_prefix.as_str(), coin);
        let mut aliases: Vec<String> = Vec::new();
        aliases.push(qualified.clone());
        aliases.push(concat_str(qualified.as_str(), "-PERP"));
        aliases.push(asset.name.clone());
        aliases.push(concat_str(asset.name.as_str(), "-PERP"));
        aliases.push(coin.to_owned());
        aliases.push(concat_str(coin, "-PERP"));
        proof {
            let dex = trim(dex_name@);
            assert(coin@ == builder_coin(dex, asset.name@));
            assert(qualified@ =~= qualified_name(dex, coin@));
            assert(string_views(aliases@) =~= builder_names(dex, asset.name@));
            let u = dex_meta.universe@;
            assert(u.take(index + 1).drop_last() =~= u.take(index as int));
            assert(u.take(index + 1).last() == u[index as int]);
        }
        set_aliases(data, &aliases, asset_id, asset.sz_decimals, qualified.as_str(), true);
        index = index + 1;
    }
    assert(dex_meta.universe@.take(dex_meta.universe@.len() as int) =~= dex_meta.universe@);
}

pub open spec fn mids_view(mids: Option<&StrMap<String>>) -> Option<Map<Seq<char>, Seq<char>>> {
    match mids {
        Some(m) => Some(m@),
        None => None,
    }
}

/// Rebuilds the outcome and question indexes from the outcome records.
pub fn rebuild_outcome_indexes(data: &mut MarketMetaStoreData)
    ensures
        final(data)@ == old(data)@,
        final(data).outcome_markets_by_coin == old(data).outcome_markets_by_coin,
        final(data).raw_outcome_meta == old(data).raw_outcome_meta,
        final(data).indexes_consistent(),
        keyed_by_coin(old(data)@.outcome_markets_by_coin) ==> distinct_encodings(final(data).market_records()),
{
    let mut records: Vec<OutcomeMarketRecord> = Vec::new();
    let n = data.outcome_markets_by_coin.len();
    proof {
        let m = data.outcome_markets_by_coin;
        if keyed_by_coin(m@) {
            let recs = data.market_records();
            assert forall|i: int, j: int| 0 <= i < j < recs.len() implies
                (#[trigger] recs[i]).encoding != (#[trigger] recs[j]).encoding by {
                assert(recs[i] == m.value_seq()[i]@ && recs[j] == m.value_seq()[j]@);
                assert(m@.contains_key(m.key_seq()[i]));
                assert(m@.contains_key(m.key_seq()[j]));
                assert(m.key_seq()[i] != m.key_seq()[j]);
            }
        }
    }
    let mut i: usize = 0;
    while i < n
        invariant
            i <= n,
            n == data.outcome_markets_by_coin.key_seq().len(),
            data.outcome_markets_by_coin.key_seq().len() == data.outcome_markets_by_coin.value_seq().len(),
            records@ == data.outcome_markets_by_coin.value_seq().take(i as int),
        decreases n - i,
    {
        let r = data.outcome_markets_by_coin.value_at(i).clone();
        records.push(r);
        assert(records@ =~= data.outcome_markets_by_coin.value_seq().take(i + 1));
        i = i + 1;
    }
    assert(records@ =~= data.outcome_markets_by_coin.value_seq());
    let (by_outcome, by_question) = build_indexes(&records);
    data.outcome_markets_by_outcome = by_outcome;
    data.outcome_markets_by_question = by_question;
}

/// Whether `x` is in `v`.
fn contains_u32(v: &Vec<u32>, x: u32) -> (r: bool)
    ensures
        r == v@.contains(x),
{
    let mut i: usize = 0;
    while i < v.len()
        invariant
            i <= v@.len(),
            forall|j: int| 0 <= j < i ==> v@[j] != x,
        decreases v@.len() - i,
    {
        if v[i] == x {
            return true;
        }
        i = i + 1;
    }
    false
}

/// The position of the first question that names outcome `o`.
fn question_for_outcome(questions: &Vec<OutcomeQuestion>, o: u32) -> (r: Option<usize>)
    ensures
        match r {
            Some(j) => j < questions@.len() && question_for(questions@, o) == Some(questions@[j as int]),
            None => question_for(questions@, o) is None,
        },
{
    let mut i: usize = 0;
    assert(questions@.skip(0) =~= questions@);
    while i < questions.len()
        invariant
            i <= questions@.len(),
            question_for(questions@, o) == question_for(questions@.skip(i as int), o),
        decreases questions@.len() - i,
    {
        let q = &questions[i];
        assert(questions@.skip(i as int)[0] == *q);
        assert(questions@.skip(i as int).drop_first() =~= questions@.skip(i + 1));
        if q.fallback_outcome == o || contains_u32(&q.named_outcomes, o) || contains_u32(
            &q.settled_named_outcomes,
            o,
        ) {
            return Some(i);
        }
        i = i + 1;
    }
    None
}

/// Indexes side `side_index` of an outcome: its coin `#e`, token `+e` and
/// asset id name the asset, every alias of the coin leads to the coin, and
/// its record is stored; an encoding without an asset id is skipped.
fn process_outcome_side(
    data: &mut MarketMetaStoreData,
    outcome: &OutcomeMetaOutcome,
    side_index: usize,
    questions: &Vec<OutcomeQuestion>,
    all_mids: Option<&StrMap<String>>,
)
    requires
        side_index < outcome.side_specs@.len(),
        side_index < 2,
    ensures
        final(data)@ == with_outcome_side(
            old(data)@,
            *outcome,
            side_index as u32,
            questions@,
            mids_view(all_mids),
        ),
        final(data).same_indexes(*old(data)),
{
    let side = &outcome.side_specs[side_index];
    let side_u32 = side_index as u32;
    let tens = match outcome.outcome.checked_mul(10) {
        Some(t) => t,
        None => 0xffff_ffff,
    };
    let encoding = tens.saturating_add(side_u32);
    assert(encoding == side_encoding(outcome.outcome, side_u32));
    let asset_id = match outcome_asset_id_from_encoding(encoding) {
        Some(a) => a,
        None => return,
    };
    let digits = u32_to_string(encoding);
    let coin = concat_str("#", digits.as_str());
    let token = concat_str("+", digits.as_str());
    proof {
        reveal_strlit("#");
        reveal_strlit("+");
        assert("#"@ =~= seq!['#']);
        assert("+"@ =~= seq!['+']);
        assert(coin@ == coin_name(encoding));
        assert(token@ == token_name(encoding));
    }
    let (question_id, question_name, fallback_outcome, is_settled) = match question_for_outcome(
        questions,
        outcome.outcome,
    ) {
        Some(j) => {
            let q = &questions[j];
            (
                Some(q.question),
                Some(q.name.clone()),
                Some(q.fallback_outcome),
                contains_u32(&q.settled_named_outcomes, outcome.outcome),
            )
        },
        None => (None, None, None, false),
    };
    let mid = match all_mids {
        Some(m) => match m.get(coin.as_str()) {
            Some(v) => Some(v.clone()),
            None => None,
        },
        None => None,
    };
    let record = OutcomeMarketRecord {
        coin: coin.clone(),
        encoding,
        token_name: token.clone(),
        asset_id,
        outcome_id: outcome.outcome,
        side_index: side_u32,
        side_name: side.name.clone(),
        outcome_name: outcome.name.clone(),
        outcome_description: outcome.description.clone(),
        question_id,
        question_name,
        fallback_outcome,
        is_settled,
        mid,
    };
    assert(record@ == outcome_record(*outcome, side_u32, questions@, mids_view(all_mids)));
    data.coin_to_asset.insert(coin.clone(), asset_id);
    data.coin_to_asset.insert(token, asset_id);
    data.coin_to_asset.insert(u32_to_string(asset_id), asset_id);
    let aliases = outcome_alias_candidates(coin.as_str());
    map_all_to(&mut data.outcome_alias_to_coin, &aliases, &coin);
    data.outcome_markets_by_coin.insert(coin, record);
}

/// Indexes the first two sides of an outcome.
fn process_outcome(
    data: &mut MarketMetaStoreData,
    outcome: &OutcomeMetaOutcome,
    questions: &Vec<OutcomeQuestion>,
    all_mids: Option<&StrMap<String>>,
)
    ensures
        final(data)@ == with_outcome_sides(
            old(data)@,
            *outcome,
            indexed_sides(*outcome),
            questions@,
            mids_view(all_mids),
        ),
        final(data).same_indexes(*old(data)),
{
    let mut side_index: usize = 0;
    while side_index < outcome.side_specs.len() && side_index < 2
        invariant
            side_index <= indexed_sides(*outcome),
            data@ == with_outcome_sides(
                old(data)@,
                *outcome,
                side_index as nat,
                questions@,
                mids_view(all_mids),
            ),
            data.same_indexes(*old(data)),
        decreases 2 - side_index,
    {
        process_outcome_side(data, outcome, side_index, questions, all_mids);
        side_index = side_index + 1;
    }
}

/// Indexes the outcomes of `outcome_meta`, keeps the response, and
/// rebuilds the outcome and question indexes.
fn process_outcomes(
    data: &mut MarketMetaStoreData,
    outcome_meta: OutcomeMetaResponse,
    all_mids: Option<&StrMap<String>>,
)
    ensures
        final(data)@ == with_outcomes(
            old(data)@,
            outcome_meta.outcomes@,
            outcome_meta.questions@,
            mids_view(all_mids),
        ),
        final(data).raw_outcome_meta == Some(outcome_meta),
        final(data).indexes_consistent(),
        keyed_by_coin(old(data)@.outcome_markets_by_coin) ==> keyed_by_coin(final(data)@.outcome_markets_by_coin)
            && distinct_encodings(final(data).market_records()),
{
    let mut i: usize = 0;
    while i < outcome_meta.outcomes.len()
        invariant
            i <= outcome_meta.outcomes@.len(),
            data@ == with_outcomes(
                old(data)@,
                outcome_meta.outcomes@.take(i as int),
                outcome_meta.questions@,
                mids_view(all_mids),
            ),
        decreases outcome_meta.outcomes@.len() - i,
    {
        proof {
            let u = outcome_meta.outcomes@;
            assert(u.take(i + 1).drop_last() =~= u.take(i as int));
            assert(u.take(i + 1).last() == u[i as int]);
        }
        process_outcome(data, &outcome_meta.outcomes[i], &outcome_meta.questions, all_mids);
        i = i + 1;
    }
    assert(outcome_meta.outcomes@.take(outcome_meta.outcomes@.len() as int) =~= outcome_meta.outcomes@);
    proof {
        if keyed_by_coin(old(data)@.outcome_markets_by_coin) {
            lemma_outcomes_keyed_by_coin(
                old(data)@,
                outcome_meta.outcomes@,
                outcome_meta.questions@,
                mids_view(all_mids),
            );
        }
    }
    data.raw_outcome_meta = Some(outcome_meta);
    rebuild_outcome_indexes(data);
}

/// The coin that `value` names through the alias table: the coin of the
/// first alias candidate of `value` found in `table`.
fn resolve_coin(table: &StrMap<String>, value: &str) -> (r: Option<String>)
    ensures
        opt_str_view(r) == resolve_alias(table@, value@),
{
    let candidates = outcome_alias_candidates(value);
    let ghost cs = string_views(candidates@);
    assert(cs.skip(0) =~= cs);
    let mut i: usize = 0;
    while i < candidates.len()
        invariant
            i <= candidates@.len(),
            cs == string_views(candidates@),
            cs == alias_candidates(value@),
            first_alias_hit(cs, table@) == first_alias_hit(cs.skip(i as int), table@),
        decreases candidates@.len() - i,
    {
        assert(cs.skip(i as int)[0] == candidates@[i as int]@);
        assert(cs.skip(i as int).drop_first() =~= cs.skip(i + 1));
        match table.get(candidates[i].as_str()) {
            Some(c) => {
                return Some(c.clone());
            },
            None => {},
        }
        i = i + 1;
    }
    assert(cs.skip(candidates@.len() as int) =~= Seq::<Seq<char>>::empty());
    None
}

/// Gives every outcome market that a key of `mids` resolves to the mid of
/// that key, key by key, and rebuilds the indexes.
fn apply_outcome_mids(data: &mut MarketMetaStoreData, mids: &StrMap<String>)
    ensures
        final(data)@ == (DataModel {
            outcome_markets_by_coin: with_mids(
                old(data)@.outcome_markets_by_coin,
                old(data)@.outcome_alias_to_coin,
                mids.key_seq(),
                string_views(mids.value_seq()),
            ),
            ..old(data)@
        }),
        final(data).raw_outcome_meta == old(data).raw_outcome_meta,
        final(data).indexes_consistent(),
        keyed_by_coin(old(data)@.outcome_markets_by_coin) ==> keyed_by_coin(final(data)@.outcome_markets_by_coin)
            && distinct_encodings(final(data).market_records()),
{
    proof {
        if keyed_by_coin(old(data)@.outcome_markets_by_coin) {
            lemma_mids_keyed_by_coin(
                old(data)@.outcome_markets_by_coin,
                old(data)@.outcome_alias_to_coin,
                mids.key_seq(),
                string_views(mids.value_seq()),
            );
        }
    }
    let ghost d0 = data@;
    let ghost vs = string_views(mids.value_seq());
    let n = mids.len();
    let mut i: usize = 0;
    assert(mids.key_seq().take(0) =~= Seq::<Seq<char>>::empty());
    while i < n
        invariant
            i <= n,
            n == mids.key_seq().len(),
            n == mids.value_seq().len(),
            vs == string_views(mids.value_seq()),
            data@ == (DataModel {
                outcome_markets_by_coin: with_mids(
                    d0.outcome_markets_by_coin,
                    d0.outcome_alias_to_coin,
                    mids.key_seq().take(i as int),
                    vs,
                ),
                ..d0
            }),
            data.raw_outcome_meta == old(data).raw_outcome_meta,
        decreases n - i,
    {
        let coin = mids.key_at(i);
        let mid = mids.value_at(i);
        proof {
            let ks = mids.key_seq();
            assert(ks.take(i + 1).drop_last() =~= ks.take(i as int));
            assert(ks.take(i + 1)[i as int] == coin@);
            assert(vs[i as int] == mid@);
        }
        match resolve_coin(&data.outcome_alias_to_coin, coin.as_str()) {
            Some(c) => {
                match data.outcome_markets_by_coin.get(c.as_str()) {
                    Some(record) => {
                        let mut updated = record.clone();
                        updated.mid = Some(mid.clone());
                        data.outcome_markets_by_coin.insert(c, updated);
                    },
                    None => {},
                }
            },
            None => {},
        }
        i = i + 1;
    }
    assert(mids.key_seq().take(n as int) =~= mids.key_seq());
    rebuild_outcome_indexes(data);
}

/// The value of `k` in `m`, if any.
pub open spec fn lookup<V>(m: Map<Seq<char>, V>, k: Seq<char>) -> Option<V> {
    if m.contains_key(k) {
        Some(m[k])
    } else {
        None
    }
}

/// The value of `k` in `m`, or else of the normal spot pair id of `k`.
pub open spec fn lookup_or_normalized(m: Map<Seq<char>, Seq<char>>, k: Seq<char>) -> Option<Seq<char>> {
    match lookup(m, k) {
        Some(v) => Some(v),
        None => lookup(m, normal_spot_pair_id(k)),
    }
}

/// The outcome market record that `value` names through the alias table.
pub open spec fn resolved_market(d: DataModel, value: Seq<char>) -> Option<OutcomeMarketRecordView> {
    match resolve_alias(d.outcome_alias_to_coin, value) {
        Some(c) => lookup(d.outcome_markets_by_coin, c),
        None => None,
    }
}

pub open spec fn opt_record_view(r: Option<OutcomeMarketRecord>) -> Option<OutcomeMarketRecordView> {
    match r {
        Some(rec) => Some(rec@),
        None => None,
    }
}

/// The tables built from the main-DEX perpetuals, the spot pairs and the
/// builder DEXs, in that order.
pub open spec fn built_model(
    meta: Meta,
    spot_meta: SpotMeta,
    builder_metas: Seq<(usize, String, Meta)>,
) -> DataModel {
    with_builder_dexs(
        with_spot_markets(
            with_default_perps(empty_model(), meta.universe@),
            spot_meta.tokens@,
            spot_meta.universe@,
        ),
        builder_metas,
    )
}

/// Every asset id that building computes fits in a `u32`.
pub open spec fn build_fits(spot_meta: SpotMeta, builder_metas: Seq<(usize, String, Meta)>) -> bool {
    spot_markets_fit(spot_meta.tokens@, spot_meta.universe@) && builder_dexs_fit(builder_metas)
}

/// A span of time between refreshes: whole seconds and the nanoseconds
/// beyond them.
#[derive(Debug, Clone, Copy)]
pub struct RefreshInterval {
    secs: u64,
    nanos: u32,
}

impl RefreshInterval {
    #[verifier::type_invariant]
    spec fn nanos_below_a_second(self) -> bool {
        self.nanos < 1_000_000_000
    }

    /// The whole seconds and the nanoseconds beyond them.
    pub closed spec fn parts(self) -> (u64, u32) {
        (self.secs, self.nanos)
    }

    /// `secs` seconds and `nanos` nanoseconds; whole seconds in `nanos`
    /// carry into the seconds.
    pub fn new(secs: u64, nanos: u32) -> (r: Self)
        requires
            secs + nanos / 1_000_000_000 <= u64::MAX,
        ensures
            r.parts() == ((secs + nanos / 1_000_000_000) as u64, (nanos % 1_000_000_000) as u32),
    {
        RefreshInterval { secs: secs + (nanos / 1_000_000_000) as u64, nanos: nanos % 1_000_000_000 }
    }

    /// `secs` whole seconds.
    pub fn from_secs(secs: u64) -> (r: Self)
        ensures
            r.parts() == (secs, 0u32),
    {
        RefreshInterval { secs, nanos: 0 }
    }

    /// `millis` milliseconds.
    pub fn from_millis(millis: u64) -> (r: Self)
        ensures
            r.parts() == ((millis / 1000) as u64, ((millis % 1000) * 1_000_000) as u32),
    {
        RefreshInterval { secs: millis / 1000, nanos: ((millis % 1000) as u32) * 1_000_000 }
    }

    /// The whole seconds.
    pub fn as_secs(&self) -> (r: u64)
        ensures
            r == self.parts().0,
    {
        self.secs
    }

    /// The nanoseconds beyond the whole seconds, below one second.
    pub fn subsec_nanos(&self) -> (r: u32)
        ensures
            r == self.parts().1,
            r < 1_000_000_000,
    {
        proof {
            use_type_invariant(self);
        }
        self.nanos
    }

    /// Whether the interval is empty.
    pub fn is_zero(&self) -> (r: bool)
        ensures
            r == (self.parts() == (0u64, 0u32)),
    {
        self.secs == 0 && self.nanos == 0
    }
}

/// What a store fetches and how it refreshes.
#[derive(Debug, Clone)]
pub struct MarketMetaStoreOptions {
    pub dexs: MarketMetaStoreDexs,
    pub outcomes: bool,
    pub auto_refresh: bool,
    pub refresh_interval: RefreshInterval,
}

impl Default for MarketMetaStoreOptions {
    /// No builder DEXs, no outcomes, no automatic refresh, a one-minute
    /// refresh interval.
    fn default() -> (r: Self)
        ensures
            r.dexs is NoBuilderDexs,
            !r.outcomes,
            !r.auto_refresh,
            r.refresh_interval.parts() == (60u64, 0u32),
    {
        MarketMetaStoreOptions {
            dexs: MarketMetaStoreDexs::default(),
            outcomes: false,
            auto_refresh: false,
            refresh_interval: RefreshInterval::from_secs(60),
        }
    }
}

/// A market metadata store: its tables, where they come from, and whether
/// they refresh themselves.
#[derive(Debug)]
pub struct MarketMetaStore {
    base_url: BaseUrl,
    options: MarketMetaStoreOptions,
    data: MarketMetaStoreData,
    auto_refresh_enabled: bool,
}

impl MarketMetaStore {
    pub closed spec fn data(self) -> MarketMetaStoreData {
        self.data
    }

    pub closed spec fn network(self) -> BaseUrl {
        self.base_url
    }

    pub closed spec fn settings(self) -> MarketMetaStoreOptions {
        self.options
    }

    pub closed spec fn refreshing(self) -> bool {
        self.auto_refresh_enabled
    }

    /// An empty store of `base_url` (mainnet when absent) with `options`
    /// (the defaults when absent).
    pub fn new(base_url: Option<BaseUrl>, options: Option<MarketMetaStoreOptions>) -> (r: Self)
        ensures
            r.network() == (match base_url {
                Some(b) => b,
                None => BaseUrl::Mainnet,
            }),
            options matches Some(o) ==> r.settings() == o,
            options is None ==> r.settings().dexs is NoBuilderDexs && !r.settings().outcomes
                && !r.settings().auto_refresh && r.settings().refresh_interval.parts() == (60u64, 0u32),
            r.data()@ == empty_model(),
            r.data().market_records() == Seq::<OutcomeMarketRecordView>::empty(),
            r.data().indexes_consistent(),
            !r.refreshing(),
    {
        let base_url = match base_url {
            Some(b) => b,
            None => BaseUrl::Mainnet,
        };
        let options = match options {
            Some(o) => o,
            None => MarketMetaStoreOptions::default(),
        };
        MarketMetaStore {
            base_url,
            options,
            data: MarketMetaStoreData::default(),
            auto_refresh_enabled: false,
        }
    }

    /// A mainnet store with default options holding `data`.
    pub fn from_data(data: MarketMetaStoreData) -> (r: Self)
        ensures
            r.data() == data,
            r.network() == BaseUrl::Mainnet,
            r.settings().dexs is NoBuilderDexs && !r.settings().outcomes && !r.settings().auto_refresh
                && r.settings().refresh_interval.parts() == (60u64, 0u32),
            !r.refreshing(),
    {
        MarketMetaStore {
            base_url: BaseUrl::Mainnet,
            options: MarketMetaStoreOptions::default(),
            data,
            auto_refresh_enabled: false,
        }
    }

    /// The tables for `meta`, `spot_meta` and the builder DEXs, without
    /// outcomes.
    pub fn build_data(
        meta: &Meta,
        spot_meta: &SpotMeta,
        builder_metas: &[(usize, String, Meta)],
    ) -> (r: MarketMetaStoreData)
        requires
            build_fits(*spot_meta, builder_metas@),
        ensures
            r@ == built_model(*meta, *spot_meta, builder_metas@),
            r.raw_outcome_meta is None,
            r.market_records() == Seq::<OutcomeMarketRecordView>::empty(),
            r.outcome_markets_by_coin@ == Map::<Seq<char>, OutcomeMarketRecordView>::empty(),
            r.outcome_alias_to_coin@ == Map::<Seq<char>, Seq<char>>::empty(),
            index_view(r.outcome_markets_by_outcome) == Map::<u32, Seq<OutcomeMarketRecordView>>::empty(),
            index_view(r.outcome_markets_by_question) == Map::<u32, Seq<OutcomeMarketRecordView>>::empty(),
            r.indexes_consistent(),
            keyed_by_coin(r@.outcome_markets_by_coin),
            distinct_encodings(r.market_records()),
    {
        Self::build_data_with_outcomes(meta, spot_meta, builder_metas, None, None)
    }

    /// The tables for `meta`, `spot_meta`, the builder DEXs and, when
    /// given, the outcomes, whose records take their mid from `all_mids`.
    pub fn build_data_with_outcomes(
        meta: &Meta,
        spot_meta: &SpotMeta,
        builder_metas: &[(usize, String, Meta)],
        outcome_meta: Option<OutcomeMetaResponse>,
        all_mids: Option<&StrMap<String>>,
    ) -> (r: MarketMetaStoreData)
        requires
            build_fits(*spot_meta, builder_metas@),
        ensures
            r@ == (match outcome_meta {
                Some(om) => with_outcomes(
                    built_model(*meta, *spot_meta, builder_metas@),
                    om.outcomes@,
                    om.questions@,
                    mids_view(all_mids),
                ),
                None => built_model(*meta, *spot_meta, builder_metas@),
            }),
            r.raw_outcome_meta == outcome_meta,
            outcome_meta is None ==> {
                &&& r.market_records() == Seq::<OutcomeMarketRecordView>::empty()
                &&& r.outcome_markets_by_coin@ == Map::<Seq<char>, OutcomeMarketRecordView>::empty()
                &&& r.outcome_alias_to_coin@ == Map::<Seq<char>, Seq<char>>::empty()
                &&& index_view(r.outcome_markets_by_outcome) == Map::<u32, Seq<OutcomeMarketRecordView>>::empty()
                &&& index_view(r.outcome_markets_by_question) == Map::<u32, Seq<OutcomeMarketRecordView>>::empty()
            },
            r.indexes_consistent(),
            keyed_by_coin(r@.outcome_markets_by_coin),
            distinct_encodings(r.market_records()),
    {
        let mut data = MarketMetaStoreData::default();
        process_default_perps(&mut data, meta);
        process_spot_assets(&mut data, spot_meta);
        let mut i: usize = 0;
        while i < builder_metas.len()
            invariant
                i <= builder_metas@.len(),
                builder_dexs_fit(builder_metas@),
                data@ == with_builder_dexs(
                    with_spot_markets(
                        with_default_perps(empty_model(), meta.universe@),
                        spot_meta.tokens@,
                        spot_meta.universe@,
                    ),
                    builder_metas@.take(i as int),
                ),
                data.raw_outcome_meta is None,
                data.market_records() == Seq::<OutcomeMarketRecordView>::empty(),
                data@.outcome_markets_by_coin == Map::<Seq<char>, OutcomeMarketRecordView>::empty(),
                data.indexes_consistent(),
            decreases builder_metas@.len() - i,
        {
            proof {
                let b = builder_metas@;
                assert(b.take(i + 1).drop_last() =~= b.take(i as int));
                assert(b.take(i + 1).last() == b[i as int]);
            }
            let (perp_dex_index, dex_name, dex_meta) = &builder_metas[i];
            process_builder_dex(&mut data, *perp_dex_index, dex_name.as_str(), dex_meta);
            i = i + 1;
        }
        assert(builder_metas@.take(builder_metas@.len() as int) =~= builder_metas@);
        match outcome_meta {
            Some(om) => process_outcomes(&mut data, om, all_mids),
            None => {
                proof {
                    crate::outcome_laws::lemma_built_has_no_outcomes(*meta, *spot_meta, builder_metas@);
                    assert(index_view(data.outcome_markets_by_outcome) =~= Map::empty());
                    assert(index_view(data.outcome_markets_by_question) =~= Map::empty());
                }
            },
        }
        data
    }

    /// Whether every asset id that building from these inputs computes
    /// fits in a `u32`.
    pub fn build_inputs_fit(spot_meta: &SpotMeta, builder_metas: &[(usize, String, Meta)]) -> (r: bool)
        ensures
            r == build_fits(*spot_meta, builder_metas@),
    {
        let mut i: usize = 0;
        while i < spot_meta.universe.len()
            invariant
                i <= spot_meta.universe@.len(),
                forall|j: int| 0 <= j < i ==> spot_market_fits(spot_meta.tokens@, #[trigger] spot_meta.universe@[j]),
            decreases spot_meta.universe@.len() - i,
        {
            let market = &spot_meta.universe[i];
            let known = find_token(&spot_meta.tokens, market.tokens[0]).is_some()
                && find_token(&spot_meta.tokens, market.tokens[1]).is_some();
            if known && (market.index as u32) as u64 + 10000 > 0xffff_ffff {
                assert(!spot_market_fits(spot_meta.tokens@, spot_meta.universe@[i as int]));
                return false;
            }
            i = i + 1;
        }
        let mut k: usize = 0;
        while k < builder_metas.len()
            invariant
                k <= builder_metas@.len(),
                spot_markets_fit(spot_meta.tokens@, spot_meta.universe@),
                forall|j: int|
                    0 <= j < k ==> builder_dex_fits(
                        (#[trigger] builder_metas@[j]).0,
                        builder_metas@[j].1@,
                        builder_metas@[j].2,
                    ),
            decreases builder_metas@.len() - k,
        {
            let (perp_dex_index, dex_name, dex_meta) = &builder_metas[k];
            if !trimmed(dex_name.as_str()).is_empty() {
                let offset: u64 = 100000 + ((*perp_dex_index as u32) as u64) * 10000;
                if offset > 0xffff_ffff || (dex_meta.universe.len() as u64) > 0x1_0000_0000 - offset {
                    assert(!builder_dex_fits(builder_metas@[k as int].0, builder_metas@[k as int].1@, builder_metas@[k as int].2));
                    return false;
                }
            }
            k = k + 1;
        }
        true
    }

    /// Marks the store as refreshing itself, every `refresh_interval`.
    /// `runtime_error` is `None` when an async runtime is current to run the
    /// refresh task, and otherwise the runtime's reason why none is. An
    /// empty interval is refused and changes nothing; with no runtime the
    /// store stops refreshing and reports the reason.
    pub fn start_auto_refresh(&mut self, runtime_error: Option<String>) -> (r: Result<(), Error>)
        ensures
            old(self).settings().refresh_interval.parts() == (0u64, 0u32) ==> {
                &&& r matches Err(Error::GenericRequest(m)) && m@ == "Refresh interval must be greater than zero"@
                &&& final(self).refreshing() == old(self).refreshing()
            },
            old(self).settings().refresh_interval.parts() != (0u64, 0u32) ==> match runtime_error {
                Some(e) => {
                    &&& r matches Err(Error::GenericRequest(m)) && m@ == "Tokio runtime required for auto refresh: "@ + e@
                    &&& !final(self).refreshing()
                },
                None => r is Ok && final(self).refreshing(),
            },
            final(self).data() == old(self).data(),
            final(self).settings() == old(self).settings(),
            final(self).network() == old(self).network(),
    {
        if self.options.refresh_interval.is_zero() {
            return Err(Error::GenericRequest("Refresh interval must be greater than zero".to_owned()));
        }
        self.stop_auto_refresh();
        match runtime_error {
            Some(e) => {
                let m = concat_str("Tokio runtime required for auto refresh: ", e.as_str());
                Err(Error::GenericRequest(m))
            },
            None => {
                self.auto_refresh_enabled = true;
                Ok(())
            },
        }
    }

    /// Marks the store as no longer refreshing itself.
    pub fn stop_auto_refresh(&mut self)
        ensures
            !final(self).refreshing(),
            final(self).data() == old(self).data(),
            final(self).settings() == old(self).settings(),
            final(self).network() == old(self).network(),
    {
        self.auto_refresh_enabled = false;
    }

    /// Whether the store refreshes itself.
    pub fn is_auto_refresh_enabled(&self) -> (r: bool)
        ensures
            r == self.refreshing(),
    {
        self.auto_refresh_enabled
    }

    /// The network the store fetches from.
    pub fn base_url(&self) -> (r: BaseUrl)
        ensures
            r == self.network(),
    {
        self.base_url
    }

    /// The options of the store.
    pub fn options(&self) -> (r: &MarketMetaStoreOptions)
        ensures
            *r == self.settings(),
    {
        &self.options
    }

    /// Replaces all tables at once.
    pub fn replace_data(&mut self, data: MarketMetaStoreData) -> (r: Result<(), Error>)
        ensures
            r is Ok,
            final(self).data() == data,
            final(self).settings() == old(self).settings(),
            final(self).network() == old(self).network(),
            final(self).refreshing() == old(self).refreshing(),
    {
        self.data = data;
        Ok(())
    }

    /// A copy of the tables.
    pub fn snapshot(&self) -> (r: MarketMetaStoreData)
        ensures
            r@ == self.data()@,
            r.market_records() == self.data().market_records(),
            index_view(r.outcome_markets_by_outcome) == index_view(self.data().outcome_markets_by_outcome),
            index_view(r.outcome_markets_by_question) == index_view(self.data().outcome_markets_by_question),
            opt_outcome_meta_view(r.raw_outcome_meta) == opt_outcome_meta_view(self.data().raw_outcome_meta),
    {
        self.data.clone()
    }

    /// A copy of the table from names to asset ids.
    pub fn coin_to_asset(&self) -> (r: StrMap<u32>)
        ensures
            r@ == self.data()@.coin_to_asset,
            r.key_seq() == self.data().coin_to_asset.key_seq(),
    {
        let r = self.data.coin_to_asset.clone();
        proof {
            assert(r.value_seq() =~= self.data.coin_to_asset.value_seq());
            StrMap::lemma_same_entries(r, self.data.coin_to_asset);
        }
        r
    }

    /// A copy of the table from names to size decimals.
    pub fn coin_to_sz_decimals(&self) -> (r: StrMap<u32>)
        ensures
            r@ == self.data()@.coin_to_sz_decimals,
            r.key_seq() == self.data().coin_to_sz_decimals.key_seq(),
    {
        let r = self.data.coin_to_sz_decimals.clone();
        proof {
            assert(r.value_seq() =~= self.data.coin_to_sz_decimals.value_seq());
            StrMap::lemma_same_entries(r, self.data.coin_to_sz_decimals);
        }
        r
    }

    /// The asset id of `symbol`: from the table, or else read as an outcome
    /// identifier.
    pub fn asset_id(&self, symbol: &str) -> (r: Option<u32>)
        ensures
            r == (match lookup(self.data()@.coin_to_asset, symbol@) {
                Some(a) => Some(a),
                None => identifier_asset_id(symbol@),
            }),
    {
        match self.data.coin_to_asset.get(symbol) {
            Some(a) => Some(*a),
            None => resolve_outcome_asset_id_from_identifier(symbol),
        }
    }

    /// The size decimals of `symbol`.
    pub fn sz_decimals(&self, symbol: &str) -> (r: Option<u32>)
        ensures
            r == lookup(self.data()@.coin_to_sz_decimals, symbol@),
    {
        match self.data.coin_to_sz_decimals.get(symbol) {
            Some(d) => Some(*d),
            None => None,
        }
    }

    /// The spot pair id of `symbol`, looked up as given and then in normal
    /// form.
    pub fn spot_pair_id(&self, symbol: &str) -> (r: Option<String>)
        ensures
            opt_str_view(r) == lookup_or_normalized(self.data()@.symbol_to_spot_pair, symbol@),
    {
        let normalized = normalize_spot_pair_id(symbol);
        match self.data.symbol_to_spot_pair.get(symbol) {
            Some(p) => Some(p.clone()),
            None => match self.data.symbol_to_spot_pair.get(normalized.as_str()) {
                Some(p) => Some(p.clone()),
                None => None,
            },
        }
    }

    /// The symbol of a spot pair id, in normal form.
    pub fn symbol_by_spot_pair_id(&self, pair_id: &str) -> (r: Option<String>)
        ensures
            opt_str_view(r) == lookup(self.data()@.spot_pair_to_symbol, normal_spot_pair_id(pair_id@)),
    {
        let normalized = normalize_spot_pair_id(pair_id);
        match self.data.spot_pair_to_symbol.get(normalized.as_str()) {
            Some(s) => Some(s.clone()),
            None => None,
        }
    }

    /// The key under which the mid of `symbol` is published, looked up as
    /// given and then in normal form.
    pub fn mid_key(&self, symbol: &str) -> (r: Option<String>)
        ensures
            opt_str_view(r) == lookup_or_normalized(self.data()@.mid_key_by_symbol, symbol@),
    {
        let normalized = normalize_spot_pair_id(symbol);
        match self.data.mid_key_by_symbol.get(symbol) {
            Some(k) => Some(k.clone()),
            None => match self.data.mid_key_by_symbol.get(normalized.as_str()) {
                Some(k) => Some(k.clone()),
                None => None,
            },
        }
    }

    /// Sets the mids of the outcome markets that the keys of `mids` name.
    pub fn apply_all_mids(&mut self, mids: &StrMap<String>) -> (r: Result<(), Error>)
        ensures
            r is Ok,
            final(self).data()@ == (DataModel {
                outcome_markets_by_coin: with_mids(
                    old(self).data()@.outcome_markets_by_coin,
                    old(self).data()@.outcome_alias_to_coin,
                    mids.key_seq(),
                    string_views(mids.value_seq()),
                ),
                ..old(self).data()@
            }),
            final(self).data().raw_outcome_meta == old(self).data().raw_outcome_meta,
            final(self).data().indexes_consistent(),
            keyed_by_coin(old(self).data()@.outcome_markets_by_coin) ==> keyed_by_coin(
                final(self).data()@.outcome_markets_by_coin,
            ) && distinct_encodings(final(self).data().market_records()),
            final(self).settings() == old(self).settings(),
            final(self).network() == old(self).network(),
            final(self).refreshing() == old(self).refreshing(),
    {
        apply_outcome_mids(&mut self.data, mids);
        Ok(())
    }

    /// The outcome market that `coin_or_id` names (`#20`, `+20`, `20` or
    /// `100000020`).
    pub fn resolve_outcome_market(&self, coin_or_id: &str) -> (r: Option<OutcomeMarketRecord>)
        ensures
            opt_record_view(r) == resolved_market(self.data()@, coin_or_id@),
    {
        match resolve_coin(&self.data.outcome_alias_to_coin, coin_or_id) {
            Some(c) => match self.data.outcome_markets_by_coin.get(c.as_str()) {
                Some(rec) => Some(rec.clone()),
                None => None,
            },
            None => None,
        }
    }

    /// All outcome markets, in the order of their coins.
    pub fn outcome_markets(&self) -> (r: Vec<OutcomeMarketRecord>)
        ensures
            record_views(r@) == self.data().market_records(),
    {
        let n = self.data.outcome_markets_by_coin.len();
        let mut out: Vec<OutcomeMarketRecord> = Vec::new();
        let mut i: usize = 0;
        while i < n
            invariant
                i <= n,
                n == self.data.outcome_markets_by_coin.value_seq().len(),
                n == self.data.outcome_markets_by_coin.key_seq().len(),
                out@ == self.data.outcome_markets_by_coin.value_seq().take(i as int),
            decreases n - i,
        {
            out.push(self.data.outcome_markets_by_coin.value_at(i).clone());
            assert(out@ =~= self.data.outcome_markets_by_coin.value_seq().take(i + 1));
            i = i + 1;
        }
        assert(out@ =~= self.data.outcome_markets_by_coin.value_seq());
        out
    }

    /// The markets of outcome `outcome_id`, as indexed.
    pub fn outcome_markets_by_outcome(&self, outcome_id: u32) -> (r: Vec<OutcomeMarketRecord>)
        ensures
            record_views(r@) == (if index_view(self.data().outcome_markets_by_outcome).contains_key(outcome_id) {
                index_view(self.data().outcome_markets_by_outcome)[outcome_id]
            } else {
                Seq::<OutcomeMarketRecordView>::empty()
            }),
    {
        match self.data.outcome_markets_by_outcome.get(&outcome_id) {
            Some(v) => {
                let r = v.clone();
                assert(record_views(r@) =~= record_views(v@));
                r
            },
            None => {
                let r: Vec<OutcomeMarketRecord> = Vec::new();
                assert(record_views(r@) =~= Seq::<OutcomeMarketRecordView>::empty());
                r
            },
        }
    }

    /// The markets of question `question_id`, as indexed.
    pub fn outcome_markets_by_question(&self, question_id: u32) -> (r: Vec<OutcomeMarketRecord>)
        ensures
            record_views(r@) == (if index_view(self.data().outcome_markets_by_question).contains_key(question_id) {
                index_view(self.data().outcome_markets_by_question)[question_id]
            } else {
                Seq::<OutcomeMarketRecordView>::empty()
            }),
    {
        match self.data.outcome_markets_by_question.get(&question_id) {
            Some(v) => {
                let r = v.clone();
                assert(record_views(r@) =~= record_views(v@));
                r
            },
            None => {
                let r: Vec<OutcomeMarketRecord> = Vec::new();
                assert(record_views(r@) =~= Seq::<OutcomeMarketRecordView>::empty());
                r
            },
        }
    }

    /// The asset id of the outcome market that `coin_or_id` names, or else
    /// the asset id that it denotes as an identifier.
    pub fn outcome_asset_id(&self, coin_or_id: &str) -> (r: Option<u32>)
        ensures
            r == (match resolved_market(self.data()@, coin_or_id@) {
                Some(rec) => Some(rec.asset_id),
                None => identifier_asset_id(coin_or_id@),
            }),
    {
        match self.resolve_outcome_market(coin_or_id) {
            Some(rec) => Some(rec.asset_id),
            None => resolve_outcome_asset_id_from_identifier(coin_or_id),
        }
    }

    /// The token name of the outcome market that `coin_or_id` names, or
    /// else `+e` for the encoding `e` that it denotes.
    pub fn outcome_token_name(&self, coin_or_id: &str) -> (r: Option<String>)
        ensures
            opt_str_view(r) == (match resolved_market(self.data()@, coin_or_id@) {
                Some(rec) => Some(rec.token_name),
                None => match identifier_encoding(coin_or_id@) {
                    Some(e) => Some(token_name(e)),
                    None => None,
                },
            }),
    {
        match self.resolve_outcome_market(coin_or_id) {
            Some(rec) => Some(rec.token_name),
            None => match outcome_encoding_from_identifier(coin_or_id) {
                Some(e) => {
                    let digits = u32_to_string(e);
                    let t = concat_str("+", digits.as_str());
                    proof {
                        reveal_strlit("+");
                        assert("+"@ =~= seq!['+']);
                    }
                    Some(t)
                },
                None => None,
            },
        }
    }

    /// The encoding of the outcome market that `coin_or_id` names, or else
    /// the encoding that it denotes.
    pub fn outcome_encoding(&self, coin_or_id: &str) -> (r: Option<u32>)
        ensures
            r == (match resolved_market(self.data()@, coin_or_id@) {
                Some(rec) => Some(rec.encoding),
                None => identifier_encoding(coin_or_id@),
            }),
    {
        match self.resolve_outcome_market(coin_or_id) {
            Some(rec) => Some(rec.encoding),
            None => outcome_encoding_from_identifier(coin_or_id),
        }
    }

    /// What an order needs of the outcome market that `coin_or_id` names.
    pub fn outcome_order_info(&self, coin_or_id: &str) -> (r: Option<OutcomeOrderInfo>)
        ensures
            r is Some <==> resolved_market(self.data()@, coin_or_id@) is Some,
            r matches Some(info) ==> {
                let rec = resolved_market(self.data()@, coin_or_id@)->0;
                &&& info.coin@ == rec.coin
                &&& info.encoding == rec.encoding
                &&& info.token_name@ == rec.token_name
                &&& info.asset_id == rec.asset_id
                &&& info.outcome_id == rec.outcome_id
                &&& info.side_index == rec.side_index
                &&& info.side_name@ == rec.side_name
                &&& info.outcome_name@ == rec.outcome_name
                &&& opt_str_view(info.mid) == rec.mid
            },
    {
        match self.resolve_outcome_market(coin_or_id) {
            Some(record) => Some(
                OutcomeOrderInfo {
                    coin: record.coin,
                    encoding: record.encoding,
                    token_name: record.token_name,
                    asset_id: record.asset_id,
                    outcome_id: record.outcome_id,
                    side_index: record.side_index,
                    side_name: record.side_name,
                    outcome_name: record.outcome_name,
                    mid: record.mid,
                },
            ),
            None => None,
        }
    }
}

} // verus!
