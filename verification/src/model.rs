//! The abstract store: what each table maps to, and how processing the
//! exchange metadata changes it.

use vstd::prelude::*;
use crate::identifiers::{
    alias_candidates, coin_name, encoding_asset_id, normal_spot_pair_id, token_name, unique_name_seq,
};
use crate::meta::{AssetMeta, Meta, OutcomeMetaOutcome, OutcomeQuestion, SpotAssetMeta, TokenInfo};
use crate::records::OutcomeMarketRecordView;
use crate::text::{decimal, trim};

verus! {

/// The string tables of the store, as maps from names to values.
pub struct DataModel {
    pub coin_to_asset: Map<Seq<char>, u32>,
    pub coin_to_sz_decimals: Map<Seq<char>, u32>,
    pub spot_pair_to_symbol: Map<Seq<char>, Seq<char>>,
    pub symbol_to_spot_pair: Map<Seq<char>, Seq<char>>,
    pub outcome_markets_by_coin: Map<Seq<char>, OutcomeMarketRecordView>,
    pub outcome_alias_to_coin: Map<Seq<char>, Seq<char>>,
    pub mid_key_by_symbol: Map<Seq<char>, Seq<char>>,
}

pub open spec fn empty_model() -> DataModel {
    DataModel {
        coin_to_asset: Map::empty(),
        coin_to_sz_decimals: Map::empty(),
        spot_pair_to_symbol: Map::empty(),
        symbol_to_spot_pair: Map::empty(),
        outcome_markets_by_coin: Map::empty(),
        outcome_alias_to_coin: Map::empty(),
        mid_key_by_symbol: Map::empty(),
    }
}

pub open spec fn perp_suffix() -> Seq<char> {
    seq!['-', 'P', 'E', 'R', 'P']
}

pub open spec fn spot_suffix() -> Seq<char> {
    seq!['-', 'S', 'P', 'O', 'T']
}

pub open spec fn main_prefix() -> Seq<char> {
    seq!['m', 'a', 'i', 'n', ':']
}

pub open spec fn usdc() -> Seq<char> {
    seq!['U', 'S', 'D', 'C']
}

/// The names of `names` that an alias pass writes: all of them, or, when
/// existing names are preserved, those not yet mapped to an asset.
pub open spec fn written(
    assets: Map<Seq<char>, u32>,
    names: Seq<Seq<char>>,
    preserve: bool,
) -> Set<Seq<char>> {
    written_of(assets, unique_name_seq(names), preserve)
}

/// The names of `u` that are written: all, or those not yet mapped.
pub open spec fn written_of(
    assets: Map<Seq<char>, u32>,
    u: Seq<Seq<char>>,
    preserve: bool,
) -> Set<Seq<char>> {
    Set::new(|k: Seq<char>| u.contains(k) && !(preserve && assets.contains_key(k)))
}

/// `m` with every key of `keys` mapped to `v`.
pub open spec fn overwrite<V>(m: Map<Seq<char>, V>, keys: Set<Seq<char>>, v: V) -> Map<Seq<char>, V> {
    Map::new(
        |k: Seq<char>| m.contains_key(k) || keys.contains(k),
        |k: Seq<char>|
            if keys.contains(k) {
                v
            } else {
                m[k]
            },
    )
}

/// `d` with the names of `names` mapped to an asset id, size decimals and a
/// mid key.
pub open spec fn with_aliases(
    d: DataModel,
    names: Seq<Seq<char>>,
    asset_id: u32,
    sz_decimals: u32,
    mid_key: Seq<char>,
    preserve: bool,
) -> DataModel {
    let w = written(d.coin_to_asset, names, preserve);
    DataModel {
        coin_to_asset: overwrite(d.coin_to_asset, w, asset_id),
        coin_to_sz_decimals: overwrite(d.coin_to_sz_decimals, w, sz_decimals),
        mid_key_by_symbol: overwrite(d.mid_key_by_symbol, w, mid_key),
        ..d
    }
}

/// The names of a main-DEX perpetual: `X`, `X-PERP`, `main:X`,
/// `main:X-PERP`.
pub open spec fn perp_names(name: Seq<char>) -> Seq<Seq<char>> {
    seq![name, name + perp_suffix(), main_prefix() + name, main_prefix() + name + perp_suffix()]
}

/// `d` after the main-DEX perpetuals of `universe`; the asset id of an
/// asset is its index, and a later asset overrides an earlier name.
pub open spec fn with_default_perps(d: DataModel, universe: Seq<AssetMeta>) -> DataModel
    decreases universe.len(),
{
    if universe.len() == 0 {
        d
    } else {
        let i = universe.len() - 1;
        let a = universe[i];
        with_aliases(
            with_default_perps(d, universe.drop_last()),
            perp_names(a.name@),
            i as u32,
            a.sz_decimals,
            a.name@,
            false,
        )
    }
}

/// The last token of `tokens` with index `idx`.
pub open spec fn last_token(tokens: Seq<TokenInfo>, idx: usize) -> Option<TokenInfo>
    decreases tokens.len(),
{
    if tokens.len() == 0 {
        None
    } else if tokens.last().index == idx {
        Some(tokens.last())
    } else {
        last_token(tokens.drop_last(), idx)
    }
}

pub open spec fn spot_asset_id(m: SpotAssetMeta) -> u32 {
    (10000 + (m.index as u32)) as u32
}

/// A spot pair whose tokens are both known has an asset id that fits in
/// a `u32`.
pub open spec fn spot_market_fits(tokens: Seq<TokenInfo>, m: SpotAssetMeta) -> bool {
    (last_token(tokens, m.tokens[0]) is Some && last_token(tokens, m.tokens[1]) is Some) ==> 10000
        + (m.index as u32) <= u32::MAX
}

pub open spec fn spot_markets_fit(tokens: Seq<TokenInfo>, universe: Seq<SpotAssetMeta>) -> bool {
    forall|i: int| 0 <= i < universe.len() ==> spot_market_fits(tokens, #[trigger] universe[i])
}

/// The pair id of a spot pair: its name, or its index when the name is
/// blank, in normal form.
pub open spec fn spot_pair_id_of(m: SpotAssetMeta) -> Seq<char> {
    normal_spot_pair_id(
        if trim(m.name@).len() == 0 {
            decimal(m.index as nat)
        } else {
            m.name@
        },
    )
}

pub open spec fn spot_symbol(base: TokenInfo, quote: TokenInfo) -> Seq<char> {
    base.name@ + seq!['/'] + quote.name@
}

/// The names of a spot pair: `BASE/QUOTE`, its pair id, `@n`, `n`, its
/// asset id, and `BASE-SPOT` when the quote is USDC.
pub open spec fn spot_names(base: TokenInfo, quote: TokenInfo, m: SpotAssetMeta) -> Seq<Seq<char>> {
    let listed = seq![
        spot_symbol(base, quote),
        spot_pair_id_of(m),
        seq!['@'] + decimal(m.index as nat),
        decimal(m.index as nat),
        decimal(spot_asset_id(m) as nat),
    ];
    if quote.name@ == usdc() {
        listed.push(base.name@ + spot_suffix())
    } else {
        listed
    }
}

/// `d` after one spot pair; names already mapped to an asset keep it.
pub open spec fn with_spot_market(d: DataModel, tokens: Seq<TokenInfo>, m: SpotAssetMeta) -> DataModel {
    match (last_token(tokens, m.tokens[0]), last_token(tokens, m.tokens[1])) {
        (Some(base), Some(quote)) => {
            let pair = spot_pair_id_of(m);
            let symbol = spot_symbol(base, quote);
            let names = spot_names(base, quote, m);
            let d1 = with_aliases(d, names, spot_asset_id(m), base.sz_decimals as u32, pair, true);
            DataModel {
                symbol_to_spot_pair: overwrite(
                    d1.symbol_to_spot_pair,
                    unique_name_seq(names).to_set(),
                    pair,
                ),
                spot_pair_to_symbol: d1.spot_pair_to_symbol.insert(pair, symbol).insert(
                    seq!['@'] + decimal(m.index as nat),
                    symbol,
                ).insert(decimal(m.index as nat), symbol),
                ..d1
            }
        },
        _ => d,
    }
}

pub open spec fn with_spot_markets(
    d: DataModel,
    tokens: Seq<TokenInfo>,
    universe: Seq<SpotAssetMeta>,
) -> DataModel
    decreases universe.len(),
{
    if universe.len() == 0 {
        d
    } else {
        with_spot_market(with_spot_markets(d, tokens, universe.drop_last()), tokens, universe.last())
    }
}

/// An asset name of a builder DEX without its `dex:` prefix.
pub open spec fn builder_coin(dex: Seq<char>, name: Seq<char>) -> Seq<char> {
    let p = dex + seq![':'];
    if p.is_prefix_of(name) {
        name.skip(p.len() as int)
    } else {
        name
    }
}

pub open spec fn qualified_name(dex: Seq<char>, coin: Seq<char>) -> Seq<char> {
    dex + seq![':'] + coin
}

/// The names of a builder-DEX perpetual: `dex:C`, `dex:C-PERP`, the listed
/// name, the listed name with `-PERP`, `C` and `C-PERP`.
pub open spec fn builder_names(dex: Seq<char>, name: Seq<char>) -> Seq<Seq<char>> {
    let c = builder_coin(dex, name);
    let q = qualified_name(dex, c);
    seq![q, q + perp_suffix(), name, name + perp_suffix(), c, c + perp_suffix()]
}

pub open spec fn builder_offset(perp_dex_index: usize) -> int {
    100000 + (perp_dex_index as u32) * 10000
}

pub open spec fn with_builder_assets(
    d: DataModel,
    dex: Seq<char>,
    offset: u32,
    universe: Seq<AssetMeta>,
) -> DataModel
    decreases universe.len(),
{
    if universe.len() == 0 {
        d
    } else {
        let i = universe.len() - 1;
        let a = universe[i];
        let c = builder_coin(dex, a.name@);
        with_aliases(
            with_builder_assets(d, dex, offset, universe.drop_last()),
            builder_names(dex, a.name@),
            (offset + (i as u32)) as u32,
            a.sz_decimals,
            qualified_name(dex, c),
            true,
        )
    }
}

/// Every asset id of a builder DEX fits in a `u32`.
pub open spec fn builder_dex_fits(perp_dex_index: usize, name: Seq<char>, meta: Meta) -> bool {
    trim(name).len() > 0 ==> {
        &&& builder_offset(perp_dex_index) <= u32::MAX
        &&& builder_offset(perp_dex_index) + meta.universe@.len() <= u32::MAX + 1
    }
}

pub open spec fn builder_dexs_fit(builders: Seq<(usize, String, Meta)>) -> bool {
    forall|i: int|
        0 <= i < builders.len() ==> builder_dex_fits(
            (#[trigger] builders[i]).0,
            builders[i].1@,
            builders[i].2,
        )
}

/// `d` after a builder DEX; a blank DEX name adds nothing, and names
/// already mapped to an asset keep it.
pub open spec fn with_builder_dex(
    d: DataModel,
    perp_dex_index: usize,
    name: Seq<char>,
    meta: Meta,
) -> DataModel {
    let dex = trim(name);
    if dex.len() == 0 {
        d
    } else {
        with_builder_assets(d, dex, builder_offset(perp_dex_index) as u32, meta.universe@)
    }
}

pub open spec fn with_builder_dexs(d: DataModel, builders: Seq<(usize, String, Meta)>) -> DataModel
    decreases builders.len(),
{
    if builders.len() == 0 {
        d
    } else {
        let b = builders.last();
        with_builder_dex(with_builder_dexs(d, builders.drop_last()), b.0, b.1@, b.2)
    }
}

/// The first question that names outcome `o` as its fallback, one of its
/// outcomes or one of its settled outcomes.
pub open spec fn question_for(qs: Seq<OutcomeQuestion>, o: u32) -> Option<OutcomeQuestion>
    decreases qs.len(),
{
    if qs.len() == 0 {
        None
    } else if qs[0].fallback_outcome == o || qs[0].named_outcomes@.contains(o)
        || qs[0].settled_named_outcomes@.contains(o) {
        Some(qs[0])
    } else {
        question_for(qs.drop_first(), o)
    }
}

/// `10 * outcome + side`, saturating at `u32::MAX`.
pub open spec fn side_encoding(outcome: u32, side: u32) -> u32 {
    let m: u32 = if outcome * 10 <= u32::MAX {
        (outcome * 10) as u32
    } else {
        u32::MAX
    };
    if m + side <= u32::MAX {
        (m + side) as u32
    } else {
        u32::MAX
    }
}

/// The record of side `side` of an outcome.
pub open spec fn outcome_record(
    out: OutcomeMetaOutcome,
    side: u32,
    qs: Seq<OutcomeQuestion>,
    mids: Option<Map<Seq<char>, Seq<char>>>,
) -> OutcomeMarketRecordView {
    let e = side_encoding(out.outcome, side);
    let a = match encoding_asset_id(e) {
        Some(a) => a,
        None => 0,
    };
    let q = question_for(qs, out.outcome);
    OutcomeMarketRecordView {
        coin: coin_name(e),
        encoding: e,
        token_name: token_name(e),
        asset_id: a,
        outcome_id: out.outcome,
        side_index: side,
        side_name: out.side_specs@[side as int].name@,
        outcome_name: out.name@,
        outcome_description: out.description@,
        question_id: match q {
            Some(q) => Some(q.question),
            None => None,
        },
        question_name: match q {
            Some(q) => Some(q.name@),
            None => None,
        },
        fallback_outcome: match q {
            Some(q) => Some(q.fallback_outcome),
            None => None,
        },
        is_settled: match q {
            Some(q) => q.settled_named_outcomes@.contains(out.outcome),
            None => false,
        },
        mid: match mids {
            Some(m) => if m.contains_key(coin_name(e)) {
                Some(m[coin_name(e)])
            } else {
                None
            },
            None => None,
        },
    }
}

/// `d` after side `side` of an outcome: an encoding without an asset id
/// adds nothing; otherwise the coin, token and asset id name the asset,
/// every alias of the coin leads to it, and its record is stored.
pub open spec fn with_outcome_side(
    d: DataModel,
    out: OutcomeMetaOutcome,
    side: u32,
    qs: Seq<OutcomeQuestion>,
    mids: Option<Map<Seq<char>, Seq<char>>>,
) -> DataModel {
    let e = side_encoding(out.outcome, side);
    match encoding_asset_id(e) {
        None => d,
        Some(a) => {
            let coin = coin_name(e);
            DataModel {
                coin_to_asset: d.coin_to_asset.insert(coin, a).insert(token_name(e), a).insert(
                    decimal(a as nat),
                    a,
                ),
                outcome_alias_to_coin: overwrite(
                    d.outcome_alias_to_coin,
                    alias_candidates(coin).to_set(),
                    coin,
                ),
                outcome_markets_by_coin: d.outcome_markets_by_coin.insert(
                    coin,
                    outcome_record(out, side, qs, mids),
                ),
                ..d
            }
        },
    }
}

/// `d` after the first `n` sides of an outcome.
pub open spec fn with_outcome_sides(
    d: DataModel,
    out: OutcomeMetaOutcome,
    n: nat,
    qs: Seq<OutcomeQuestion>,
    mids: Option<Map<Seq<char>, Seq<char>>>,
) -> DataModel
    decreases n,
{
    if n == 0 {
        d
    } else {
        with_outcome_side(
            with_outcome_sides(d, out, (n - 1) as nat, qs, mids),
            out,
            (n - 1) as u32,
            qs,
            mids,
        )
    }
}

/// The number of sides of an outcome that the store indexes: at most two.
pub open spec fn indexed_sides(out: OutcomeMetaOutcome) -> nat {
    if out.side_specs@.len() < 2 {
        out.side_specs@.len()
    } else {
        2
    }
}

pub open spec fn with_outcomes(
    d: DataModel,
    outs: Seq<OutcomeMetaOutcome>,
    qs: Seq<OutcomeQuestion>,
    mids: Option<Map<Seq<char>, Seq<char>>>,
) -> DataModel
    decreases outs.len(),
{
    if outs.len() == 0 {
        d
    } else {
        let out = outs.last();
        with_outcome_sides(with_outcomes(d, outs.drop_last(), qs, mids), out, indexed_sides(out), qs, mids)
    }
}

/// The coin that the first of `candidates` found in `table` leads to.
pub open spec fn first_alias_hit(
    candidates: Seq<Seq<char>>,
    table: Map<Seq<char>, Seq<char>>,
) -> Option<Seq<char>>
    decreases candidates.len(),
{
    if candidates.len() == 0 {
        None
    } else if table.contains_key(candidates[0]) {
        Some(table[candidates[0]])
    } else {
        first_alias_hit(candidates.drop_first(), table)
    }
}

/// The coin of the outcome market that `value` names through the alias
/// table.
pub open spec fn resolve_alias(table: Map<Seq<char>, Seq<char>>, value: Seq<char>) -> Option<Seq<char>> {
    first_alias_hit(alias_candidates(value), table)
}

/// The market table after one mid: the market that `coin` resolves to, if
/// any, gets `mid`.
pub open spec fn with_mid(
    markets: Map<Seq<char>, OutcomeMarketRecordView>,
    table: Map<Seq<char>, Seq<char>>,
    coin: Seq<char>,
    mid: Seq<char>,
) -> Map<Seq<char>, OutcomeMarketRecordView> {
    match resolve_alias(table, coin) {
        Some(c) => if markets.contains_key(c) {
            markets.insert(c, OutcomeMarketRecordView { mid: Some(mid), ..markets[c] })
        } else {
            markets
        },
        None => markets,
    }
}

/// The market table after the mids of `coins` and `mids`, in order.
pub open spec fn with_mids(
    markets: Map<Seq<char>, OutcomeMarketRecordView>,
    table: Map<Seq<char>, Seq<char>>,
    coins: Seq<Seq<char>>,
    mids: Seq<Seq<char>>,
) -> Map<Seq<char>, OutcomeMarketRecordView>
    decreases coins.len(),
{
    if coins.len() == 0 {
        markets
    } else {
        let n = coins.len() - 1;
        with_mid(with_mids(markets, table, coins.drop_last(), mids), table, coins[n], mids[n])
    }
}

pub open spec fn sorted_by_encoding(s: Seq<OutcomeMarketRecordView>) -> bool {
    forall|i: int, j: int| 0 <= i < j < s.len() ==> (#[trigger] s[i]).encoding <= (#[trigger] s[j]).encoding
}

/// Groups records by their outcome.
pub open spec fn outcome_key() -> spec_fn(OutcomeMarketRecordView) -> Option<u32> {
    |r: OutcomeMarketRecordView| Some(r.outcome_id)
}

/// Groups records by their question, leaving out those without one.
pub open spec fn question_key() -> spec_fn(OutcomeMarketRecordView) -> Option<u32> {
    |r: OutcomeMarketRecordView| r.question_id
}

/// `index` groups `records` by `key`: it holds exactly the keys that some
/// record has, and each key's list holds that key's records, ordered by
/// encoding.
pub open spec fn groups_records(
    index: Map<u32, Seq<OutcomeMarketRecordView>>,
    records: Seq<OutcomeMarketRecordView>,
    key: spec_fn(OutcomeMarketRecordView) -> Option<u32>,
) -> bool {
    &&& forall|k: u32|
        index.contains_key(k) <==> exists|i: int| 0 <= i < records.len() && key(#[trigger] records[i]) == Some(k)
    &&& forall|k: u32|
        #[trigger] index.contains_key(k) ==> {
            &&& sorted_by_encoding(index[k])
            &&& index[k].to_multiset() == records.filter(|r: OutcomeMarketRecordView| key(r) == Some(k)).to_multiset()
        }
}

/// Every outcome market is stored under the coin of its encoding.
pub open spec fn keyed_by_coin(m: Map<Seq<char>, OutcomeMarketRecordView>) -> bool {
    forall|c: Seq<char>| #[trigger] m.contains_key(c) ==> c == coin_name(m[c].encoding)
}

/// No two records of `s` share an encoding.
pub open spec fn distinct_encodings(s: Seq<OutcomeMarketRecordView>) -> bool {
    forall|i: int, j: int| 0 <= i < j < s.len() ==> (#[trigger] s[i]).encoding != (#[trigger] s[j]).encoding
}

pub proof fn lemma_outcomes_keyed_by_coin(
    d: DataModel,
    outs: Seq<OutcomeMetaOutcome>,
    qs: Seq<OutcomeQuestion>,
    mids: Option<Map<Seq<char>, Seq<char>>>,
)
    requires
        keyed_by_coin(d.outcome_markets_by_coin),
    ensures
        keyed_by_coin(with_outcomes(d, outs, qs, mids).outcome_markets_by_coin),
    decreases outs.len(),
{
    if outs.len() > 0 {
        lemma_outcomes_keyed_by_coin(d, outs.drop_last(), qs, mids);
        let out = outs.last();
        lemma_sides_keyed_by_coin(with_outcomes(d, outs.drop_last(), qs, mids), out, indexed_sides(out), qs, mids);
    }
}

proof fn lemma_sides_keyed_by_coin(
    d: DataModel,
    out: OutcomeMetaOutcome,
    n: nat,
    qs: Seq<OutcomeQuestion>,
    mids: Option<Map<Seq<char>, Seq<char>>>,
)
    requires
        keyed_by_coin(d.outcome_markets_by_coin),
    ensures
        keyed_by_coin(with_outcome_sides(d, out, n, qs, mids).outcome_markets_by_coin),
    decreases n,
{
    if n > 0 {
        lemma_sides_keyed_by_coin(d, out, (n - 1) as nat, qs, mids);
        let prev = with_outcome_sides(d, out, (n - 1) as nat, qs, mids);
        let r = with_outcome_side(prev, out, (n - 1) as u32, qs, mids);
        assert forall|c: Seq<char>| #[trigger] r.outcome_markets_by_coin.contains_key(c) implies
            c == coin_name(r.outcome_markets_by_coin[c].encoding) by {
            if !prev.outcome_markets_by_coin.contains_key(c) {
                assert(c == coin_name(side_encoding(out.outcome, (n - 1) as u32)));
            }
        }
    }
}

pub proof fn lemma_mids_keyed_by_coin(
    markets: Map<Seq<char>, OutcomeMarketRecordView>,
    table: Map<Seq<char>, Seq<char>>,
    coins: Seq<Seq<char>>,
    mids: Seq<Seq<char>>,
)
    requires
        keyed_by_coin(markets),
    ensures
        keyed_by_coin(with_mids(markets, table, coins, mids)),
    decreases coins.len(),
{
    if coins.len() > 0 {
        lemma_mids_keyed_by_coin(markets, table, coins.drop_last(), mids);
        let n = coins.len() - 1;
        let prev = with_mids(markets, table, coins.drop_last(), mids);
        let r = with_mid(prev, table, coins[n], mids[n]);
        assert forall|c: Seq<char>| #[trigger] r.contains_key(c) implies c == coin_name(r[c].encoding) by {
            assert(prev.contains_key(c));
        }
    }
}

} // verus!
