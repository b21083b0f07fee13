//! Properties of the library as a whole, proved over the abstract tables.

use vstd::prelude::*;
use crate::identifiers::{
    coin_name, encoding_asset_id, identifier_asset_id, identifier_encoding, normal_spot_pair_id,
    strip_outcome_prefix, token_name, OUTCOME_ASSET_ID_OFFSET,
};
use crate::market_meta_store::{built_model, resolved_market};
use crate::model::{with_mids, resolve_alias};
use crate::records::OutcomeMarketRecordView;
use crate::meta::{AssetMeta, Meta, SpotAssetMeta, SpotMeta, TokenInfo};
use crate::model::{outcome_key, question_key, sorted_by_encoding};
use crate::market_meta_store::MarketMetaStoreData;
use crate::outcome_index::{encoding_sort, index_view, insert_position, lemma_insert_position};
use crate::model::{
    with_outcome_side, with_outcome_sides, with_outcomes, indexed_sides,
};
use crate::meta::{OutcomeMetaOutcome, OutcomeQuestion};
use crate::model::{
    empty_model, overwrite, with_aliases, with_builder_assets, with_builder_dex, with_builder_dexs,
    with_default_perps, with_spot_market, with_spot_markets, written, DataModel,
};
use crate::text::{
    all_ascii_digits, decimal, decimal_value, is_ascii_digit, is_white_space, lemma_decimal,
    lemma_trim_idempotent, lemma_trim_unchanged, trim,
};

verus! {

/// A digit string denoting `v` is read back as the encoding it names.
proof fn lemma_digits_form(t: Seq<char>, v: nat)
    requires
        t.len() > 0,
        all_ascii_digits(t),
        decimal_value(t) == v,
        v <= u32::MAX,
    ensures
        trim(t) == t,
        strip_outcome_prefix(t) == t,
{
    assert(is_ascii_digit(t[0]) && is_ascii_digit(t.last()));
    assert(!is_white_space(t[0]) && !is_white_space(t.last()));
    lemma_trim_unchanged(t);
}

/// A prefix character followed by digits is read as those digits.
proof fn lemma_prefixed_form(p: char, t: Seq<char>)
    requires
        p == '#' || p == '+',
        t.len() > 0,
        all_ascii_digits(t),
    ensures
        trim(seq![p] + t) == seq![p] + t,
        strip_outcome_prefix(seq![p] + t) == t,
{
    let s = seq![p] + t;
    assert(s[0] == p);
    assert(s.last() == t.last());
    assert(is_ascii_digit(t.last()));
    lemma_trim_unchanged(s);
    assert(s.drop_first() =~= t);
}

/// HIP-4 identifiers: for outcome `o` and side `s`, the encoding is
/// `e = 10 * o + s`, and while `e` is below the asset-id offset its coin
/// `#e`, its token `+e`, the bare `e` and the asset id `100000000 + e` all
/// denote `e` and resolve to asset id `100000000 + e`.
pub proof fn law_outcome_identifier_forms(outcome: u32, side: u32)
    requires
        outcome >= 1,
        side <= 1,
        10 * outcome + side < OUTCOME_ASSET_ID_OFFSET,
    ensures
        ({
            let e = (10 * outcome + side) as u32;
            let a = (e + OUTCOME_ASSET_ID_OFFSET) as u32;
            &&& encoding_asset_id(e) == Some(a)
            &&& identifier_encoding(coin_name(e)) == Some(e)
            &&& identifier_encoding(token_name(e)) == Some(e)
            &&& identifier_encoding(decimal(e as nat)) == Some(e)
            &&& identifier_encoding(decimal(a as nat)) == Some(e)
            &&& identifier_asset_id(coin_name(e)) == Some(a)
            &&& identifier_asset_id(token_name(e)) == Some(a)
            &&& identifier_asset_id(decimal(e as nat)) == Some(a)
            &&& identifier_asset_id(decimal(a as nat)) == Some(a)
        }),
{
    let e = (10 * outcome + side) as u32;
    let a = (e + OUTCOME_ASSET_ID_OFFSET) as u32;
    assert(e / 10 == outcome && e % 10 == side);
    lemma_decimal(e as nat);
    lemma_decimal(a as nat);
    lemma_digits_form(decimal(e as nat), e as nat);
    lemma_digits_form(decimal(a as nat), a as nat);
    lemma_prefixed_form('#', decimal(e as nat));
    lemma_prefixed_form('+', decimal(e as nat));
}

/// Normalising a spot pair id twice gives what normalising once gives.
pub proof fn law_normalize_spot_pair_id_idempotent(value: Seq<char>)
    ensures
        normal_spot_pair_id(normal_spot_pair_id(value)) == normal_spot_pair_id(value),
{
    let t = trim(value);
    lemma_trim_idempotent(value);
    if t.len() > 0 && all_ascii_digits(t) {
        let n = seq!['@'] + t;
        assert(n[0] == '@');
        assert(n.last() == t.last());
        assert(is_ascii_digit(t.last()));
        lemma_trim_unchanged(n);
        assert(!is_ascii_digit(n[0]));
    }
}

/// A mid applied under a name that resolves to an outcome market is what
/// that name then resolves to, with the rest of the record unchanged.
pub proof fn law_applied_mid_is_read_back(d: DataModel, coin: Seq<char>, mid: Seq<char>)
    requires
        resolved_market(d, coin) is Some,
    ensures
        resolved_market(
            DataModel {
                outcome_markets_by_coin: with_mids(
                    d.outcome_markets_by_coin,
                    d.outcome_alias_to_coin,
                    seq![coin],
                    seq![mid],
                ),
                ..d
            },
            coin,
        ) == Some(OutcomeMarketRecordView { mid: Some(mid), ..resolved_market(d, coin)->0 }),
{
    let s = seq![coin];
    let m = seq![mid];
    assert(s.drop_last() =~= Seq::<Seq<char>>::empty());
    assert(s[0] == coin);
    let markets = d.outcome_markets_by_coin;
    let table = d.outcome_alias_to_coin;
    assert(with_mids(markets, table, s.drop_last(), m) == markets);
    assert(with_mids(markets, table, s, m) == crate::model::with_mid(markets, table, coin, mid));
    let c = resolve_alias(table, coin)->0;
    assert(markets.contains_key(c));
}

/// Every name of `d1` that has an asset keeps its asset id, and its size
/// decimals and mid key where it has them, in `d2`.
pub open spec fn keeps_assets(d1: DataModel, d2: DataModel) -> bool {
    forall|k: Seq<char>|
        #[trigger] d1.coin_to_asset.contains_key(k) ==> {
            &&& d2.coin_to_asset.contains_key(k)
            &&& d2.coin_to_asset[k] == d1.coin_to_asset[k]
            &&& d1.coin_to_sz_decimals.contains_key(k) ==> d2.coin_to_sz_decimals.contains_key(k)
                && d2.coin_to_sz_decimals[k] == d1.coin_to_sz_decimals[k]
            &&& d1.mid_key_by_symbol.contains_key(k) ==> d2.mid_key_by_symbol.contains_key(k)
                && d2.mid_key_by_symbol[k] == d1.mid_key_by_symbol[k]
        }
}

proof fn lemma_preserving_aliases_keep(
    d: DataModel,
    names: Seq<Seq<char>>,
    asset_id: u32,
    sz_decimals: u32,
    mid_key: Seq<char>,
)
    ensures
        keeps_assets(d, with_aliases(d, names, asset_id, sz_decimals, mid_key, true)),
{
    let w = written(d.coin_to_asset, names, true);
    let r = with_aliases(d, names, asset_id, sz_decimals, mid_key, true);
    assert forall|k: Seq<char>| #[trigger] d.coin_to_asset.contains_key(k) implies {
        &&& r.coin_to_asset.contains_key(k)
        &&& r.coin_to_asset[k] == d.coin_to_asset[k]
        &&& d.coin_to_sz_decimals.contains_key(k) ==> r.coin_to_sz_decimals.contains_key(k)
            && r.coin_to_sz_decimals[k] == d.coin_to_sz_decimals[k]
        &&& d.mid_key_by_symbol.contains_key(k) ==> r.mid_key_by_symbol.contains_key(k)
            && r.mid_key_by_symbol[k] == d.mid_key_by_symbol[k]
    } by {
        assert(!w.contains(k));
    }
}

proof fn lemma_keeps_trans(d1: DataModel, d2: DataModel, d3: DataModel)
    requires
        keeps_assets(d1, d2),
        keeps_assets(d2, d3),
    ensures
        keeps_assets(d1, d3),
{
    assert forall|k: Seq<char>| #[trigger] d1.coin_to_asset.contains_key(k) implies {
        &&& d3.coin_to_asset.contains_key(k)
        &&& d3.coin_to_asset[k] == d1.coin_to_asset[k]
        &&& d1.coin_to_sz_decimals.contains_key(k) ==> d3.coin_to_sz_decimals.contains_key(k)
            && d3.coin_to_sz_decimals[k] == d1.coin_to_sz_decimals[k]
        &&& d1.mid_key_by_symbol.contains_key(k) ==> d3.mid_key_by_symbol.contains_key(k)
            && d3.mid_key_by_symbol[k] == d1.mid_key_by_symbol[k]
    } by {
        assert(d2.coin_to_asset.contains_key(k));
    }
}

proof fn lemma_spot_market_keeps(d: DataModel, tokens: Seq<TokenInfo>, m: SpotAssetMeta)
    ensures
        keeps_assets(d, with_spot_market(d, tokens, m)),
{
    match (crate::model::last_token(tokens, m.tokens[0]), crate::model::last_token(tokens, m.tokens[1])) {
        (Some(base), Some(quote)) => {
            lemma_preserving_aliases_keep(
                d,
                crate::model::spot_names(base, quote, m),
                crate::model::spot_asset_id(m),
                base.sz_decimals as u32,
                crate::model::spot_pair_id_of(m),
            );
        },
        _ => {},
    }
}

proof fn lemma_spot_markets_keep(d: DataModel, tokens: Seq<TokenInfo>, universe: Seq<SpotAssetMeta>)
    ensures
        keeps_assets(d, with_spot_markets(d, tokens, universe)),
    decreases universe.len(),
{
    if universe.len() > 0 {
        lemma_spot_markets_keep(d, tokens, universe.drop_last());
        let prev = with_spot_markets(d, tokens, universe.drop_last());
        lemma_spot_market_keeps(prev, tokens, universe.last());
        lemma_keeps_trans(d, prev, with_spot_markets(d, tokens, universe));
    }
}

proof fn lemma_builder_assets_keep(d: DataModel, dex: Seq<char>, offset: u32, universe: Seq<AssetMeta>)
    ensures
        keeps_assets(d, with_builder_assets(d, dex, offset, universe)),
    decreases universe.len(),
{
    if universe.len() > 0 {
        lemma_builder_assets_keep(d, dex, offset, universe.drop_last());
        let prev = with_builder_assets(d, dex, offset, universe.drop_last());
        let i = universe.len() - 1;
        let a = universe[i];
        let c = crate::model::builder_coin(dex, a.name@);
        lemma_preserving_aliases_keep(
            prev,
            crate::model::builder_names(dex, a.name@),
            (offset + (i as u32)) as u32,
            a.sz_decimals,
            crate::model::qualified_name(dex, c),
        );
        lemma_keeps_trans(d, prev, with_builder_assets(d, dex, offset, universe));
    }
}

proof fn lemma_builder_dexs_keep(d: DataModel, builders: Seq<(usize, String, Meta)>)
    ensures
        keeps_assets(d, with_builder_dexs(d, builders)),
    decreases builders.len(),
{
    if builders.len() > 0 {
        lemma_builder_dexs_keep(d, builders.drop_last());
        let prev = with_builder_dexs(d, builders.drop_last());
        let b = builders.last();
        let dex = trim(b.1@);
        if dex.len() > 0 {
            lemma_builder_assets_keep(prev, dex, crate::model::builder_offset(b.0) as u32, b.2.universe@);
        }
        lemma_keeps_trans(d, prev, with_builder_dexs(d, builders));
    }
}

/// Spot pairs and builder DEXs never take a name from a main-DEX
/// perpetual: every name of a main perpetual keeps its asset id, size
/// decimals and mid key in the built tables.
pub proof fn law_main_perps_are_never_overridden(
    meta: Meta,
    spot_meta: SpotMeta,
    builder_metas: Seq<(usize, String, Meta)>,
)
    ensures
        keeps_assets(
            with_default_perps(empty_model(), meta.universe@),
            built_model(meta, spot_meta, builder_metas),
        ),
{
    let perps = with_default_perps(empty_model(), meta.universe@);
    let spots = with_spot_markets(perps, spot_meta.tokens@, spot_meta.universe@);
    lemma_spot_markets_keep(perps, spot_meta.tokens@, spot_meta.universe@);
    lemma_builder_dexs_keep(spots, builder_metas);
    lemma_keeps_trans(perps, spots, built_model(meta, spot_meta, builder_metas));
}

/// `k` is one of the names that outcome encoding `e` gives an asset
/// under: its coin `#e`, its token `+e` or its asset id in decimal.
pub open spec fn names_outcome(k: Seq<char>, e: u32) -> bool {
    match encoding_asset_id(e) {
        Some(a) => k == coin_name(e) || k == token_name(e) || k == decimal(a as nat),
        None => false,
    }
}

/// `k` is a name that some outcome encoding gives an asset under.
pub open spec fn is_outcome_name(k: Seq<char>) -> bool {
    exists|e: u32| #[trigger] names_outcome(k, e)
}

/// Like `keeps_assets`, but an outcome name may take another asset id:
/// every name of `d1` that has an asset still has one in `d2`, the same one
/// unless it is an outcome name, and keeps its size decimals and mid key
/// where it has them.
pub open spec fn keeps_non_outcome_assets(d1: DataModel, d2: DataModel) -> bool {
    forall|k: Seq<char>|
        #[trigger] d1.coin_to_asset.contains_key(k) ==> {
            &&& d2.coin_to_asset.contains_key(k)
            &&& !is_outcome_name(k) ==> d2.coin_to_asset[k] == d1.coin_to_asset[k]
            &&& d1.coin_to_sz_decimals.contains_key(k) ==> d2.coin_to_sz_decimals.contains_key(k)
                && d2.coin_to_sz_decimals[k] == d1.coin_to_sz_decimals[k]
            &&& d1.mid_key_by_symbol.contains_key(k) ==> d2.mid_key_by_symbol.contains_key(k)
                && d2.mid_key_by_symbol[k] == d1.mid_key_by_symbol[k]
        }
}

proof fn lemma_outcome_side_keeps(
    d: DataModel,
    out: OutcomeMetaOutcome,
    side: u32,
    qs: Seq<OutcomeQuestion>,
    mids: Option<Map<Seq<char>, Seq<char>>>,
)
    ensures
        keeps_non_outcome_assets(d, with_outcome_side(d, out, side, qs, mids)),
{
    let e = crate::model::side_encoding(out.outcome, side);
    let r = with_outcome_side(d, out, side, qs, mids);
    assert forall|k: Seq<char>| #[trigger] d.coin_to_asset.contains_key(k) && !is_outcome_name(k) implies
        r.coin_to_asset[k] == d.coin_to_asset[k] by {
        assert(!names_outcome(k, e));
    }
}

proof fn lemma_outcome_sides_keep(
    d: DataModel,
    out: OutcomeMetaOutcome,
    n: nat,
    qs: Seq<OutcomeQuestion>,
    mids: Option<Map<Seq<char>, Seq<char>>>,
)
    ensures
        keeps_non_outcome_assets(d, with_outcome_sides(d, out, n, qs, mids)),
    decreases n,
{
    if n > 0 {
        lemma_outcome_sides_keep(d, out, (n - 1) as nat, qs, mids);
        let prev = with_outcome_sides(d, out, (n - 1) as nat, qs, mids);
        lemma_outcome_side_keeps(prev, out, (n - 1) as u32, qs, mids);
        lemma_non_outcome_keeps_trans(d, prev, with_outcome_sides(d, out, n, qs, mids));
    }
}

proof fn lemma_outcomes_keep(
    d: DataModel,
    outs: Seq<OutcomeMetaOutcome>,
    qs: Seq<OutcomeQuestion>,
    mids: Option<Map<Seq<char>, Seq<char>>>,
)
    ensures
        keeps_non_outcome_assets(d, with_outcomes(d, outs, qs, mids)),
    decreases outs.len(),
{
    if outs.len() == 0 {
        lemma_non_outcome_keeps_refl(d);
    } else {
        lemma_outcomes_keep(d, outs.drop_last(), qs, mids);
        let prev = with_outcomes(d, outs.drop_last(), qs, mids);
        let out = outs.last();
        lemma_outcome_sides_keep(prev, out, indexed_sides(out), qs, mids);
        lemma_non_outcome_keeps_trans(d, prev, with_outcomes(d, outs, qs, mids));
    }
}

proof fn lemma_non_outcome_keeps_refl(d: DataModel)
    ensures
        keeps_non_outcome_assets(d, d),
{
}

proof fn lemma_non_outcome_keeps_trans(d1: DataModel, d2: DataModel, d3: DataModel)
    requires
        keeps_non_outcome_assets(d1, d2),
        keeps_non_outcome_assets(d2, d3),
    ensures
        keeps_non_outcome_assets(d1, d3),
{
    assert forall|k: Seq<char>| #[trigger] d1.coin_to_asset.contains_key(k) implies {
        &&& d3.coin_to_asset.contains_key(k)
        &&& !is_outcome_name(k) ==> d3.coin_to_asset[k] == d1.coin_to_asset[k]
        &&& d1.coin_to_sz_decimals.contains_key(k) ==> d3.coin_to_sz_decimals.contains_key(k)
            && d3.coin_to_sz_decimals[k] == d1.coin_to_sz_decimals[k]
        &&& d1.mid_key_by_symbol.contains_key(k) ==> d3.mid_key_by_symbol.contains_key(k)
            && d3.mid_key_by_symbol[k] == d1.mid_key_by_symbol[k]
    } by {
        assert(d2.coin_to_asset.contains_key(k));
    }
}

/// With outcomes too, spot pairs, builder DEXs and outcome markets never
/// take a name from a main-DEX perpetual unless the name is an outcome
/// name (`#e`, `+e` or the decimal asset id of an outcome encoding `e`):
/// every name of a main perpetual still has an asset, the same one unless
/// it is an outcome name, and keeps its size decimals and mid key,
/// whatever outcomes and mids are given.
pub proof fn law_main_perps_are_never_overridden_with_outcomes(
    meta: Meta,
    spot_meta: SpotMeta,
    builder_metas: Seq<(usize, String, Meta)>,
    outcomes: Seq<OutcomeMetaOutcome>,
    questions: Seq<OutcomeQuestion>,
    mids: Option<Map<Seq<char>, Seq<char>>>,
)
    ensures
        keeps_non_outcome_assets(
            with_default_perps(empty_model(), meta.universe@),
            with_outcomes(built_model(meta, spot_meta, builder_metas), outcomes, questions, mids),
        ),
{
    let perps = with_default_perps(empty_model(), meta.universe@);
    let built = built_model(meta, spot_meta, builder_metas);
    law_main_perps_are_never_overridden(meta, spot_meta, builder_metas);
    lemma_outcomes_keep(built, outcomes, questions, mids);
    assert(keeps_non_outcome_assets(perps, built));
    lemma_non_outcome_keeps_trans(perps, built, with_outcomes(built, outcomes, questions, mids));
}

/// The records with encoding `v`.
pub open spec fn has_encoding(v: u32) -> spec_fn(OutcomeMarketRecordView) -> bool {
    |r: OutcomeMarketRecordView| r.encoding == v
}

proof fn lemma_filter_none(s: Seq<OutcomeMarketRecordView>, pred: spec_fn(OutcomeMarketRecordView) -> bool)
    requires
        forall|i: int| 0 <= i < s.len() ==> !pred(#[trigger] s[i]),
    ensures
        s.filter(pred) == Seq::<OutcomeMarketRecordView>::empty(),
    decreases s.len(),
{
    reveal(Seq::filter);
    if s.len() > 0 {
        let t = s.drop_last();
        assert forall|i: int| 0 <= i < t.len() implies !pred(#[trigger] t[i]) by {
            assert(t[i] == s[i]);
        }
        lemma_filter_none(t, pred);
        assert(!pred(s[s.len() - 1]));
    }
}

/// Ordering by encoding sorts, and keeps the order of records with equal
/// encodings: for every encoding `v`, the records with encoding `v` come
/// out in the order they went in.
pub proof fn law_encoding_sort_is_stable(s: Seq<OutcomeMarketRecordView>, v: u32)
    ensures
        sorted_by_encoding(encoding_sort(s)),
        encoding_sort(s).len() == s.len(),
        encoding_sort(s).filter(has_encoding(v)) == s.filter(has_encoding(v)),
    decreases s.len(),
{
    if s.len() > 0 {
        let rest = s.drop_last();
        let x = s.last();
        law_encoding_sort_is_stable(rest, v);
        let t = encoding_sort(rest);
        let p = insert_position(t, x.encoding) as int;
        lemma_insert_position(t, x.encoding);
        let r = t.insert(p, x);
        assert(encoding_sort(s) == r);
        assert forall|a: int, b: int| 0 <= a < b < r.len() implies (#[trigger] r[a]).encoding
            <= (#[trigger] r[b]).encoding by {
            if b < p {
                assert(r[a] == t[a] && r[b] == t[b]);
            } else if b == p {
                assert(r[a] == t[a]);
            } else if a < p {
                assert(r[a] == t[a] && r[b] == t[b - 1]);
            } else if a == p {
                assert(r[b] == t[b - 1]);
                if b - 1 > p {
                    assert(t[p].encoding <= t[b - 1].encoding);
                }
            } else {
                assert(r[a] == t[a - 1] && r[b] == t[b - 1]);
            }
        }
        let pred = has_encoding(v);
        let front = t.take(p);
        let back = t.skip(p);
        assert(t =~= front + back);
        assert(r =~= front + seq![x] + back);
        Seq::filter_distributes_over_add(front, back, pred);
        Seq::filter_distributes_over_add(front + seq![x], back, pred);
        Seq::filter_distributes_over_add(front, seq![x], pred);
        Seq::<OutcomeMarketRecordView>::empty().lemma_filter_push(x, pred);
        assert(Seq::<OutcomeMarketRecordView>::empty().push(x) =~= seq![x]);
        assert(Seq::<OutcomeMarketRecordView>::empty().filter(pred) =~= Seq::<OutcomeMarketRecordView>::empty()) by {
            reveal(Seq::filter);
        }
        rest.lemma_filter_push(x, pred);
        assert(rest.push(x) =~= s);
        if pred(x) {
            assert forall|i: int| 0 <= i < back.len() implies !pred(#[trigger] back[i]) by {
                assert(back[i] == t[p + i]);
                if i > 0 {
                    assert(t[p].encoding <= t[p + i].encoding);
                }
            }
            lemma_filter_none(back, pred);
            assert(back.filter(pred) + Seq::<OutcomeMarketRecordView>::empty() =~= back.filter(pred));
            assert(front.filter(pred) + Seq::<OutcomeMarketRecordView>::empty() =~= front.filter(pred));
            assert(r.filter(pred) =~= t.filter(pred).push(x));
        } else {
            assert(front.filter(pred) + Seq::<OutcomeMarketRecordView>::empty() =~= front.filter(pred));
            assert(r.filter(pred) == t.filter(pred));
        }
    }
}

/// The indexes of a store are fixed by its outcome records: two stores
/// with the same records have the same outcome and question indexes, so
/// rebuilding them from unchanged records changes nothing. Each list holds
/// the records of its key in the order that ordering all records by
/// encoding gives (equal encodings keeping their order), and no list is
/// empty.
pub proof fn law_store_indexes_are_determined(d1: MarketMetaStoreData, d2: MarketMetaStoreData)
    requires
        d1.indexes_consistent(),
        d2.indexes_consistent(),
        d1.market_records() == d2.market_records(),
    ensures
        index_view(d1.outcome_markets_by_outcome) == index_view(d2.outcome_markets_by_outcome),
        index_view(d1.outcome_markets_by_question) == index_view(d2.outcome_markets_by_question),
        forall|o: u32| #[trigger] index_view(d1.outcome_markets_by_outcome).contains_key(o) ==> {
            &&& index_view(d1.outcome_markets_by_outcome)[o].len() > 0
            &&& index_view(d1.outcome_markets_by_outcome)[o] == encoding_sort(d1.market_records()).filter(
                |r: OutcomeMarketRecordView| r.outcome_id == o,
            )
        },
        forall|q: u32| #[trigger] index_view(d1.outcome_markets_by_question).contains_key(q) ==> {
            &&& index_view(d1.outcome_markets_by_question)[q].len() > 0
            &&& index_view(d1.outcome_markets_by_question)[q] == encoding_sort(d1.market_records()).filter(
                |r: OutcomeMarketRecordView| r.question_id == Some(q),
            )
        },
{
    broadcast use vstd::seq_lib::group_filter_ensures;
    let e = encoding_sort(d1.market_records());
    assert forall|o: u32| #[trigger] index_view(d1.outcome_markets_by_outcome).contains_key(o) implies {
        &&& index_view(d1.outcome_markets_by_outcome)[o].len() > 0
        &&& index_view(d1.outcome_markets_by_outcome)[o] == e.filter(|r: OutcomeMarketRecordView| r.outcome_id == o)
    } by {
        let j = choose|j: int| 0 <= j < e.len() && outcome_key()(#[trigger] e[j]) == Some(o);
        let f = e.filter(|r: OutcomeMarketRecordView| outcome_key()(r) == Some(o));
        assert(f.contains(e[j]));
        assert((|r: OutcomeMarketRecordView| outcome_key()(r) == Some(o)) =~= (|r: OutcomeMarketRecordView| r.outcome_id == o));
    }
    assert forall|q: u32| #[trigger] index_view(d1.outcome_markets_by_question).contains_key(q) implies {
        &&& index_view(d1.outcome_markets_by_question)[q].len() > 0
        &&& index_view(d1.outcome_markets_by_question)[q] == e.filter(|r: OutcomeMarketRecordView| r.question_id == Some(q))
    } by {
        let j = choose|j: int| 0 <= j < e.len() && question_key()(#[trigger] e[j]) == Some(q);
        let f = e.filter(|r: OutcomeMarketRecordView| question_key()(r) == Some(q));
        assert(f.contains(e[j]));
        assert((|r: OutcomeMarketRecordView| question_key()(r) == Some(q)) =~= (|r: OutcomeMarketRecordView| r.question_id == Some(q)));
    }
}

/// An asset name of builder DEX `dex` without the `dex:` prefix it is
/// listed with.
pub open spec fn bare_name(dex: Seq<char>, name: Seq<char>) -> Seq<char> {
    if (dex + seq![':']).is_prefix_of(name) {
        name.skip(dex.len() + 1int)
    } else {
        name
    }
}

proof fn lemma_listed_name_kept(names: Seq<Seq<char>>, idx: int)
    requires
        0 <= idx < names.len(),
        trim(names[idx]).len() > 0,
    ensures
        crate::identifiers::unique_name_seq(names).contains(trim(names[idx])),
    decreases names.len(),
{
    let prev = crate::identifiers::unique_name_seq(names.drop_last());
    if idx < names.len() - 1 {
        assert(names.drop_last()[idx] == names[idx]);
        lemma_listed_name_kept(names.drop_last(), idx);
        let x = trim(names[idx]);
        let i = choose|i: int| 0 <= i < prev.len() && prev[i] == x;
        let u = crate::identifiers::unique_name_seq(names);
        assert(u[i] == x);
    } else {
        let u = crate::identifiers::unique_name_seq(names);
        if !prev.contains(trim(names.last())) {
            assert(u[prev.len() as int] == trim(names.last()));
        }
    }
}

proof fn lemma_alias_written(
    d: DataModel,
    names: Seq<Seq<char>>,
    idx: int,
    asset_id: u32,
    sz_decimals: u32,
    mid_key: Seq<char>,
)
    requires
        0 <= idx < names.len(),
        trim(names[idx]).len() > 0,
    ensures
        with_aliases(d, names, asset_id, sz_decimals, mid_key, true).coin_to_asset.contains_key(trim(names[idx])),
        !d.coin_to_asset.contains_key(trim(names[idx])) ==> with_aliases(
            d,
            names,
            asset_id,
            sz_decimals,
            mid_key,
            true,
        ).coin_to_asset[trim(names[idx])] == asset_id,
{
    lemma_listed_name_kept(names, idx);
}

proof fn lemma_builder_assets_prefix_keep(d: DataModel, dex: Seq<char>, offset: u32, u: Seq<AssetMeta>, i: int)
    requires
        0 <= i < u.len(),
    ensures
        keeps_assets(with_builder_assets(d, dex, offset, u.take(i + 1)), with_builder_assets(d, dex, offset, u)),
    decreases u.len(),
{
    if i + 1 == u.len() {
        assert(u.take(i + 1) =~= u);
    } else {
        let f = u.drop_last();
        assert(f.take(i + 1) =~= u.take(i + 1));
        lemma_builder_assets_prefix_keep(d, dex, offset, f, i);
        let prev = with_builder_assets(d, dex, offset, f);
        let k = u.len() - 1;
        let a = u[k];
        lemma_preserving_aliases_keep(
            prev,
            crate::model::builder_names(dex, a.name@),
            (offset + (k as u32)) as u32,
            a.sz_decimals,
            crate::model::qualified_name(dex, crate::model::builder_coin(dex, a.name@)),
        );
        lemma_keeps_trans(
            with_builder_assets(d, dex, offset, u.take(i + 1)),
            prev,
            with_builder_assets(d, dex, offset, u),
        );
    }
}

proof fn lemma_builder_dexs_prefix_keep(d: DataModel, b: Seq<(usize, String, Meta)>, j: int)
    requires
        0 <= j < b.len(),
    ensures
        keeps_assets(with_builder_dexs(d, b.take(j + 1)), with_builder_dexs(d, b)),
    decreases b.len(),
{
    if j + 1 == b.len() {
        assert(b.take(j + 1) =~= b);
    } else {
        let f = b.drop_last();
        assert(f.take(j + 1) =~= b.take(j + 1));
        lemma_builder_dexs_prefix_keep(d, f, j);
        let prev = with_builder_dexs(d, f);
        let x = b.last();
        if trim(x.1@).len() > 0 {
            lemma_builder_assets_keep(prev, trim(x.1@), crate::model::builder_offset(x.0) as u32, x.2.universe@);
        }
        lemma_keeps_trans(with_builder_dexs(d, b.take(j + 1)), prev, with_builder_dexs(d, b));
    }
}

/// The tables just before asset `i` of builder DEX `j` is added.
pub open spec fn before_builder_asset(
    meta: Meta,
    spot_meta: SpotMeta,
    builder_metas: Seq<(usize, String, Meta)>,
    j: int,
    i: int,
) -> DataModel {
    let b = builder_metas[j];
    with_builder_assets(
        with_builder_dexs(
            with_spot_markets(with_default_perps(empty_model(), meta.universe@), spot_meta.tokens@, spot_meta.universe@),
            builder_metas.take(j),
        ),
        trim(b.1@),
        crate::model::builder_offset(b.0) as u32,
        b.2.universe@.take(i),
    )
}

/// A builder-DEX asset listed as `dex:C` (or `C`) is also known by its bare
/// name `C` (trimmed): the built tables map `C` to an asset id, and to the
/// asset's own id `100000 + 10000 * k + i` (`k` the DEX's index, `i` the
/// asset's position) unless a name processed before it already held `C`.
pub proof fn law_builder_assets_are_known_by_their_bare_name(
    meta: Meta,
    spot_meta: SpotMeta,
    builder_metas: Seq<(usize, String, Meta)>,
    j: int,
    i: int,
)
    requires
        0 <= j < builder_metas.len(),
        trim(builder_metas[j].1@).len() > 0,
        0 <= i < builder_metas[j].2.universe@.len(),
        trim(bare_name(trim(builder_metas[j].1@), builder_metas[j].2.universe@[i].name@)).len() > 0,
        crate::model::builder_offset(builder_metas[j].0) + i <= u32::MAX,
    ensures
        ({
            let c = trim(bare_name(trim(builder_metas[j].1@), builder_metas[j].2.universe@[i].name@));
            let built = built_model(meta, spot_meta, builder_metas);
            &&& built.coin_to_asset.contains_key(c)
            &&& !before_builder_asset(meta, spot_meta, builder_metas, j, i).coin_to_asset.contains_key(c)
                ==> built.coin_to_asset[c] == 100000 + 10000 * (builder_metas[j].0 as u32) + i
        }),
{
    let b = builder_metas[j];
    let dex = trim(b.1@);
    let offset = crate::model::builder_offset(b.0) as u32;
    let u = b.2.universe@;
    let name = u[i].name@;
    let c = trim(bare_name(dex, name));
    let spots = with_spot_markets(with_default_perps(empty_model(), meta.universe@), spot_meta.tokens@, spot_meta.universe@);
    let before_dex = with_builder_dexs(spots, builder_metas.take(j));
    let before = with_builder_assets(before_dex, dex, offset, u.take(i));
    let names = crate::model::builder_names(dex, name);
    assert(crate::model::builder_coin(dex, name) == bare_name(dex, name));
    assert(names[4] == bare_name(dex, name));
    lemma_alias_written(before, names, 4, (offset + (i as u32)) as u32, u[i].sz_decimals,
        crate::model::qualified_name(dex, crate::model::builder_coin(dex, name)));
    let after = with_builder_assets(before_dex, dex, offset, u.take(i + 1));
    assert(u.take(i + 1).drop_last() =~= u.take(i));
    assert(u.take(i + 1)[i] == u[i]);
    assert(after == with_aliases(before, names, (offset + (i as u32)) as u32, u[i].sz_decimals,
        crate::model::qualified_name(dex, crate::model::builder_coin(dex, name)), true));
    lemma_builder_assets_prefix_keep(before_dex, dex, offset, u, i);
    let after_dex = with_builder_dexs(spots, builder_metas.take(j + 1));
    assert(builder_metas.take(j + 1).drop_last() =~= builder_metas.take(j));
    assert(builder_metas.take(j + 1).last() == b);
    assert(after_dex == with_builder_assets(before_dex, dex, offset, u));
    lemma_builder_dexs_prefix_keep(spots, builder_metas, j);
    lemma_keeps_trans(after, after_dex, built_model(meta, spot_meta, builder_metas));
    assert(after.coin_to_asset.contains_key(c));
}

} // verus!
