//! The outcome tables resolve every HIP-4 identifier of an indexed outcome
//! side to that side's record.

use vstd::prelude::*;
use crate::identifiers::{
    alias_candidates, coin_name, encoding_asset_id, identifier_encoding, token_name, unique_name_seq,
    OUTCOME_ASSET_ID_OFFSET,
};
use crate::laws::law_outcome_identifier_forms;
use crate::market_meta_store::{built_model, resolved_market};
use crate::meta::{Meta, OutcomeMetaOutcome, OutcomeMetaResponse, OutcomeQuestion, SpotMeta};
use crate::model::{
    empty_model, first_alias_hit, indexed_sides, outcome_record, overwrite, resolve_alias,
    side_encoding, with_builder_assets, with_builder_dex, with_builder_dexs, with_default_perps,
    with_outcome_side, with_outcome_sides, with_outcomes, with_spot_market, with_spot_markets,
    DataModel,
};
use crate::records::OutcomeMarketRecordView;
use crate::text::{decimal, lemma_trim_idempotent, trim};

verus! {

/// Outcome numbers below this keep their encodings below the asset-id
/// offset.
pub open spec fn outcome_number_bound() -> u32 {
    10_000_000
}

/// `rec` is the record of encoding `e`.
pub open spec fn record_of_encoding(rec: OutcomeMarketRecordView, e: u32) -> bool {
    &&& rec.encoding == e
    &&& rec.coin == coin_name(e)
    &&& rec.token_name == token_name(e)
    &&& rec.asset_id == e + OUTCOME_ASSET_ID_OFFSET
    &&& rec.outcome_id == e / 10
    &&& rec.side_index == e % 10
}

/// Every alias leads to the coin of the encoding it denotes, whose record
/// is stored.
pub open spec fn alias_table_sound(d: DataModel) -> bool {
    forall|k: Seq<char>|
        #[trigger] d.outcome_alias_to_coin.contains_key(k) ==> match identifier_encoding(k) {
            Some(e) => {
                &&& e < OUTCOME_ASSET_ID_OFFSET
                &&& d.outcome_alias_to_coin[k] == coin_name(e)
                &&& d.outcome_markets_by_coin.contains_key(coin_name(e))
                &&& record_of_encoding(d.outcome_markets_by_coin[coin_name(e)], e)
            },
            None => false,
        }
}

/// Every alias of the coin of `e` is in the alias table.
pub open spec fn encoding_present(d: DataModel, e: u32) -> bool {
    forall|k: Seq<char>| #[trigger] alias_candidates(coin_name(e)).contains(k) ==> d.outcome_alias_to_coin.contains_key(k)
}

proof fn lemma_unique_names_from(values: Seq<Seq<char>>, k: Seq<char>)
    requires
        unique_name_seq(values).contains(k),
    ensures
        exists|i: int| 0 <= i < values.len() && k == trim(#[trigger] values[i]),
    decreases values.len(),
{
    let prev = unique_name_seq(values.drop_last());
    if prev.contains(k) {
        lemma_unique_names_from(values.drop_last(), k);
        let i = choose|i: int| 0 <= i < values.drop_last().len() && k == trim(#[trigger] values.drop_last()[i]);
        assert(values[i] == values.drop_last()[i]);
    } else {
        assert(k == trim(values[values.len() - 1]));
    }
}

proof fn lemma_unique_names_has(values: Seq<Seq<char>>, i: int)
    requires
        0 <= i < values.len(),
        trim(values[i]).len() > 0,
    ensures
        unique_name_seq(values).contains(trim(values[i])),
    decreases values.len(),
{
    if i < values.len() - 1 {
        lemma_unique_names_has(values.drop_last(), i);
        assert(values.drop_last()[i] == values[i]);
        let prev = unique_name_seq(values.drop_last());
        let j = choose|j: int| 0 <= j < prev.len() && prev[j] == trim(values[i]);
        let t = trim(values.last());
        if !(t.len() == 0 || prev.contains(t)) {
            assert(prev.push(t)[j] == prev[j]);
        }
    } else {
        let prev = unique_name_seq(values.drop_last());
        let t = trim(values.last());
        if !prev.contains(t) {
            assert(prev.push(t)[prev.len() as int] == t);
        }
    }
}

/// A valid encoding below the offset.
pub open spec fn small_encoding(e: u32) -> bool {
    &&& e / 10 >= 1
    &&& e % 10 <= 1
    &&& e < OUTCOME_ASSET_ID_OFFSET
}

/// The names whose candidates are the aliases of an identifier denoting `e`.
proof fn lemma_forms(e: u32)
    requires
        small_encoding(e),
    ensures
        encoding_asset_id(e) == Some((e + OUTCOME_ASSET_ID_OFFSET) as u32),
        identifier_encoding(coin_name(e)) == Some(e),
        identifier_encoding(token_name(e)) == Some(e),
        identifier_encoding(decimal(e as nat)) == Some(e),
        identifier_encoding(decimal((e + OUTCOME_ASSET_ID_OFFSET) as nat)) == Some(e),
        trim(coin_name(e)) == coin_name(e),
        trim(token_name(e)) == token_name(e),
        trim(decimal(e as nat)) == decimal(e as nat),
        trim(decimal((e + OUTCOME_ASSET_ID_OFFSET) as nat)) == decimal((e + OUTCOME_ASSET_ID_OFFSET) as nat),
        coin_name(e).len() > 0,
{
    let o = e / 10;
    let s = e % 10;
    assert(e == 10 * o + s);
    law_outcome_identifier_forms(o, s);
    // every form is its own trim, since it is read back unchanged
    lemma_trim_idempotent(coin_name(e));
    crate::text::lemma_decimal(e as nat);
    crate::text::lemma_decimal((e + OUTCOME_ASSET_ID_OFFSET) as nat);
    lemma_self_trimmed(coin_name(e));
    lemma_self_trimmed(token_name(e));
    lemma_self_trimmed(decimal(e as nat));
    lemma_self_trimmed(decimal((e + OUTCOME_ASSET_ID_OFFSET) as nat));
}

proof fn lemma_self_trimmed(s: Seq<char>)
    requires
        s.len() > 0,
        s[0] == '#' || s[0] == '+' || crate::text::is_ascii_digit(s[0]),
        crate::text::is_ascii_digit(s.last()),
    ensures
        trim(s) == s,
{
    crate::text::lemma_trim_unchanged(s);
}

/// Every alias candidate of an identifier denoting `e` denotes `e`, and the
/// coin of `e` is among them.
proof fn lemma_candidates(v: Seq<char>, e: u32)
    requires
        small_encoding(e),
        identifier_encoding(v) == Some(e),
    ensures
        forall|k: Seq<char>| #[trigger] alias_candidates(v).contains(k) ==> identifier_encoding(k) == Some(e),
        alias_candidates(v).contains(coin_name(e)),
{
    lemma_forms(e);
    let t = trim(v);
    lemma_trim_idempotent(v);
    assert(identifier_encoding(t) == Some(e));
    let a = (e + OUTCOME_ASSET_ID_OFFSET) as u32;
    let x = seq![t, coin_name(e), token_name(e), decimal(e as nat), decimal(a as nat)];
    assert(alias_candidates(v) == unique_name_seq(x));
    assert forall|k: Seq<char>| #[trigger] alias_candidates(v).contains(k) implies identifier_encoding(k) == Some(e) by {
        lemma_unique_names_from(x, k);
        let i = choose|i: int| 0 <= i < x.len() && k == trim(#[trigger] x[i]);
        assert(i == 0 || i == 1 || i == 2 || i == 3 || i == 4);
    }
    assert(x[1] == coin_name(e));
    lemma_unique_names_has(x, 1);
}

proof fn lemma_first_hit(cands: Seq<Seq<char>>, table: Map<Seq<char>, Seq<char>>, c: Seq<char>)
    requires
        exists|i: int| 0 <= i < cands.len() && table.contains_key(#[trigger] cands[i]),
        forall|i: int| 0 <= i < cands.len() && table.contains_key(#[trigger] cands[i]) ==> table[cands[i]] == c,
    ensures
        first_alias_hit(cands, table) == Some(c),
    decreases cands.len(),
{
    if !table.contains_key(cands[0]) {
        let rest = cands.drop_first();
        let i = choose|i: int| 0 <= i < cands.len() && table.contains_key(#[trigger] cands[i]);
        assert(rest[i - 1] == cands[i]);
        assert forall|j: int| 0 <= j < rest.len() && table.contains_key(#[trigger] rest[j]) implies table[rest[j]] == c by {
            assert(rest[j] == cands[j + 1]);
        }
        lemma_first_hit(rest, table, c);
    }
}

/// In a sound alias table where `e` is present, an identifier denoting `e`
/// resolves to the record of `e`.
proof fn lemma_resolves(d: DataModel, v: Seq<char>, e: u32)
    requires
        small_encoding(e),
        identifier_encoding(v) == Some(e),
        alias_table_sound(d),
        encoding_present(d, e),
    ensures
        resolved_market(d, v) matches Some(rec) && record_of_encoding(rec, e),
{
    lemma_candidates(v, e);
    lemma_candidates(coin_name(e), e);
    lemma_forms(e);
    let cands = alias_candidates(v);
    let table = d.outcome_alias_to_coin;
    let j = choose|j: int| 0 <= j < cands.len() && cands[j] == coin_name(e);
    assert(table.contains_key(cands[j]));
    assert forall|i: int| 0 <= i < cands.len() && table.contains_key(#[trigger] cands[i]) implies table[cands[i]] == coin_name(e) by {
        assert(cands.contains(cands[i]));
    }
    lemma_first_hit(cands, table, coin_name(e));
    assert(table.contains_key(coin_name(e)));
}

/// One outcome side keeps the alias table sound, keeps every present
/// encoding present, and makes its own encoding present.
proof fn lemma_side_step(
    d: DataModel,
    out: OutcomeMetaOutcome,
    side: u32,
    qs: Seq<OutcomeQuestion>,
    mids: Option<Map<Seq<char>, Seq<char>>>,
)
    requires
        alias_table_sound(d),
        out.outcome < outcome_number_bound(),
        side <= 1,
    ensures
        alias_table_sound(with_outcome_side(d, out, side, qs, mids)),
        forall|e2: u32| encoding_present(d, e2) ==> #[trigger] encoding_present(with_outcome_side(d, out, side, qs, mids), e2),
        out.outcome >= 1 ==> encoding_present(with_outcome_side(d, out, side, qs, mids), (10 * out.outcome + side) as u32),
{
    let e = side_encoding(out.outcome, side);
    assert(e == 10 * out.outcome + side);
    let d2 = with_outcome_side(d, out, side, qs, mids);
    if out.outcome >= 1 {
        assert(e / 10 == out.outcome && e % 10 == side);
        lemma_forms(e);
        lemma_candidates(coin_name(e), e);
        let coin = coin_name(e);
        let rec = outcome_record(out, side, qs, mids);
        assert(record_of_encoding(rec, e));
        assert forall|k: Seq<char>| #[trigger] d2.outcome_alias_to_coin.contains_key(k) implies match identifier_encoding(k) {
            Some(e1) => {
                &&& e1 < OUTCOME_ASSET_ID_OFFSET
                &&& d2.outcome_alias_to_coin[k] == coin_name(e1)
                &&& d2.outcome_markets_by_coin.contains_key(coin_name(e1))
                &&& record_of_encoding(d2.outcome_markets_by_coin[coin_name(e1)], e1)
            },
            None => false,
        } by {
            if alias_candidates(coin).to_set().contains(k) {
                assert(alias_candidates(coin).contains(k));
            } else {
                assert(d.outcome_alias_to_coin.contains_key(k));
                let e1 = identifier_encoding(k)->0;
                if coin_name(e1) == coin {
                    lemma_forms_any(e1);
                }
            }
        }
        assert forall|e2: u32| encoding_present(d, e2) implies #[trigger] encoding_present(d2, e2) by {
            assert forall|k: Seq<char>| #[trigger] alias_candidates(coin_name(e2)).contains(k) implies d2.outcome_alias_to_coin.contains_key(k) by {
                assert(d.outcome_alias_to_coin.contains_key(k));
            }
        }
        assert forall|k: Seq<char>| #[trigger] alias_candidates(coin_name(e)).contains(k) implies d2.outcome_alias_to_coin.contains_key(k) by {
            assert(alias_candidates(coin).to_set().contains(k));
        }
    } else {
        assert(encoding_asset_id(e) is None);
    }
}

proof fn lemma_sides(
    d: DataModel,
    out: OutcomeMetaOutcome,
    n: nat,
    qs: Seq<OutcomeQuestion>,
    mids: Option<Map<Seq<char>, Seq<char>>>,
)
    requires
        alias_table_sound(d),
        out.outcome < outcome_number_bound(),
        n <= 2,
    ensures
        alias_table_sound(with_outcome_sides(d, out, n, qs, mids)),
        forall|e2: u32| encoding_present(d, e2) ==> #[trigger] encoding_present(with_outcome_sides(d, out, n, qs, mids), e2),
        forall|s: u32| s < n && out.outcome >= 1 ==> #[trigger] encoding_present(with_outcome_sides(d, out, n, qs, mids), (10 * out.outcome + s) as u32),
    decreases n,
{
    if n > 0 {
        lemma_sides(d, out, (n - 1) as nat, qs, mids);
        let prev = with_outcome_sides(d, out, (n - 1) as nat, qs, mids);
        lemma_side_step(prev, out, (n - 1) as u32, qs, mids);
    }
}

proof fn lemma_outcomes(
    d: DataModel,
    outs: Seq<OutcomeMetaOutcome>,
    qs: Seq<OutcomeQuestion>,
    mids: Option<Map<Seq<char>, Seq<char>>>,
)
    requires
        alias_table_sound(d),
        forall|i: int| 0 <= i < outs.len() ==> (#[trigger] outs[i]).outcome < outcome_number_bound(),
    ensures
        alias_table_sound(with_outcomes(d, outs, qs, mids)),
        forall|j: int, s: u32|
            0 <= j < outs.len() && s < indexed_sides(outs[j]) && outs[j].outcome >= 1
                ==> #[trigger] encoding_present(with_outcomes(d, outs, qs, mids), (10 * (#[trigger] outs[j]).outcome + s) as u32),
    decreases outs.len(),
{
    if outs.len() > 0 {
        let rest = outs.drop_last();
        assert forall|i: int| 0 <= i < rest.len() implies (#[trigger] rest[i]).outcome < outcome_number_bound() by {
            assert(rest[i] == outs[i]);
        }
        lemma_outcomes(d, rest, qs, mids);
        let prev = with_outcomes(d, rest, qs, mids);
        let out = outs.last();
        assert(out == outs[outs.len() - 1]);
        lemma_sides(prev, out, indexed_sides(out), qs, mids);
        assert forall|j: int, s: u32|
            0 <= j < outs.len() && s < indexed_sides(outs[j]) && outs[j].outcome >= 1
                implies #[trigger] encoding_present(with_outcomes(d, outs, qs, mids), (10 * (#[trigger] outs[j]).outcome + s) as u32) by {
            if j < outs.len() - 1 {
                assert(rest[j] == outs[j]);
                assert(encoding_present(prev, (10 * rest[j].outcome + s) as u32));
            }
        }
    }
}

pub(crate) proof fn lemma_built_has_no_outcomes(meta: Meta, spot_meta: SpotMeta, builder_metas: Seq<(usize, String, Meta)>)
    ensures
        built_model(meta, spot_meta, builder_metas).outcome_alias_to_coin == Map::<Seq<char>, Seq<char>>::empty(),
        built_model(meta, spot_meta, builder_metas).outcome_markets_by_coin == Map::<Seq<char>, crate::records::OutcomeMarketRecordView>::empty(),
{
    lemma_perps_keep_outcomes(empty_model(), meta.universe@);
    let p = with_default_perps(empty_model(), meta.universe@);
    lemma_spots_keep_outcomes(p, spot_meta.tokens@, spot_meta.universe@);
    let q = with_spot_markets(p, spot_meta.tokens@, spot_meta.universe@);
    lemma_builders_keep_outcomes(q, builder_metas);
}

pub(crate) proof fn lemma_perps_keep_outcomes(d: DataModel, u: Seq<crate::meta::AssetMeta>)
    ensures
        with_default_perps(d, u).outcome_alias_to_coin == d.outcome_alias_to_coin,
        with_default_perps(d, u).outcome_markets_by_coin == d.outcome_markets_by_coin,
        with_default_perps(d, u).spot_pair_to_symbol == d.spot_pair_to_symbol,
        with_default_perps(d, u).symbol_to_spot_pair == d.symbol_to_spot_pair,
    decreases u.len(),
{
    if u.len() > 0 {
        lemma_perps_keep_outcomes(d, u.drop_last());
    }
}

pub(crate) proof fn lemma_spots_keep_outcomes(d: DataModel, t: Seq<crate::meta::TokenInfo>, u: Seq<crate::meta::SpotAssetMeta>)
    ensures
        with_spot_markets(d, t, u).outcome_alias_to_coin == d.outcome_alias_to_coin,
        with_spot_markets(d, t, u).outcome_markets_by_coin == d.outcome_markets_by_coin,
    decreases u.len(),
{
    if u.len() > 0 {
        lemma_spots_keep_outcomes(d, t, u.drop_last());
    }
}

proof fn lemma_builder_assets_keep_outcomes(d: DataModel, dex: Seq<char>, offset: u32, u: Seq<crate::meta::AssetMeta>)
    ensures
        with_builder_assets(d, dex, offset, u).outcome_alias_to_coin == d.outcome_alias_to_coin,
        with_builder_assets(d, dex, offset, u).outcome_markets_by_coin == d.outcome_markets_by_coin,
        with_builder_assets(d, dex, offset, u).spot_pair_to_symbol == d.spot_pair_to_symbol,
        with_builder_assets(d, dex, offset, u).symbol_to_spot_pair == d.symbol_to_spot_pair,
    decreases u.len(),
{
    if u.len() > 0 {
        lemma_builder_assets_keep_outcomes(d, dex, offset, u.drop_last());
    }
}

pub(crate) proof fn lemma_builders_keep_outcomes(d: DataModel, b: Seq<(usize, String, Meta)>)
    ensures
        with_builder_dexs(d, b).outcome_alias_to_coin == d.outcome_alias_to_coin,
        with_builder_dexs(d, b).outcome_markets_by_coin == d.outcome_markets_by_coin,
        with_builder_dexs(d, b).spot_pair_to_symbol == d.spot_pair_to_symbol,
        with_builder_dexs(d, b).symbol_to_spot_pair == d.symbol_to_spot_pair,
    decreases b.len(),
{
    if b.len() > 0 {
        lemma_builders_keep_outcomes(d, b.drop_last());
        let prev = with_builder_dexs(d, b.drop_last());
        let x = b.last();
        if trim(x.1@).len() > 0 {
            lemma_builder_assets_keep_outcomes(prev, trim(x.1@), crate::model::builder_offset(x.0) as u32, x.2.universe@);
        }
    }
}

/// The store built with outcomes finds every indexed outcome side by any
/// of its identifiers: when every outcome number is below ten million,
/// for outcome `o >= 1` and one of its first two sides `s`, any identifier
/// that denotes `e = 10 * o + s` (such as `#e`, `+e`, `e` or
/// `100000000 + e`) resolves to the record with encoding `e`, coin `#e`,
/// token `+e`, asset id `100000000 + e`, outcome `o` and side `s`.
pub proof fn law_outcome_markets_resolve_by_any_identifier(
    meta: Meta,
    spot_meta: SpotMeta,
    builder_metas: Seq<(usize, String, Meta)>,
    outcome_meta: OutcomeMetaResponse,
    mids: Option<Map<Seq<char>, Seq<char>>>,
    j: int,
    side: u32,
    identifier: Seq<char>,
)
    requires
        forall|i: int|
            0 <= i < outcome_meta.outcomes@.len() ==> (#[trigger] outcome_meta.outcomes@[i]).outcome
                < outcome_number_bound(),
        0 <= j < outcome_meta.outcomes@.len(),
        outcome_meta.outcomes@[j].outcome >= 1,
        side < indexed_sides(outcome_meta.outcomes@[j]),
        identifier_encoding(identifier) == Some((10 * outcome_meta.outcomes@[j].outcome + side) as u32),
    ensures
        ({
            let o = outcome_meta.outcomes@[j].outcome;
            let e = (10 * o + side) as u32;
            let d = with_outcomes(
                built_model(meta, spot_meta, builder_metas),
                outcome_meta.outcomes@,
                outcome_meta.questions@,
                mids,
            );
            &&& resolved_market(d, identifier) matches Some(rec)
            &&& rec.encoding == e
            &&& rec.coin == coin_name(e)
            &&& rec.token_name == token_name(e)
            &&& rec.asset_id == e + OUTCOME_ASSET_ID_OFFSET
            &&& rec.outcome_id == o
            &&& rec.side_index == side
        }),
{
    let o = outcome_meta.outcomes@[j].outcome;
    let e = (10 * o + side) as u32;
    let base = built_model(meta, spot_meta, builder_metas);
    lemma_built_has_no_outcomes(meta, spot_meta, builder_metas);
    assert(alias_table_sound(base));
    lemma_outcomes(base, outcome_meta.outcomes@, outcome_meta.questions@, mids);
    let d = with_outcomes(base, outcome_meta.outcomes@, outcome_meta.questions@, mids);
    assert(encoding_present(d, e));
    assert(e / 10 == o && e % 10 == side);
    lemma_resolves(d, identifier, e);
}

/// The coin of an encoding in a sound table names that encoding.
proof fn lemma_forms_any(e: u32)
    requires
        e < OUTCOME_ASSET_ID_OFFSET,
        e / 10 >= 1,
        e % 10 <= 1,
    ensures
        identifier_encoding(coin_name(e)) == Some(e),
{
    lemma_forms(e);
}

} // verus!
