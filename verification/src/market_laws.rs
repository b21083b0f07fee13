//! What the outcome records, the spot pair tables and the mid overlay hold,
//! stated over the exchange metadata they come from.

use vstd::prelude::*;
use crate::identifiers::normal_spot_pair_id;
use crate::market_meta_store::built_model;
use crate::meta::{Meta, OutcomeMetaOutcome, OutcomeQuestion, SpotAssetMeta, SpotMeta, TokenInfo};
use crate::model::{
    last_token, resolve_alias, side_encoding, with_mid, with_mids, with_outcome_side,
    with_outcome_sides, with_outcomes, with_spot_market, with_spot_markets, DataModel,
};
use crate::outcome_laws::{lemma_built_has_no_outcomes, lemma_builders_keep_outcomes};
use crate::records::OutcomeMarketRecordView;
use crate::text::{decimal, trim};

verus! {

/// Question `q` lists outcome `o`: as its fallback, among its named
/// outcomes or among its settled ones.
pub open spec fn question_lists(q: OutcomeQuestion, o: u32) -> bool {
    q.fallback_outcome == o || q.named_outcomes@.contains(o) || q.settled_named_outcomes@.contains(o)
}

/// Every record of `m` carries the first question of `qs` that lists its
/// outcome (its id, name and fallback outcome, and whether it settled the
/// outcome), or no question when none lists it.
pub open spec fn records_follow_questions(
    m: Map<Seq<char>, OutcomeMarketRecordView>,
    qs: Seq<OutcomeQuestion>,
) -> bool {
    forall|c: Seq<char>| #[trigger] m.contains_key(c) ==> {
        let r = m[c];
        &&& (forall|j: int| 0 <= j < qs.len() ==> !question_lists(#[trigger] qs[j], r.outcome_id)) ==> {
            &&& r.question_id is None
            &&& r.question_name is None
            &&& r.fallback_outcome is None
            &&& !r.is_settled
        }
        &&& forall|j: int|
            0 <= j < qs.len() && question_lists(#[trigger] qs[j], r.outcome_id) && (forall|j2: int|
                0 <= j2 < j ==> !question_lists(qs[j2], r.outcome_id)) ==> {
                &&& r.question_id == Some(qs[j].question)
                &&& r.question_name == Some(qs[j].name@)
                &&& r.fallback_outcome == Some(qs[j].fallback_outcome)
                &&& r.is_settled == qs[j].settled_named_outcomes@.contains(r.outcome_id)
            }
    }
}

proof fn lemma_first_question(qs: Seq<OutcomeQuestion>, o: u32)
    ensures
        (forall|j: int| 0 <= j < qs.len() ==> !question_lists(#[trigger] qs[j], o))
            ==> crate::model::question_for(qs, o) is None,
        forall|j: int|
            0 <= j < qs.len() && question_lists(#[trigger] qs[j], o) && (forall|j2: int|
                0 <= j2 < j ==> !question_lists(qs[j2], o)) ==> crate::model::question_for(qs, o) == Some(qs[j]),
    decreases qs.len(),
{
    if qs.len() > 0 {
        let rest = qs.drop_first();
        lemma_first_question(rest, o);
        if forall|j: int| 0 <= j < qs.len() ==> !question_lists(#[trigger] qs[j], o) {
            assert(!question_lists(qs[0], o));
            assert forall|j: int| 0 <= j < rest.len() implies !question_lists(#[trigger] rest[j], o) by {
                assert(rest[j] == qs[j + 1]);
                assert(!question_lists(qs[j + 1], o));
            }
        }
        assert forall|j: int|
            0 <= j < qs.len() && question_lists(#[trigger] qs[j], o) && (forall|j2: int|
                0 <= j2 < j ==> !question_lists(qs[j2], o)) implies crate::model::question_for(qs, o) == Some(qs[j]) by {
            if j > 0 {
                assert(!question_lists(qs[0], o));
                assert(rest[j - 1] == qs[j]);
                assert forall|j2: int| 0 <= j2 < j - 1 implies !question_lists(rest[j2], o) by {
                    assert(rest[j2] == qs[j2 + 1]);
                }
                assert(question_lists(rest[j - 1], o));
            }
        }
    }
}

proof fn lemma_side_follows(
    d: DataModel,
    out: OutcomeMetaOutcome,
    side: u32,
    qs: Seq<OutcomeQuestion>,
    mids: Option<Map<Seq<char>, Seq<char>>>,
)
    requires
        records_follow_questions(d.outcome_markets_by_coin, qs),
    ensures
        records_follow_questions(with_outcome_side(d, out, side, qs, mids).outcome_markets_by_coin, qs),
{
    lemma_first_question(qs, out.outcome);
    let m = with_outcome_side(d, out, side, qs, mids).outcome_markets_by_coin;
    let e = side_encoding(out.outcome, side);
    assert forall|c: Seq<char>| #[trigger] m.contains_key(c) implies {
        let r = m[c];
        &&& (forall|j: int| 0 <= j < qs.len() ==> !question_lists(#[trigger] qs[j], r.outcome_id)) ==> {
            &&& r.question_id is None
            &&& r.question_name is None
            &&& r.fallback_outcome is None
            &&& !r.is_settled
        }
        &&& forall|j: int|
            0 <= j < qs.len() && question_lists(#[trigger] qs[j], r.outcome_id) && (forall|j2: int|
                0 <= j2 < j ==> !question_lists(qs[j2], r.outcome_id)) ==> {
                &&& r.question_id == Some(qs[j].question)
                &&& r.question_name == Some(qs[j].name@)
                &&& r.fallback_outcome == Some(qs[j].fallback_outcome)
                &&& r.is_settled == qs[j].settled_named_outcomes@.contains(r.outcome_id)
            }
    } by {
        if crate::identifiers::encoding_asset_id(e) is Some && c == crate::identifiers::coin_name(e) {
            assert(m[c] == crate::model::outcome_record(out, side, qs, mids));
        } else {
            assert(d.outcome_markets_by_coin.contains_key(c));
            assert(m[c] == d.outcome_markets_by_coin[c]);
        }
    }
}

proof fn lemma_sides_follow(
    d: DataModel,
    out: OutcomeMetaOutcome,
    n: nat,
    qs: Seq<OutcomeQuestion>,
    mids: Option<Map<Seq<char>, Seq<char>>>,
)
    requires
        records_follow_questions(d.outcome_markets_by_coin, qs),
    ensures
        records_follow_questions(with_outcome_sides(d, out, n, qs, mids).outcome_markets_by_coin, qs),
    decreases n,
{
    if n > 0 {
        lemma_sides_follow(d, out, (n - 1) as nat, qs, mids);
        lemma_side_follows(with_outcome_sides(d, out, (n - 1) as nat, qs, mids), out, (n - 1) as u32, qs, mids);
    }
}

proof fn lemma_outcomes_follow(
    d: DataModel,
    outs: Seq<OutcomeMetaOutcome>,
    qs: Seq<OutcomeQuestion>,
    mids: Option<Map<Seq<char>, Seq<char>>>,
)
    requires
        records_follow_questions(d.outcome_markets_by_coin, qs),
    ensures
        records_follow_questions(with_outcomes(d, outs, qs, mids).outcome_markets_by_coin, qs),
    decreases outs.len(),
{
    if outs.len() > 0 {
        lemma_outcomes_follow(d, outs.drop_last(), qs, mids);
        let out = outs.last();
        lemma_sides_follow(
            with_outcomes(d, outs.drop_last(), qs, mids),
            out,
            crate::model::indexed_sides(out),
            qs,
            mids,
        );
    }
}

/// Every outcome market of a built store belongs to the first question
/// that lists its outcome as fallback, named or settled outcome: the record
/// carries that question's id, name and fallback outcome, and is settled
/// exactly when the question lists the outcome among its settled ones. A
/// record whose outcome no question lists has no question and is not
/// settled.
pub proof fn law_outcome_records_follow_their_question(
    meta: Meta,
    spot_meta: SpotMeta,
    builder_metas: Seq<(usize, String, Meta)>,
    outcomes: Seq<OutcomeMetaOutcome>,
    questions: Seq<OutcomeQuestion>,
    mids: Option<Map<Seq<char>, Seq<char>>>,
)
    ensures
        records_follow_questions(
            with_outcomes(built_model(meta, spot_meta, builder_metas), outcomes, questions, mids).outcome_markets_by_coin,
            questions,
        ),
{
    let base = built_model(meta, spot_meta, builder_metas);
    lemma_built_has_no_outcomes(meta, spot_meta, builder_metas);
    assert(records_follow_questions(base.outcome_markets_by_coin, questions));
    lemma_outcomes_follow(base, outcomes, questions, mids);
}

/// `r` is the record of one of the first two sides of `out`: it carries
/// the outcome's number, name and description, the side's position and
/// name, and the mid that `mids` gives its coin, if any.
pub open spec fn describes_side(
    r: OutcomeMarketRecordView,
    out: OutcomeMetaOutcome,
    mids: Option<Map<Seq<char>, Seq<char>>>,
) -> bool {
    &&& r.outcome_id == out.outcome
    &&& r.side_index < 2
    &&& r.side_index < out.side_specs@.len()
    &&& r.side_name == out.side_specs@[r.side_index as int].name@
    &&& r.outcome_name == out.name@
    &&& r.outcome_description == out.description@
    &&& r.mid == match mids {
        Some(m) => if m.contains_key(r.coin) {
            Some(m[r.coin])
        } else {
            None
        },
        None => None,
    }
}

/// Every record of `m` is stored under its coin and describes a side of
/// one of `outs`.
pub open spec fn records_describe_sides(
    m: Map<Seq<char>, OutcomeMarketRecordView>,
    outs: Seq<OutcomeMetaOutcome>,
    mids: Option<Map<Seq<char>, Seq<char>>>,
) -> bool {
    forall|c: Seq<char>| #[trigger] m.contains_key(c) ==> {
        &&& m[c].coin == c
        &&& exists|t: int| 0 <= t < outs.len() && describes_side(m[c], #[trigger] outs[t], mids)
    }
}

proof fn lemma_sides_describe(
    d: DataModel,
    outs: Seq<OutcomeMetaOutcome>,
    t: int,
    n: nat,
    qs: Seq<OutcomeQuestion>,
    mids: Option<Map<Seq<char>, Seq<char>>>,
)
    requires
        0 <= t < outs.len(),
        n <= crate::model::indexed_sides(outs[t]),
        records_describe_sides(d.outcome_markets_by_coin, outs, mids),
    ensures
        records_describe_sides(with_outcome_sides(d, outs[t], n, qs, mids).outcome_markets_by_coin, outs, mids),
    decreases n,
{
    if n > 0 {
        let out = outs[t];
        lemma_sides_describe(d, outs, t, (n - 1) as nat, qs, mids);
        let prev = with_outcome_sides(d, out, (n - 1) as nat, qs, mids);
        let side = (n - 1) as u32;
        let m = with_outcome_side(prev, out, side, qs, mids).outcome_markets_by_coin;
        let e = side_encoding(out.outcome, side);
        assert forall|c: Seq<char>| #[trigger] m.contains_key(c) implies {
            &&& m[c].coin == c
            &&& exists|t2: int| 0 <= t2 < outs.len() && describes_side(m[c], #[trigger] outs[t2], mids)
        } by {
            if crate::identifiers::encoding_asset_id(e) is Some && c == crate::identifiers::coin_name(e) {
                assert(m[c] == crate::model::outcome_record(out, side, qs, mids));
                assert(describes_side(m[c], outs[t], mids));
            } else {
                assert(prev.outcome_markets_by_coin.contains_key(c));
                assert(m[c] == prev.outcome_markets_by_coin[c]);
            }
        }
    }
}

proof fn lemma_outcomes_describe(
    d: DataModel,
    outs: Seq<OutcomeMetaOutcome>,
    qs: Seq<OutcomeQuestion>,
    mids: Option<Map<Seq<char>, Seq<char>>>,
)
    requires
        d.outcome_markets_by_coin == Map::<Seq<char>, OutcomeMarketRecordView>::empty(),
    ensures
        records_describe_sides(with_outcomes(d, outs, qs, mids).outcome_markets_by_coin, outs, mids),
    decreases outs.len(),
{
    if outs.len() > 0 {
        let f = outs.drop_last();
        lemma_outcomes_describe(d, f, qs, mids);
        let prev = with_outcomes(d, f, qs, mids);
        let pm = prev.outcome_markets_by_coin;
        assert forall|c: Seq<char>| #[trigger] pm.contains_key(c) implies {
            &&& pm[c].coin == c
            &&& exists|t: int| 0 <= t < outs.len() && describes_side(pm[c], #[trigger] outs[t], mids)
        } by {
            let t = choose|t: int| 0 <= t < f.len() && describes_side(pm[c], #[trigger] f[t], mids);
            assert(f[t] == outs[t]);
        }
        assert(outs.last() == outs[outs.len() - 1]);
        lemma_sides_describe(prev, outs, outs.len() - 1, crate::model::indexed_sides(outs.last()), qs, mids);
    } else {
        assert(records_describe_sides(d.outcome_markets_by_coin, outs, mids));
    }
}

/// Every outcome market of a built store is stored under its coin and
/// is one of the first two sides of a listed outcome: it carries that
/// outcome's number, name and description, the side's position and name,
/// and the mid given for its coin while building, if any.
pub proof fn law_outcome_records_describe_listed_sides(
    meta: Meta,
    spot_meta: SpotMeta,
    builder_metas: Seq<(usize, String, Meta)>,
    outcomes: Seq<OutcomeMetaOutcome>,
    questions: Seq<OutcomeQuestion>,
    mids: Option<Map<Seq<char>, Seq<char>>>,
)
    ensures
        records_describe_sides(
            with_outcomes(built_model(meta, spot_meta, builder_metas), outcomes, questions, mids).outcome_markets_by_coin,
            outcomes,
            mids,
        ),
{
    lemma_built_has_no_outcomes(meta, spot_meta, builder_metas);
    lemma_outcomes_describe(built_model(meta, spot_meta, builder_metas), outcomes, questions, mids);
}

proof fn lemma_mids_dom(
    markets: Map<Seq<char>, OutcomeMarketRecordView>,
    table: Map<Seq<char>, Seq<char>>,
    coins: Seq<Seq<char>>,
    mids: Seq<Seq<char>>,
)
    ensures
        with_mids(markets, table, coins, mids).dom() == markets.dom(),
    decreases coins.len(),
{
    if coins.len() > 0 {
        lemma_mids_dom(markets, table, coins.drop_last(), mids);
        let n = coins.len() - 1;
        let prev = with_mids(markets, table, coins.drop_last(), mids);
        assert(with_mid(prev, table, coins[n], mids[n]).dom() =~= prev.dom());
    }
}

/// The last position of `coins` that resolves to `c`, if any: a position
/// `k` resolving to `c` with no later one doing so.
pub open spec fn last_resolving(
    table: Map<Seq<char>, Seq<char>>,
    coins: Seq<Seq<char>>,
    c: Seq<char>,
    k: int,
) -> bool {
    &&& 0 <= k < coins.len()
    &&& resolve_alias(table, coins[k]) == Some(c)
    &&& forall|k2: int| k < k2 < coins.len() ==> resolve_alias(table, #[trigger] coins[k2]) != Some(c)
}

/// No position of `coins` resolves to `c`.
pub open spec fn none_resolving(table: Map<Seq<char>, Seq<char>>, coins: Seq<Seq<char>>, c: Seq<char>) -> bool {
    forall|k: int| 0 <= k < coins.len() ==> resolve_alias(table, #[trigger] coins[k]) != Some(c)
}

proof fn lemma_mids_at(
    markets: Map<Seq<char>, OutcomeMarketRecordView>,
    table: Map<Seq<char>, Seq<char>>,
    coins: Seq<Seq<char>>,
    mids: Seq<Seq<char>>,
    c: Seq<char>,
)
    requires
        coins.len() <= mids.len(),
        markets.contains_key(c),
    ensures
        with_mids(markets, table, coins, mids).contains_key(c),
        with_mids(markets, table, coins, mids)[c] == (OutcomeMarketRecordView {
            mid: with_mids(markets, table, coins, mids)[c].mid,
            ..markets[c]
        }),
        none_resolving(table, coins, c) ==> with_mids(markets, table, coins, mids)[c] == markets[c],
        forall|k: int| #[trigger] last_resolving(table, coins, c, k)
            ==> with_mids(markets, table, coins, mids)[c].mid == Some(mids[k]),
    decreases coins.len(),
{
    if coins.len() > 0 {
        let n = coins.len() - 1;
        let front = coins.drop_last();
        lemma_mids_at(markets, table, front, mids, c);
        let prev = with_mids(markets, table, front, mids);
        let res = with_mids(markets, table, coins, mids);
        assert(res == with_mid(prev, table, coins[n], mids[n]));
        if resolve_alias(table, coins[n]) == Some(c) {
            assert(res[c] == OutcomeMarketRecordView { mid: Some(mids[n]), ..prev[c] });
            assert(!none_resolving(table, coins, c));
            assert forall|k: int| #[trigger] last_resolving(table, coins, c, k) implies res[c].mid == Some(mids[k]) by {
                if k < n {
                    assert(resolve_alias(table, coins[n]) != Some(c));
                }
            }
        } else {
            assert(res[c] == prev[c]);
            if none_resolving(table, coins, c) {
                assert forall|k: int| 0 <= k < front.len() implies resolve_alias(table, #[trigger] front[k]) != Some(c) by {
                    assert(front[k] == coins[k]);
                    assert(resolve_alias(table, coins[k]) != Some(c));
                }
            }
            assert forall|k: int| #[trigger] last_resolving(table, coins, c, k) implies res[c].mid == Some(mids[k]) by {
                assert(k < n);
                assert(front[k] == coins[k]);
                assert forall|k2: int| k < k2 < front.len() implies resolve_alias(table, #[trigger] front[k2]) != Some(c) by {
                    assert(front[k2] == coins[k2]);
                    assert(resolve_alias(table, coins[k2]) != Some(c));
                }
                assert(last_resolving(table, front, c, k));
            }
        }
    }
}

/// After the mids of `coins` are applied in order, every outcome market
/// that some coin resolves to carries the mid of the last coin that does,
/// and every other market is unchanged; nothing but the mid changes and no
/// market is added or removed.
pub proof fn law_applied_mids_follow_the_last_coin(
    markets: Map<Seq<char>, OutcomeMarketRecordView>,
    table: Map<Seq<char>, Seq<char>>,
    coins: Seq<Seq<char>>,
    mids: Seq<Seq<char>>,
)
    requires
        coins.len() <= mids.len(),
    ensures
        with_mids(markets, table, coins, mids).dom() == markets.dom(),
        forall|c: Seq<char>| #[trigger] markets.contains_key(c) ==> {
            &&& with_mids(markets, table, coins, mids)[c] == (OutcomeMarketRecordView {
                mid: with_mids(markets, table, coins, mids)[c].mid,
                ..markets[c]
            })
            &&& none_resolving(table, coins, c) ==> with_mids(markets, table, coins, mids)[c] == markets[c]
            &&& forall|k: int| #[trigger] last_resolving(table, coins, c, k)
                ==> with_mids(markets, table, coins, mids)[c].mid == Some(mids[k])
        },
{
    lemma_mids_dom(markets, table, coins, mids);
    assert forall|c: Seq<char>| #[trigger] markets.contains_key(c) implies {
        &&& with_mids(markets, table, coins, mids)[c] == (OutcomeMarketRecordView {
            mid: with_mids(markets, table, coins, mids)[c].mid,
            ..markets[c]
        })
        &&& none_resolving(table, coins, c) ==> with_mids(markets, table, coins, mids)[c] == markets[c]
        &&& forall|k: int| #[trigger] last_resolving(table, coins, c, k)
            ==> with_mids(markets, table, coins, mids)[c].mid == Some(mids[k])
    } by {
        lemma_mids_at(markets, table, coins, mids, c);
    }
}

/// Every pair id that the symbol table leads to has a symbol.
pub open spec fn pair_ids_have_symbols(d: DataModel) -> bool {
    forall|s: Seq<char>| #[trigger] d.symbol_to_spot_pair.contains_key(s)
        ==> d.spot_pair_to_symbol.contains_key(d.symbol_to_spot_pair[s])
}

proof fn lemma_spot_markets_pair_ids(d: DataModel, tokens: Seq<TokenInfo>, u: Seq<SpotAssetMeta>)
    requires
        pair_ids_have_symbols(d),
    ensures
        pair_ids_have_symbols(with_spot_markets(d, tokens, u)),
    decreases u.len(),
{
    if u.len() > 0 {
        lemma_spot_markets_pair_ids(d, tokens, u.drop_last());
        let prev = with_spot_markets(d, tokens, u.drop_last());
        let r = with_spot_market(prev, tokens, u.last());
        assert forall|s: Seq<char>| #[trigger] r.symbol_to_spot_pair.contains_key(s)
            implies r.spot_pair_to_symbol.contains_key(r.symbol_to_spot_pair[s]) by {
            if r.symbol_to_spot_pair[s] != prev.symbol_to_spot_pair[s] || !prev.symbol_to_spot_pair.contains_key(s) {
            } else {
                assert(prev.spot_pair_to_symbol.contains_key(prev.symbol_to_spot_pair[s]));
            }
        }
    }
}

/// The pair id that a spot pair is known by: its name, or its index when
/// the name is blank, with a bare number written `@n`.
pub open spec fn pair_id(m: SpotAssetMeta) -> Seq<char> {
    normal_spot_pair_id(if trim(m.name@).len() == 0 { decimal(m.index as nat) } else { m.name@ })
}

/// Token `bi` is the last token of `tokens` with index `idx`.
pub open spec fn last_token_at(tokens: Seq<TokenInfo>, idx: usize, bi: int) -> bool {
    &&& 0 <= bi < tokens.len()
    &&& tokens[bi].index == idx
    &&& forall|k: int| bi < k < tokens.len() ==> (#[trigger] tokens[k]).index != idx
}

proof fn lemma_last_token_at(tokens: Seq<TokenInfo>, idx: usize, bi: int)
    requires
        last_token_at(tokens, idx, bi),
    ensures
        last_token(tokens, idx) == Some(tokens[bi]),
    decreases tokens.len(),
{
    if bi < tokens.len() - 1 {
        let t = tokens.drop_last();
        assert(tokens[tokens.len() - 1].index != idx);
        assert forall|k: int| bi < k < t.len() implies (#[trigger] t[k]).index != idx by {
            assert(t[k] == tokens[k]);
        }
        lemma_last_token_at(t, idx, bi);
        assert(t[bi] == tokens[bi]);
    }
}

proof fn lemma_spot_prefix_keys(d: DataModel, tokens: Seq<TokenInfo>, u: Seq<SpotAssetMeta>, i: int, k: Seq<char>)
    requires
        0 <= i < u.len(),
        with_spot_markets(d, tokens, u.take(i + 1)).spot_pair_to_symbol.contains_key(k),
    ensures
        with_spot_markets(d, tokens, u).spot_pair_to_symbol.contains_key(k),
    decreases u.len(),
{
    if i + 1 == u.len() {
        assert(u.take(i + 1) =~= u);
    } else {
        assert(u.drop_last().take(i + 1) =~= u.take(i + 1));
        lemma_spot_prefix_keys(d, tokens, u.drop_last(), i, k);
    }
}

proof fn lemma_spot_unknown_tail(d: DataModel, tokens: Seq<TokenInfo>, u: Seq<SpotAssetMeta>, i: int)
    requires
        0 <= i < u.len(),
        forall|j: int| i < j < u.len() ==> last_token(tokens, (#[trigger] u[j]).tokens[0]) is None
            || last_token(tokens, u[j].tokens[1]) is None,
    ensures
        with_spot_markets(d, tokens, u) == with_spot_markets(d, tokens, u.take(i + 1)),
    decreases u.len(),
{
    if i + 1 == u.len() {
        assert(u.take(i + 1) =~= u);
    } else {
        let f = u.drop_last();
        assert(f.take(i + 1) =~= u.take(i + 1));
        assert forall|j: int| i < j < f.len() implies last_token(tokens, (#[trigger] f[j]).tokens[0]) is None
            || last_token(tokens, f[j].tokens[1]) is None by {
            assert(f[j] == u[j]);
        }
        lemma_spot_unknown_tail(d, tokens, f, i);
        assert(u.last() == u[u.len() - 1]);
    }
}

/// Every spot pair whose base and quote tokens are listed gets a symbol
/// under its pair id, so the pair id that any symbol leads to has a
/// symbol. When no later pair with listed tokens follows, the pair id's
/// symbol is `BASE/QUOTE`, named by the last listed token with each index.
pub proof fn law_spot_pairs_have_symbols(
    meta: Meta,
    spot_meta: SpotMeta,
    builder_metas: Seq<(usize, String, Meta)>,
    i: int,
    bi: int,
    qi: int,
)
    requires
        0 <= i < spot_meta.universe@.len(),
        last_token_at(spot_meta.tokens@, spot_meta.universe@[i].tokens[0], bi),
        last_token_at(spot_meta.tokens@, spot_meta.universe@[i].tokens[1], qi),
    ensures
        pair_ids_have_symbols(built_model(meta, spot_meta, builder_metas)),
        built_model(meta, spot_meta, builder_metas).spot_pair_to_symbol.contains_key(pair_id(spot_meta.universe@[i])),
        (forall|j: int| i < j < spot_meta.universe@.len() ==> unlisted(spot_meta.tokens@, #[trigger] spot_meta.universe@[j]))
            ==> built_model(meta, spot_meta, builder_metas).spot_pair_to_symbol[pair_id(spot_meta.universe@[i])]
            == spot_meta.tokens@[bi].name@ + seq!['/'] + spot_meta.tokens@[qi].name@,
{
    let tokens = spot_meta.tokens@;
    let u = spot_meta.universe@;
    let perps = crate::model::with_default_perps(crate::model::empty_model(), meta.universe@);
    crate::outcome_laws::lemma_perps_keep_outcomes(crate::model::empty_model(), meta.universe@);
    let spots = with_spot_markets(perps, tokens, u);
    lemma_builders_keep_outcomes(spots, builder_metas);
    assert(pair_ids_have_symbols(perps));
    lemma_spot_markets_pair_ids(perps, tokens, u);
    lemma_last_token_at(tokens, u[i].tokens[0], bi);
    lemma_last_token_at(tokens, u[i].tokens[1], qi);
    let pre = with_spot_markets(perps, tokens, u.take(i + 1));
    assert(u.take(i + 1).drop_last() =~= u.take(i));
    assert(u.take(i + 1).last() == u[i]);
    assert(pre.spot_pair_to_symbol.contains_key(pair_id(u[i])));
    lemma_spot_prefix_keys(perps, tokens, u, i, pair_id(u[i]));
    if forall|j: int| i < j < u.len() ==> unlisted(tokens, #[trigger] u[j]) {
        assert forall|j: int| i < j < u.len() implies last_token(tokens, (#[trigger] u[j]).tokens[0]) is None
            || last_token(tokens, u[j].tokens[1]) is None by {
            assert(unlisted(tokens, u[j]));
            if forall|t: int| 0 <= t < tokens.len() ==> (#[trigger] tokens[t]).index != u[j].tokens[0] {
                lemma_no_token(tokens, u[j].tokens[0]);
            } else {
                lemma_no_token(tokens, u[j].tokens[1]);
            }
        }
        lemma_spot_unknown_tail(perps, tokens, u, i);
    }
}

/// A spot pair one of whose tokens is not listed.
pub open spec fn unlisted(tokens: Seq<TokenInfo>, m: SpotAssetMeta) -> bool {
    (forall|t: int| 0 <= t < tokens.len() ==> (#[trigger] tokens[t]).index != m.tokens[0])
        || (forall|t: int| 0 <= t < tokens.len() ==> (#[trigger] tokens[t]).index != m.tokens[1])
}

proof fn lemma_no_token(tokens: Seq<TokenInfo>, idx: usize)
    requires
        forall|t: int| 0 <= t < tokens.len() ==> (#[trigger] tokens[t]).index != idx,
    ensures
        last_token(tokens, idx) is None,
    decreases tokens.len(),
{
    if tokens.len() > 0 {
        let f = tokens.drop_last();
        assert(tokens[tokens.len() - 1].index != idx);
        assert forall|t: int| 0 <= t < f.len() implies (#[trigger] f[t]).index != idx by {
            assert(f[t] == tokens[t]);
        }
        lemma_no_token(f, idx);
    }
}

} // verus!
