//! The exchange metadata that the store is built from: perpetual universes,
//! spot tokens and pairs, builder DEXs and HIP-4 outcome descriptions.

use vstd::prelude::*;

verus! {

/// A perpetual asset of a universe.
#[derive(Debug, Clone)]
pub struct AssetMeta {
    pub name: String,
    pub sz_decimals: u32,
    pub max_leverage: u32,
    pub only_isolated: Option<bool>,
}

/// A perpetual universe; an asset's position in it is its index.
#[derive(Debug, Clone)]
pub struct Meta {
    pub universe: Vec<AssetMeta>,
}

/// A spot token.
#[derive(Debug, Clone)]
pub struct TokenInfo {
    pub name: String,
    pub sz_decimals: u8,
    pub wei_decimals: u8,
    pub index: usize,
    pub token_id: [u8; 16],
    pub is_canonical: bool,
}

/// A spot pair: the indices of its base and quote tokens, its name and
/// its index.
#[derive(Debug, Clone)]
pub struct SpotAssetMeta {
    pub tokens: [usize; 2],
    pub name: String,
    pub index: usize,
    pub is_canonical: bool,
}

/// The spot universe and its tokens.
#[derive(Debug, Clone)]
pub struct SpotMeta {
    pub universe: Vec<SpotAssetMeta>,
    pub tokens: Vec<TokenInfo>,
}

/// A perpetual DEX as listed by the exchange.
#[derive(Debug, Clone)]
pub struct PerpDex {
    pub name: String,
}

/// One side of an outcome.
#[derive(Debug)]
pub struct OutcomeSideSpec {
    pub name: String,
    pub token: Option<u32>,
}

impl Clone for OutcomeSideSpec {
    fn clone(&self) -> (r: Self)
        ensures
            r == *self,
    {
        OutcomeSideSpec { name: self.name.clone(), token: self.token }
    }
}

/// A HIP-4 outcome with its sides.
#[derive(Debug)]
pub struct OutcomeMetaOutcome {
    pub outcome: u32,
    pub name: String,
    pub description: String,
    pub side_specs: Vec<OutcomeSideSpec>,
}

/// What an outcome holds, its sides as a sequence.
pub struct OutcomeMetaOutcomeView {
    pub outcome: u32,
    pub name: Seq<char>,
    pub description: Seq<char>,
    pub side_specs: Seq<OutcomeSideSpec>,
}

impl View for OutcomeMetaOutcome {
    type V = OutcomeMetaOutcomeView;

    open spec fn view(&self) -> OutcomeMetaOutcomeView {
        OutcomeMetaOutcomeView {
            outcome: self.outcome,
            name: self.name@,
            description: self.description@,
            side_specs: self.side_specs@,
        }
    }
}

impl Clone for OutcomeMetaOutcome {
    fn clone(&self) -> (r: Self)
        ensures
            r@ == self@,
    {
        let side_specs = self.side_specs.clone();
        proof {
            assert(side_specs@ =~= self.side_specs@);
        }
        OutcomeMetaOutcome {
            outcome: self.outcome,
            name: self.name.clone(),
            description: self.description.clone(),
            side_specs,
        }
    }
}

/// A question that groups outcomes.
#[derive(Debug)]
pub struct OutcomeQuestion {
    pub question: u32,
    pub name: String,
    pub description: String,
    pub fallback_outcome: u32,
    pub named_outcomes: Vec<u32>,
    pub settled_named_outcomes: Vec<u32>,
}

/// What a question holds, its outcome lists as sequences.
pub struct OutcomeQuestionView {
    pub question: u32,
    pub name: Seq<char>,
    pub description: Seq<char>,
    pub fallback_outcome: u32,
    pub named_outcomes: Seq<u32>,
    pub settled_named_outcomes: Seq<u32>,
}

impl View for OutcomeQuestion {
    type V = OutcomeQuestionView;

    open spec fn view(&self) -> OutcomeQuestionView {
        OutcomeQuestionView {
            question: self.question,
            name: self.name@,
            description: self.description@,
            fallback_outcome: self.fallback_outcome,
            named_outcomes: self.named_outcomes@,
            settled_named_outcomes: self.settled_named_outcomes@,
        }
    }
}

impl Clone for OutcomeQuestion {
    fn clone(&self) -> (r: Self)
        ensures
            r@ == self@,
    {
        let named_outcomes = self.named_outcomes.clone();
        let settled_named_outcomes = self.settled_named_outcomes.clone();
        proof {
            assert(named_outcomes@ =~= self.named_outcomes@);
            assert(settled_named_outcomes@ =~= self.settled_named_outcomes@);
        }
        OutcomeQuestion {
            question: self.question,
            name: self.name.clone(),
            description: self.description.clone(),
            fallback_outcome: self.fallback_outcome,
            named_outcomes,
            settled_named_outcomes,
        }
    }
}

/// The outcome metadata of the exchange.
#[derive(Debug)]
pub struct OutcomeMetaResponse {
    pub outcomes: Vec<OutcomeMetaOutcome>,
    pub questions: Vec<OutcomeQuestion>,
}

/// What the outcome metadata holds: its outcomes and questions, each by
/// its view.
pub struct OutcomeMetaResponseView {
    pub outcomes: Seq<OutcomeMetaOutcomeView>,
    pub questions: Seq<OutcomeQuestionView>,
}

impl View for OutcomeMetaResponse {
    type V = OutcomeMetaResponseView;

    open spec fn view(&self) -> OutcomeMetaResponseView {
        OutcomeMetaResponseView {
            outcomes: self.outcomes@.map_values(|o: OutcomeMetaOutcome| o@),
            questions: self.questions@.map_values(|q: OutcomeQuestion| q@),
        }
    }
}

impl Clone for OutcomeMetaResponse {
    fn clone(&self) -> (r: Self)
        ensures
            r@ == self@,
    {
        let outcomes = self.outcomes.clone();
        let questions = self.questions.clone();
        proof {
            assert(outcomes@.map_values(|o: OutcomeMetaOutcome| o@)
                =~= self.outcomes@.map_values(|o: OutcomeMetaOutcome| o@));
            assert(questions@.map_values(|q: OutcomeQuestion| q@)
                =~= self.questions@.map_values(|q: OutcomeQuestion| q@));
        }
        OutcomeMetaResponse { outcomes, questions }
    }
}

/// The view of an optional outcome response.
pub open spec fn opt_outcome_meta_view(m: Option<OutcomeMetaResponse>) -> Option<OutcomeMetaResponseView> {
    match m {
        Some(v) => Some(v@),
        None => None,
    }
}

} // verus!
