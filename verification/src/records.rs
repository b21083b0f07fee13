//! Outcome market records and their abstract views.

use vstd::prelude::*;

verus! {

pub open spec fn opt_str_view(o: Option<String>) -> Option<Seq<char>> {
    match o {
        Some(s) => Some(s@),
        None => None,
    }
}

/// The string of an `Option<String>`, cloned.
pub fn clone_opt_string(o: &Option<String>) -> (r: Option<String>)
    ensures
        r == *o,
{
    match o {
        Some(s) => Some(s.clone()),
        None => None,
    }
}

/// One side of a HIP-4 outcome, as the store indexes it.
#[derive(Debug, PartialEq, Eq)]
pub struct OutcomeMarketRecord {
    pub coin: String,
    pub encoding: u32,
    pub token_name: String,
    pub asset_id: u32,
    pub outcome_id: u32,
    pub side_index: u32,
    pub side_name: String,
    pub outcome_name: String,
    pub outcome_description: String,
    pub question_id: Option<u32>,
    pub question_name: Option<String>,
    pub fallback_outcome: Option<u32>,
    pub is_settled: bool,
    pub mid: Option<String>,
}

/// What an order needs to know of an outcome side.
#[derive(Debug, PartialEq, Eq)]
pub struct OutcomeOrderInfo {
    pub coin: String,
    pub encoding: u32,
    pub token_name: String,
    pub asset_id: u32,
    pub outcome_id: u32,
    pub side_index: u32,
    pub side_name: String,
    pub outcome_name: String,
    pub mid: Option<String>,
}

/// The abstract value of an `OutcomeMarketRecord`: its strings as
/// character sequences.
pub struct OutcomeMarketRecordView {
    pub coin: Seq<char>,
    pub encoding: u32,
    pub token_name: Seq<char>,
    pub asset_id: u32,
    pub outcome_id: u32,
    pub side_index: u32,
    pub side_name: Seq<char>,
    pub outcome_name: Seq<char>,
    pub outcome_description: Seq<char>,
    pub question_id: Option<u32>,
    pub question_name: Option<Seq<char>>,
    pub fallback_outcome: Option<u32>,
    pub is_settled: bool,
    pub mid: Option<Seq<char>>,
}

impl View for OutcomeMarketRecord {
    type V = OutcomeMarketRecordView;

    open spec fn view(&self) -> OutcomeMarketRecordView {
        OutcomeMarketRecordView {
            coin: self.coin@,
            encoding: self.encoding,
            token_name: self.token_name@,
            asset_id: self.asset_id,
            outcome_id: self.outcome_id,
            side_index: self.side_index,
            side_name: self.side_name@,
            outcome_name: self.outcome_name@,
            outcome_description: self.outcome_description@,
            question_id: self.question_id,
            question_name: opt_str_view(self.question_name),
            fallback_outcome: self.fallback_outcome,
            is_settled: self.is_settled,
            mid: opt_str_view(self.mid),
        }
    }
}

impl Clone for OutcomeMarketRecord {
    fn clone(&self) -> (r: Self)
        ensures
            r == *self,
    {
        OutcomeMarketRecord {
            coin: self.coin.clone(),
            encoding: self.encoding,
            token_name: self.token_name.clone(),
            asset_id: self.asset_id,
            outcome_id: self.outcome_id,
            side_index: self.side_index,
            side_name: self.side_name.clone(),
            outcome_name: self.outcome_name.clone(),
            outcome_description: self.outcome_description.clone(),
            question_id: self.question_id,
            question_name: clone_opt_string(&self.question_name),
            fallback_outcome: self.fallback_outcome,
            is_settled: self.is_settled,
            mid: clone_opt_string(&self.mid),
        }
    }
}

impl Clone for OutcomeOrderInfo {
    fn clone(&self) -> (r: Self)
        ensures
            r == *self,
    {
        OutcomeOrderInfo {
            coin: self.coin.clone(),
            encoding: self.encoding,
            token_name: self.token_name.clone(),
            asset_id: self.asset_id,
            outcome_id: self.outcome_id,
            side_index: self.side_index,
            side_name: self.side_name.clone(),
            outcome_name: self.outcome_name.clone(),
            mid: clone_opt_string(&self.mid),
        }
    }
}

} // verus!
