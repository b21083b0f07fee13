//! Market metadata for Hyperliquid: the tables from every name of a market
//! to its asset id, size decimals, spot pair and mid key; HIP-4 outcome
//! identifiers and outcome markets; and the info endpoint's addresses.

pub mod text;
pub mod identifiers;
pub mod str_map;
pub mod meta;
pub mod records;
pub mod model;
pub mod outcome_index;
pub mod market_meta_store;
pub mod info;
pub mod builder_dexs;
pub mod error;
pub mod laws;
pub mod outcome_laws;
pub mod market_laws;

pub use builder_dexs::{select_builder_dexs, MarketMetaStoreDexs};
pub use error::Error;
pub use identifiers::{outcome_encoding_from_identifier, resolve_outcome_asset_id_from_identifier};
pub use info::{BaseUrl, CandleSnapshotRequest, InfoClient};
pub use market_meta_store::{MarketMetaStore, MarketMetaStoreData, MarketMetaStoreOptions, RefreshInterval};
pub use meta::{
    AssetMeta, Meta, OutcomeMetaOutcome, OutcomeMetaResponse, OutcomeQuestion, OutcomeSideSpec,
    PerpDex, SpotAssetMeta, SpotMeta, TokenInfo,
};
pub use records::{OutcomeMarketRecord, OutcomeOrderInfo};
pub use str_map::StrMap;
