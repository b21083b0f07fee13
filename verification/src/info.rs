//! The info endpoint: where it is, how its websocket address is formed,
//! and the candle request.

use vstd::prelude::*;
use crate::identifiers::concat_str;

verus! {

/// The network an info client talks to.
#[derive(Debug, Clone, Copy)]
pub enum BaseUrl {
    Localhost,
    Testnet,
    Mainnet,
}

/// The HTTP address of a network.
pub open spec fn base_url_text(b: BaseUrl) -> Seq<char> {
    match b {
        BaseUrl::Localhost => "http://localhost:3001"@,
        BaseUrl::Testnet => "https://api.hyperliquid-testnet.xyz"@,
        BaseUrl::Mainnet => "https://api.hyperliquid.xyz"@,
    }
}

/// The websocket address of an HTTP address: `ws`, the address after its
/// first four characters (`http`), and `/ws`.
pub open spec fn ws_url_text(http: Seq<char>) -> Seq<char> {
    "ws"@ + http.skip(4) + "/ws"@
}

impl BaseUrl {
    /// The HTTP address of the network.
    pub fn get_url(&self) -> (r: String)
        ensures
            r@ == base_url_text(*self),
    {
        match self {
            BaseUrl::Localhost => "http://localhost:3001".to_owned(),
            BaseUrl::Testnet => "https://api.hyperliquid-testnet.xyz".to_owned(),
            BaseUrl::Mainnet => "https://api.hyperliquid.xyz".to_owned(),
        }
    }
}

/// The parameters of a candle snapshot request.
#[derive(Debug, Clone)]
pub struct CandleSnapshotRequest {
    coin: String,
    interval: String,
    start_time: u64,
    end_time: u64,
}

impl CandleSnapshotRequest {
    pub closed spec fn coin_view(self) -> Seq<char> {
        self.coin@
    }

    pub closed spec fn interval_view(self) -> Seq<char> {
        self.interval@
    }

    pub closed spec fn start_time_value(self) -> u64 {
        self.start_time
    }

    pub closed spec fn end_time_value(self) -> u64 {
        self.end_time
    }

    /// The request for the candles of `coin` at `interval` between the two
    /// times.
    pub fn new(coin: String, interval: String, start_time: u64, end_time: u64) -> (r: Self)
        ensures
            r.coin_view() == coin@,
            r.interval_view() == interval@,
            r.start_time_value() == start_time,
            r.end_time_value() == end_time,
    {
        CandleSnapshotRequest { coin, interval, start_time, end_time }
    }

    pub fn coin(&self) -> (r: &String)
        ensures
            r@ == self.coin_view(),
    {
        &self.coin
    }

    pub fn interval(&self) -> (r: &String)
        ensures
            r@ == self.interval_view(),
    {
        &self.interval
    }

    pub fn start_time(&self) -> (r: u64)
        ensures
            r == self.start_time_value(),
    {
        self.start_time
    }

    pub fn end_time(&self) -> (r: u64)
        ensures
            r == self.end_time_value(),
    {
        self.end_time
    }
}

/// A client of the info endpoint of one network.
#[derive(Debug)]
pub struct InfoClient {
    base_url: BaseUrl,
    reconnect: bool,
}

impl InfoClient {
    pub closed spec fn network(self) -> BaseUrl {
        self.base_url
    }

    pub closed spec fn reconnects(self) -> bool {
        self.reconnect
    }

    fn new_internal(base_url: Option<BaseUrl>, reconnect: bool) -> (r: InfoClient)
        ensures
            r.network() == (match base_url {
                Some(b) => b,
                None => BaseUrl::Mainnet,
            }),
            r.reconnects() == reconnect,
    {
        let base_url = match base_url {
            Some(b) => b,
            None => BaseUrl::Mainnet,
        };
        InfoClient { base_url, reconnect }
    }

    /// A client of `base_url` (mainnet when absent) whose websocket does
    /// not reconnect.
    pub fn new(base_url: Option<BaseUrl>) -> (r: InfoClient)
        ensures
            r.network() == (match base_url {
                Some(b) => b,
                None => BaseUrl::Mainnet,
            }),
            !r.reconnects(),
    {
        Self::new_internal(base_url, false)
    }

    /// A client of `base_url` (mainnet when absent) whose websocket
    /// reconnects.
    pub fn with_reconnect(base_url: Option<BaseUrl>) -> (r: InfoClient)
        ensures
            r.network() == (match base_url {
                Some(b) => b,
                None => BaseUrl::Mainnet,
            }),
            r.reconnects(),
    {
        Self::new_internal(base_url, true)
    }

    /// The HTTP address of the endpoint.
    pub fn base_url(&self) -> (r: String)
        ensures
            r@ == base_url_text(self.network()),
    {
        self.base_url.get_url()
    }

    /// Whether the websocket reconnects.
    pub fn reconnect(&self) -> (r: bool)
        ensures
            r == self.reconnects(),
    {
        self.reconnect
    }

    /// The websocket address: `wss://api.hyperliquid.xyz/ws` for mainnet.
    pub fn ws_url(&self) -> (r: String)
        ensures
            r@ == ws_url_text(base_url_text(self.network())),
    {
        let http = self.base_url.get_url();
        let len = http.as_str().unicode_len();
        proof {
            reveal_strlit("http://localhost:3001");
            reveal_strlit("https://api.hyperliquid-testnet.xyz");
            reveal_strlit("https://api.hyperliquid.xyz");
        }
        let rest = http.as_str().substring_char(4, len);
        let ws = concat_str("ws", rest);
        concat_str(ws.as_str(), "/ws")
    }
}

} // verus!
