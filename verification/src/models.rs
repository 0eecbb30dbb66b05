//! Shared vocabulary: market events, orders, allocations and signer frames.
//!
//! Money is fixed-point micro-USD (`UsdMicro`), rates are micro-percent
//! (`PctMicro`), sentiment is micro-units in [-1, 1] scaled by 1_000_000,
//! and weights / confidences are parts per million.

use vstd::prelude::*;

verus! {

/// One micro-USD is 1e-6 USD.
pub type UsdMicro = i64;

/// One micro-percent is 1e-6 percent.
pub type PctMicro = i64;

/// Scale of dimensionless ratios (weights, confidences): parts per million.
pub const RATIO_SCALE: u64 = 1_000_000;

/// Discriminant of `MarketEvent`, used by the router to pick subscribers.
#[derive(Clone, Copy, Debug, PartialEq, Eq, Structural)]
pub enum EventType {
    Price,
    Social,
    Depth,
    Bridge,
    Funding,
    SolPrice,
}

/// Direction of an order.
#[derive(Clone, Copy, Debug, PartialEq, Eq, Structural)]
pub enum Side {
    Long,
    Short,
}

/// An immutable strategy description published by the registry; `params` is
/// an opaque configuration text that each strategy parses for itself.
#[derive(Debug, Clone, PartialEq)]
pub struct StrategySpec {
    pub id: String,
    pub family: String,
    pub params: String,
}

/// One entry of the allocation snapshot the meta-allocator publishes.
/// `weight` is in parts per million of the capital; `sharpe_ratio` is the
/// Sharpe proxy in micro-units.
#[derive(Debug, Clone, PartialEq)]
pub struct StrategyAllocation {
    pub id: String,
    pub weight: u64,
    pub sharpe_ratio: i64,
}

#[derive(Debug, Clone, PartialEq)]
pub struct PriceTick {
    pub token_address: String,
    pub price_usd: UsdMicro,
    pub volume_usd_1m: UsdMicro,
}

#[derive(Debug, Clone, PartialEq)]
pub struct SocialMention {
    pub token_address: String,
    pub source: String,
    /// Sentiment in [-1, 1], scaled by 1_000_000.
    pub sentiment: i64,
}

#[derive(Debug, Clone, PartialEq)]
pub struct DepthEvent {
    pub token_address: String,
    pub bid_price: UsdMicro,
    pub ask_price: UsdMicro,
    pub bid_size_usd: UsdMicro,
    pub ask_size_usd: UsdMicro,
}

#[derive(Debug, Clone, PartialEq)]
pub struct BridgeEvent {
    pub token_address: String,
    pub source_chain: String,
    pub destination_chain: String,
    pub volume_usd: UsdMicro,
}

#[derive(Debug, Clone, PartialEq)]
pub struct FundingEvent {
    pub token_address: String,
    pub funding_rate_pct: PctMicro,
    pub next_funding_time_sec: u64,
}

#[derive(Debug, Clone, PartialEq)]
pub struct SolPriceEvent {
    pub price_usd: UsdMicro,
}

/// Tagged union of everything the ingesters publish; every variant except
/// `SolPrice` carries the token it concerns.
#[derive(Debug, Clone, PartialEq)]
pub enum MarketEvent {
    Price(PriceTick),
    Social(SocialMention),
    Depth(DepthEvent),
    Bridge(BridgeEvent),
    Funding(FundingEvent),
    SolPrice(SolPriceEvent),
}

/// The token identifier of the reference SOL/USD mark.
pub const SOL_MINT: &'static str = "So11111111111111111111111111111111111111112";

impl MarketEvent {
    /// The routing discriminant of this event.
    pub open spec fn spec_get_type(&self) -> EventType {
        match self {
            MarketEvent::Price(_) => EventType::Price,
            MarketEvent::Social(_) => EventType::Social,
            MarketEvent::Depth(_) => EventType::Depth,
            MarketEvent::Bridge(_) => EventType::Bridge,
            MarketEvent::Funding(_) => EventType::Funding,
            MarketEvent::SolPrice(_) => EventType::SolPrice,
        }
    }

    pub fn get_type(&self) -> (r: EventType)
        ensures
            r == self.spec_get_type(),
    {
        match self {
            MarketEvent::Price(_) => EventType::Price,
            MarketEvent::Social(_) => EventType::Social,
            MarketEvent::Depth(_) => EventType::Depth,
            MarketEvent::Bridge(_) => EventType::Bridge,
            MarketEvent::Funding(_) => EventType::Funding,
            MarketEvent::SolPrice(_) => EventType::SolPrice,
        }
    }

    /// The token the event concerns; the SOL mark reports the SOL mint.
    pub open spec fn spec_token(&self) -> Seq<char> {
        match self {
            MarketEvent::Price(e) => e.token_address@,
            MarketEvent::Social(e) => e.token_address@,
            MarketEvent::Depth(e) => e.token_address@,
            MarketEvent::Bridge(e) => e.token_address@,
            MarketEvent::Funding(e) => e.token_address@,
            MarketEvent::SolPrice(_) => SOL_MINT@,
        }
    }

    pub fn token(&self) -> (r: &str)
        ensures
            r@ == self.spec_token(),
    {
        match self {
            MarketEvent::Price(e) => e.token_address.as_str(),
            MarketEvent::Social(e) => e.token_address.as_str(),
            MarketEvent::Depth(e) => e.token_address.as_str(),
            MarketEvent::Bridge(e) => e.token_address.as_str(),
            MarketEvent::Funding(e) => e.token_address.as_str(),
            MarketEvent::SolPrice(_) => SOL_MINT,
        }
    }

    /// A copy that is provably equal to the original; the derived `Clone`
    /// says nothing to the verifier, so the router copies events through this.
    pub fn duplicate(&self) -> (r: MarketEvent)
        ensures
            r == *self,
    {
        match self {
            MarketEvent::Price(e) => MarketEvent::Price(PriceTick {
                token_address: e.token_address.clone(),
                price_usd: e.price_usd,
                volume_usd_1m: e.volume_usd_1m,
            }),
            MarketEvent::Social(e) => MarketEvent::Social(SocialMention {
                token_address: e.token_address.clone(),
                source: e.source.clone(),
                sentiment: e.sentiment,
            }),
            MarketEvent::Depth(e) => MarketEvent::Depth(DepthEvent {
                token_address: e.token_address.clone(),
                bid_price: e.bid_price,
                ask_price: e.ask_price,
                bid_size_usd: e.bid_size_usd,
                ask_size_usd: e.ask_size_usd,
            }),
            MarketEvent::Bridge(e) => MarketEvent::Bridge(BridgeEvent {
                token_address: e.token_address.clone(),
                source_chain: e.source_chain.clone(),
                destination_chain: e.destination_chain.clone(),
                volume_usd: e.volume_usd,
            }),
            MarketEvent::Funding(e) => MarketEvent::Funding(FundingEvent {
                token_address: e.token_address.clone(),
                funding_rate_pct: e.funding_rate_pct,
                next_funding_time_sec: e.next_funding_time_sec,
            }),
            MarketEvent::SolPrice(e) => MarketEvent::SolPrice(SolPriceEvent {
                price_usd: e.price_usd,
            }),
        }
    }
}

/// An order a strategy asks the execution pipeline to carry out.
/// `confidence` is in parts per million of certainty, at most `RATIO_SCALE`.
#[derive(Debug, Clone, PartialEq)]
pub struct OrderDetails {
    pub token_address: String,
    pub suggested_size_usd: UsdMicro,
    pub confidence: u64,
    pub side: Side,
}

impl OrderDetails {
    /// A well-formed order asks for a nonnegative size and a confidence in [0, 1].
    pub open spec fn wf(&self) -> bool {
        0 <= self.suggested_size_usd && self.confidence <= RATIO_SCALE
    }

    /// A copy that is provably equal to the original.
    pub fn duplicate(&self) -> (r: OrderDetails)
        ensures
            r == *self,
    {
        OrderDetails {
            token_address: self.token_address.clone(),
            suggested_size_usd: self.suggested_size_usd,
            confidence: self.confidence,
            side: self.side,
        }
    }
}

/// What a strategy decides on one event.
#[derive(Debug, Clone, PartialEq)]
pub enum StrategyAction {
    Execute(OrderDetails),
    Hold,
}

/// Frame sent to the remote signer.
#[derive(Debug, Clone, PartialEq)]
pub struct SignRequest {
    pub transaction_b64: String,
}

/// Frame returned by the remote signer.
#[derive(Debug, Clone, PartialEq)]
pub struct SignResponse {
    pub signed_transaction_b64: String,
}

} // verus!
