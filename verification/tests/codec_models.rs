use trade_orchestrator::codec::{decode_event, encode_event, fmt_i64, fmt_u64, parse_i64_str};
use trade_orchestrator::models::{
    BridgeEvent, DepthEvent, EventType, FundingEvent, MarketEvent, PriceTick, SocialMention,
    SolPriceEvent, SOL_MINT,
};

fn round_trips(e: MarketEvent) {
    let framed = encode_event(&e).expect("frameable event");
    let back = decode_event(framed.as_str()).expect("frame decodes");
    assert_eq!(back, e);
}

#[test]
fn price_round_trips() {
    round_trips(MarketEvent::Price(PriceTick {
        token_address: "So11111111111111111111111111111111111111112".to_string(),
        price_usd: 1_500_000,
        volume_usd_1m: 2_000_000_000_000,
    }));
}

#[test]
fn social_round_trips() {
    round_trips(MarketEvent::Social(SocialMention {
        token_address: "tok".to_string(),
        source: "x dot com".to_string(),
        sentiment: -250_000,
    }));
}

#[test]
fn depth_round_trips() {
    round_trips(MarketEvent::Depth(DepthEvent {
        token_address: "tok".to_string(),
        bid_price: 990_000,
        ask_price: 1_010_000,
        bid_size_usd: 50_000_000,
        ask_size_usd: 60_000_000,
    }));
}

#[test]
fn bridge_round_trips() {
    round_trips(MarketEvent::Bridge(BridgeEvent {
        token_address: "tok".to_string(),
        source_chain: "ethereum".to_string(),
        destination_chain: "solana".to_string(),
        volume_usd: 123_456_789,
    }));
}

#[test]
fn funding_round_trips() {
    round_trips(MarketEvent::Funding(FundingEvent {
        token_address: "tok".to_string(),
        funding_rate_pct: -42,
        next_funding_time_sec: u64::MAX,
    }));
}

#[test]
fn sol_price_round_trips() {
    round_trips(MarketEvent::SolPrice(SolPriceEvent { price_usd: i64::MIN }));
    round_trips(MarketEvent::SolPrice(SolPriceEvent { price_usd: i64::MAX }));
    round_trips(MarketEvent::SolPrice(SolPriceEvent { price_usd: 0 }));
}

#[test]
fn empty_strings_round_trip() {
    round_trips(MarketEvent::Price(PriceTick {
        token_address: String::new(),
        price_usd: 0,
        volume_usd_1m: -1,
    }));
}

#[test]
fn the_frame_is_the_documented_text() {
    let e = MarketEvent::SolPrice(SolPriceEvent { price_usd: -5 });
    assert_eq!(encode_event(&e).unwrap(), "M|-5");
    let p = MarketEvent::Price(PriceTick {
        token_address: "abc".to_string(),
        price_usd: 7,
        volume_usd_1m: 19,
    });
    assert_eq!(encode_event(&p).unwrap(), "P|abc|7|19");
}

#[test]
fn a_separator_in_a_string_cannot_be_framed() {
    let e = MarketEvent::Price(PriceTick {
        token_address: "a|b".to_string(),
        price_usd: 1,
        volume_usd_1m: 1,
    });
    assert!(encode_event(&e).is_none());
}

#[test]
fn garbage_does_not_decode() {
    assert!(decode_event("").is_none());
    assert!(decode_event("X|1").is_none());
    assert!(decode_event("P|tok").is_none());
    assert!(decode_event("P|tok|1|2|3").is_none());
    assert!(decode_event("M|12x").is_none());
    assert!(decode_event("M|99999999999999999999999999").is_none());
}

#[test]
fn decimal_text_round_trips() {
    assert_eq!(fmt_u64(0), "0");
    assert_eq!(fmt_u64(10_203), "10203");
    assert_eq!(fmt_u64(u64::MAX), "18446744073709551615");
    assert_eq!(fmt_i64(-45), "-45");
    assert_eq!(fmt_i64(i64::MIN), "-9223372036854775808");
    assert_eq!(parse_i64_str("123"), Some(123));
    assert_eq!(parse_i64_str("-45"), Some(-45));
    assert_eq!(parse_i64_str("-0"), Some(0));
    assert_eq!(parse_i64_str(""), None);
    assert_eq!(parse_i64_str("12a"), None);
    assert_eq!(parse_i64_str("9223372036854775808"), None);
    assert_eq!(parse_i64_str("-9223372036854775808"), Some(i64::MIN));
}

#[test]
fn event_kinds_route_by_variant() {
    let p = MarketEvent::Price(PriceTick {
        token_address: "t".to_string(),
        price_usd: 1,
        volume_usd_1m: 1,
    });
    assert_eq!(p.get_type(), EventType::Price);
    assert_eq!(p.token(), "t");
    let m = MarketEvent::SolPrice(SolPriceEvent { price_usd: 1 });
    assert_eq!(m.get_type(), EventType::SolPrice);
    assert_eq!(m.token(), SOL_MINT);
    assert_eq!(p.duplicate(), p);
}
