use orderbook::engine::MatchingEngine;
use orderbook::oid::order_id;
use orderbook::types::{B256, Identity, MarketError, OrderType, SignedAmount};
use sha2::Digest;

fn b256(w0: u64, w1: u64, w2: u64, w3: u64) -> B256 {
    B256 { w0, w1, w2, w3 }
}

#[test]
fn signed_amount_as_integer() {
    let pos = SignedAmount { magnitude: 42, negative: false };
    let neg = SignedAmount { magnitude: 42, negative: true };
    assert_eq!(pos.as_signed_integer().unwrap(), 42);
    assert_eq!(neg.as_signed_integer().unwrap(), -42);
    let max = SignedAmount { magnitude: i64::MAX as u64, negative: true };
    assert_eq!(max.as_signed_integer().unwrap(), -i64::MAX);
    let too_big = SignedAmount { magnitude: i64::MAX as u64 + 1, negative: false };
    assert_eq!(too_big.as_signed_integer(), Err(MarketError::Overflow));
}

#[test]
fn signed_amount_negate_and_add() {
    let five = SignedAmount { magnitude: 5, negative: false };
    let minus_five = five.negate();
    assert_eq!(minus_five.magnitude, 5);
    assert!(minus_five.negative);

    // Opposite signs cancel exactly; a zero result is non-negative.
    let zero = five.add(&minus_five).unwrap();
    assert_eq!(zero.magnitude, 0);
    assert!(!zero.negative);

    let minus_two = SignedAmount { magnitude: 2, negative: true };
    let three = five.add(&minus_two).unwrap();
    assert_eq!(three.magnitude, 3);
    assert!(!three.negative);

    let minus_seven = minus_five.add(&minus_two).unwrap();
    assert_eq!(minus_seven.magnitude, 7);
    assert!(minus_seven.negative);

    let max = SignedAmount { magnitude: u64::MAX, negative: false };
    let one = SignedAmount { magnitude: 1, negative: false };
    assert_eq!(max.add(&one), Err(MarketError::Overflow));
}

#[test]
fn order_id_is_deterministic_and_distinguishes_parameters() {
    let owner = Identity::Address(b256(1, 2, 3, 4));
    let a = order_id(OrderType::Buy, &owner, 500, 10, 7);
    let b = order_id(OrderType::Buy, &owner, 500, 10, 7);
    assert_eq!(a, b);

    // Each defining parameter feeds the id.
    assert_ne!(a, order_id(OrderType::Sell, &owner, 500, 10, 7));
    assert_ne!(a, order_id(OrderType::Buy, &owner, 501, 10, 7));
    assert_ne!(a, order_id(OrderType::Buy, &owner, 500, 11, 7));
    assert_ne!(a, order_id(OrderType::Buy, &owner, 500, 10, 8));
    let other = Identity::Address(b256(1, 2, 3, 5));
    assert_ne!(a, order_id(OrderType::Buy, &other, 500, 10, 7));

    // The identity kind is part of the encoding: the same bits as a
    // contract identity give a different id.
    let as_contract = Identity::Contract(b256(1, 2, 3, 4));
    assert_ne!(a, order_id(OrderType::Buy, &as_contract, 500, 10, 7));
}

#[test]
fn order_id_is_the_sha256_of_the_canonical_encoding() {
    let owner_bits = b256(0x0102030405060708, 0x1112131415161718, 0, 0xff);
    let owner = Identity::Contract(owner_bits);
    let price: u64 = 50_000_000_000_000;
    let block_height: u32 = 10;
    let order_height: u64 = 3;

    let mut bytes: Vec<u8> = Vec::new();
    bytes.push(1); // sell tag
    bytes.push(1); // contract identity tag
    for w in [owner_bits.w0, owner_bits.w1, owner_bits.w2, owner_bits.w3] {
        bytes.extend_from_slice(&w.to_be_bytes());
    }
    bytes.extend_from_slice(&price.to_be_bytes());
    bytes.extend_from_slice(&block_height.to_be_bytes());
    bytes.extend_from_slice(&order_height.to_be_bytes());
    assert_eq!(bytes.len(), 54);

    let digest = sha2::Sha256::digest(&bytes);
    let id = order_id(OrderType::Sell, &owner, price, block_height, order_height);
    let words: Vec<u64> = digest
        .chunks(8)
        .map(|c| u64::from_be_bytes(c.try_into().unwrap()))
        .collect();
    assert_eq!(id.w0, words[0]);
    assert_eq!(id.w1, words[1]);
    assert_eq!(id.w2, words[2]);
    assert_eq!(id.w3, words[3]);
}

#[test]
fn config_is_fixed_at_construction() {
    let quote = b256(9, 9, 9, 9);
    let engine = MatchingEngine::new(quote, 6, 9);
    let cfg = engine.config();
    assert_eq!(cfg.quote_asset, quote);
    assert_eq!(cfg.quote_decimals, 6);
    assert_eq!(cfg.price_decimals, 9);
    assert_eq!(cfg.price_scale, 1_000_000_000);
}

#[test]
fn quote_escrow_truncates() {
    // price 3*10^9 at scale 10^9: 100 base units require exactly 300 quote
    // units; 101 at price 2.5 (2_500_000_000) truncate: 252.5 -> 252.
    let mut engine = MatchingEngine::new(b256(2, 0, 0, 0), 6, 9);
    let who = Identity::Address(b256(0, 0, 0, 1));
    let btc = b256(1, 0, 0, 0);
    assert!(engine.create_market(&btc, 8));
    let usdc = b256(2, 0, 0, 0);
    let id = engine
        .open_order(
            &who,
            &btc,
            SignedAmount { magnitude: 101, negative: false },
            2_500_000_000,
            1,
            1,
            &usdc,
            252,
        )
        .unwrap();
    assert_eq!(engine.order_by_id(&id).unwrap().escrowed, 252);
    // One unit less than the truncated requirement is rejected.
    assert_eq!(
        engine.open_order(
            &who,
            &btc,
            SignedAmount { magnitude: 101, negative: false },
            2_500_000_000,
            1,
            2,
            &usdc,
            251,
        ),
        Err(MarketError::InsufficientBalance)
    );
}

#[test]
fn excess_attachment_is_credited_free() {
    let mut engine = MatchingEngine::new(b256(2, 0, 0, 0), 6, 9);
    let who = Identity::Address(b256(0, 0, 0, 1));
    let btc = b256(1, 0, 0, 0);
    assert!(engine.create_market(&btc, 8));
    let id = engine
        .open_order(
            &who,
            &btc,
            SignedAmount { magnitude: 100, negative: true },
            1_000_000_000,
            1,
            1,
            &btc,
            130,
        )
        .unwrap();
    assert_eq!(engine.order_by_id(&id).unwrap().escrowed, 100);
    assert_eq!(engine.balance_of(&who, &btc), 30);
}
