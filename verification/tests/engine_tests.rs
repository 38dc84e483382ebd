use orderbook::engine::MatchingEngine;
use orderbook::types::{B256, Identity, MarketError, OrderType, SignedAmount};

const PRICE_DECIMALS: u32 = 9;
const BTC_DECIMALS: u32 = 8;
const USDC_DECIMALS: u32 = 8;

fn asset(tag: u64) -> B256 {
    B256 { w0: tag, w1: 0, w2: 0, w3: 0 }
}

fn address(tag: u64) -> Identity {
    Identity::Address(B256 { w0: 0, w1: 0, w2: 0, w3: tag })
}

fn btc_asset() -> B256 {
    asset(1)
}

fn usdc_asset() -> B256 {
    asset(2)
}

fn new_engine() -> MatchingEngine {
    MatchingEngine::new(usdc_asset(), USDC_DECIMALS, PRICE_DECIMALS)
}

fn sell(magnitude: u64) -> SignedAmount {
    SignedAmount { magnitude, negative: true }
}

fn buy(magnitude: u64) -> SignedAmount {
    SignedAmount { magnitude, negative: false }
}

// Sell 5 BTC at price 50000, merge a second identical submission,
// reject a foreign cancel, then cancel and recover the full escrow.
#[test]
fn open_base_token_order_cancel_test() {
    let mut engine = new_engine();
    let admin = address(1);
    let user = address(2);
    let btc = btc_asset();

    assert!(engine.create_market(&btc, BTC_DECIMALS));
    assert!(engine.market_exists(&btc));
    assert_eq!(engine.orders_by_trader(&admin).len(), 0);

    let price: u64 = 50000;
    let base_price = price * 10u64.pow(PRICE_DECIMALS);
    let amount_btc = 5 * 10u64.pow(BTC_DECIMALS);
    let size = sell(amount_btc);

    // Open a sell order with exactly the required base asset attached.
    let id = engine
        .open_order(&admin, &btc, size, base_price, 10, 1, &btc, amount_btc)
        .unwrap();

    let ids = engine.orders_by_trader(&admin);
    assert_eq!(ids.len(), 1);
    assert_eq!(ids[0], id);
    let order = engine.order_by_id(&id).unwrap();
    assert_eq!(order.base_price, base_price);
    assert_eq!(order.base_size.as_signed_integer().unwrap(), -(amount_btc as i64));

    // The same submission again merges into the same order, doubling it.
    let id2 = engine
        .open_order(&admin, &btc, size, base_price, 10, 1, &btc, amount_btc)
        .unwrap();
    assert_eq!(id, id2);
    assert_eq!(engine.orders_by_trader(&admin).len(), 1);
    let order = engine.order_by_id(&id).unwrap();
    assert_eq!(order.base_price, base_price);
    assert_eq!(order.base_size.as_signed_integer().unwrap(), -2 * amount_btc as i64);

    // Cancel by someone who is not the owner fails and changes nothing.
    assert_eq!(engine.cancel_order(&user, &id), Err(MarketError::NotOwner));
    assert_eq!(engine.orders_by_trader(&admin).len(), 1);

    // Cancel by the owner removes the order and refunds the full escrow.
    engine.cancel_order(&admin, &id).unwrap();
    assert_eq!(engine.orders_by_trader(&admin).len(), 0);
    assert!(engine.order_by_id(&id).is_none());
    assert_eq!(engine.balance_of(&admin, &btc), 2 * amount_btc);

    // The refund can be withdrawn in full, and no more.
    engine.withdraw(&admin, &btc, 2 * amount_btc).unwrap();
    assert_eq!(engine.balance_of(&admin, &btc), 0);
    assert_eq!(
        engine.withdraw(&admin, &btc, 1),
        Err(MarketError::InsufficientBalance)
    );
}

// A buy order is cancelled by opening the equal-and-opposite sell order
// and matching the two, which nets the position to zero and restores both
// balances: no separate code path, just the match rules.
#[test]
fn open_quote_token_order_cancel_by_reverse_order_test() {
    let mut engine = new_engine();
    let admin = address(1);
    let btc = btc_asset();
    let usdc = usdc_asset();

    assert!(engine.create_market(&btc, BTC_DECIMALS));
    assert!(engine.market_exists(&btc));
    assert_eq!(engine.orders_by_trader(&admin).len(), 0);

    let price: u64 = 50000;
    let base_price = price * 10u64.pow(PRICE_DECIMALS);
    let amount_btc = 5 * 10u64.pow(BTC_DECIMALS);
    let amount_usdc = 250000 * 10u64.pow(USDC_DECIMALS);

    // Open the buy order with exactly the required quote asset attached.
    let id_buy = engine
        .open_order(&admin, &btc, buy(amount_btc), base_price, 10, 1, &usdc, amount_usdc)
        .unwrap();
    assert_eq!(engine.orders_by_trader(&admin).len(), 1);
    let order = engine.order_by_id(&id_buy).unwrap();
    assert_eq!(order.base_price, base_price);
    assert_eq!(order.base_size.as_signed_integer().unwrap(), amount_btc as i64);

    // Open the reverse sell order, then match the two to net out.
    let id_sell = engine
        .open_order(&admin, &btc, sell(amount_btc), base_price, 10, 2, &btc, amount_btc)
        .unwrap();
    engine.match_orders(&id_sell, &id_buy).unwrap();

    assert_eq!(engine.orders_by_trader(&admin).len(), 0);
    assert!(engine.order_by_id(&id_buy).is_none());
    assert!(engine.order_by_id(&id_sell).is_none());
    assert_eq!(engine.balance_of(&admin, &usdc), amount_usdc);
    assert_eq!(engine.balance_of(&admin, &btc), amount_btc);
}

// One trader buys 5 BTC with 250k USDC, another sells 5 BTC; matching
// settles both in full and empties both books.
#[test]
fn match_orders_test() {
    let mut engine = new_engine();
    let user1 = address(1);
    let user2 = address(2);
    let btc = btc_asset();
    let usdc = usdc_asset();

    assert!(engine.create_market(&btc, BTC_DECIMALS));

    let price: u64 = 50000;
    let base_price = price * 10u64.pow(PRICE_DECIMALS);
    let amount_btc = 5 * 10u64.pow(BTC_DECIMALS);
    let amount_usdc = 250000 * 10u64.pow(USDC_DECIMALS);

    let id_buy = engine
        .open_order(&user1, &btc, buy(amount_btc), base_price, 10, 1, &usdc, amount_usdc)
        .unwrap();
    assert_eq!(engine.orders_by_trader(&user1).len(), 1);
    let order = engine.order_by_id(&id_buy).unwrap();
    assert_eq!(order.base_price, base_price);
    assert_eq!(order.base_size.as_signed_integer().unwrap(), amount_btc as i64);

    let id_sell = engine
        .open_order(&user2, &btc, sell(amount_btc), base_price, 10, 1, &btc, amount_btc)
        .unwrap();
    assert_eq!(engine.orders_by_trader(&user2).len(), 1);
    let order = engine.order_by_id(&id_sell).unwrap();
    assert_eq!(order.base_price, base_price);
    assert_eq!(order.base_size.as_signed_integer().unwrap(), -(amount_btc as i64));

    engine.match_orders(&id_sell, &id_buy).unwrap();

    assert_eq!(engine.orders_by_trader(&user1).len(), 0);
    assert_eq!(engine.orders_by_trader(&user2).len(), 0);
    assert_eq!(engine.balance_of(&user2, &usdc), amount_usdc);
    assert_eq!(engine.balance_of(&user1, &btc), amount_btc);
}

// The concrete scenario: market BTC/USDC, price_decimals 9, price 50000,
// selling 5 BTC (decimals 8) escrows exactly 5*10^8 base units; cancel
// returns exactly that; a full match moves 2.5*10^13 quote units.
#[test]
fn concrete_scenario_btc_usdc() {
    let mut engine = new_engine();
    let seller = address(7);
    let buyer = address(8);
    let btc = btc_asset();
    let usdc = usdc_asset();
    assert!(engine.create_market(&btc, 8));

    let base_price: u64 = 50000 * 1_000_000_000;
    assert_eq!(base_price, 50_000_000_000_000);
    let base_size: u64 = 5 * 100_000_000;
    assert_eq!(base_size, 500_000_000);
    let quote_value: u64 = 25_000_000_000_000;

    // Opening the sell escrows 5*10^8 BTC units and leaves no free balance.
    let id = engine
        .open_order(&seller, &btc, sell(base_size), base_price, 1, 1, &btc, base_size)
        .unwrap();
    assert_eq!(engine.balance_of(&seller, &btc), 0);
    assert_eq!(engine.order_by_id(&id).unwrap().escrowed, base_size);

    // Cancelling returns exactly 5*10^8 BTC units and removes the order.
    engine.cancel_order(&seller, &id).unwrap();
    assert_eq!(engine.balance_of(&seller, &btc), base_size);
    assert!(engine.order_by_id(&id).is_none());

    // Re-open and match against an equal opposing buy at the same price.
    let id_sell = engine
        .open_order(&seller, &btc, sell(base_size), base_price, 1, 2, &btc, base_size)
        .unwrap();
    let id_buy = engine
        .open_order(&buyer, &btc, buy(base_size), base_price, 1, 1, &usdc, quote_value)
        .unwrap();
    engine.match_orders(&id_sell, &id_buy).unwrap();
    assert!(engine.order_by_id(&id_sell).is_none());
    assert!(engine.order_by_id(&id_buy).is_none());
    assert_eq!(engine.balance_of(&seller, &usdc), quote_value);
    assert_eq!(engine.balance_of(&buyer, &btc), base_size);
}

// A partial match removes the smaller order and leaves the larger resting
// with the difference, price and owner unchanged.
#[test]
fn partial_match_leaves_larger_resting() {
    let mut engine = new_engine();
    let seller = address(3);
    let buyer = address(4);
    let btc = btc_asset();
    let usdc = usdc_asset();
    assert!(engine.create_market(&btc, BTC_DECIMALS));

    let base_price = 50000 * 10u64.pow(PRICE_DECIMALS);
    let large: u64 = 10 * 10u64.pow(BTC_DECIMALS);
    let small: u64 = 4 * 10u64.pow(BTC_DECIMALS);
    let small_quote = 200000 * 10u64.pow(USDC_DECIMALS);

    let id_sell = engine
        .open_order(&seller, &btc, sell(large), base_price, 1, 1, &btc, large)
        .unwrap();
    let id_buy = engine
        .open_order(&buyer, &btc, buy(small), base_price, 2, 1, &usdc, small_quote)
        .unwrap();

    engine.match_orders(&id_sell, &id_buy).unwrap();

    assert!(engine.order_by_id(&id_buy).is_none());
    let rest = engine.order_by_id(&id_sell).unwrap();
    assert_eq!(rest.base_size.as_signed_integer().unwrap(), -((large - small) as i64));
    assert_eq!(rest.base_price, base_price);
    assert_eq!(rest.owner, seller);
    assert_eq!(rest.escrowed, large - small);
    assert_eq!(engine.balance_of(&buyer, &btc), small);
    assert_eq!(engine.balance_of(&seller, &usdc), small_quote);
}

// Conservation check on a concrete run: free balances plus order escrow
// always equal deposits minus withdrawals, per asset.
#[test]
fn conservation_over_operations() {
    let mut engine = new_engine();
    let a = address(11);
    let b = address(12);
    let btc = btc_asset();
    let usdc = usdc_asset();
    assert!(engine.create_market(&btc, BTC_DECIMALS));

    engine.deposit(&a, &btc, 700).unwrap();
    engine.withdraw(&a, &btc, 200).unwrap();

    let base_price = 3 * 10u64.pow(PRICE_DECIMALS);
    let id_sell = engine
        .open_order(&a, &btc, sell(400), base_price, 1, 1, &btc, 400)
        .unwrap();
    let id_buy = engine
        .open_order(&b, &btc, buy(100), base_price, 1, 1, &usdc, 300)
        .unwrap();
    engine.match_orders(&id_sell, &id_buy).unwrap();

    // BTC in: 700 deposited + 400 attached − 200 withdrawn = 900.
    let btc_free = engine.balance_of(&a, &btc) + engine.balance_of(&b, &btc);
    let btc_escrow = engine.order_by_id(&id_sell).unwrap().escrowed;
    assert_eq!(btc_free + btc_escrow, 900);
    // USDC in: 300 attached, nothing withdrawn.
    let usdc_free = engine.balance_of(&a, &usdc) + engine.balance_of(&b, &usdc);
    assert_eq!(usdc_free, 300);
}

#[test]
fn open_on_unknown_market_fails() {
    let mut engine = new_engine();
    let who = address(1);
    let btc = btc_asset();
    assert_eq!(
        engine.open_order(&who, &btc, sell(10), 5, 1, 1, &btc, 10),
        Err(MarketError::UnknownMarket)
    );
}

#[test]
fn cancel_missing_order_fails() {
    let mut engine = new_engine();
    let who = address(1);
    let id = orderbook::oid::order_id(OrderType::Sell, &who, 5, 1, 1);
    assert_eq!(engine.cancel_order(&who, &id), Err(MarketError::OrderNotFound));
}

#[test]
fn open_with_insufficient_attachment_fails() {
    let mut engine = new_engine();
    let who = address(1);
    let btc = btc_asset();
    assert!(engine.create_market(&btc, BTC_DECIMALS));
    // One unit short of the required escrow.
    assert_eq!(
        engine.open_order(&who, &btc, sell(100), 5, 1, 1, &btc, 99),
        Err(MarketError::InsufficientBalance)
    );
    // The right amount of the wrong asset.
    assert_eq!(
        engine.open_order(&who, &btc, sell(100), 5, 1, 1, &usdc_asset(), 100),
        Err(MarketError::InsufficientBalance)
    );
    assert_eq!(engine.orders_by_trader(&who).len(), 0);
    assert_eq!(engine.balance_of(&who, &btc), 0);
}

#[test]
fn match_same_side_fails() {
    let mut engine = new_engine();
    let a = address(1);
    let b = address(2);
    let btc = btc_asset();
    assert!(engine.create_market(&btc, BTC_DECIMALS));
    let base_price = 10u64.pow(PRICE_DECIMALS);
    let id1 = engine.open_order(&a, &btc, sell(100), base_price, 1, 1, &btc, 100).unwrap();
    let id2 = engine.open_order(&b, &btc, sell(200), base_price, 1, 1, &btc, 200).unwrap();
    assert_eq!(engine.match_orders(&id1, &id2), Err(MarketError::SameSide));
    assert_eq!(engine.orders_by_trader(&a).len(), 1);
    assert_eq!(engine.orders_by_trader(&b).len(), 1);
}

#[test]
fn match_across_markets_fails() {
    let mut engine = new_engine();
    let a = address(1);
    let b = address(2);
    let btc = btc_asset();
    let eth = asset(3);
    let usdc = usdc_asset();
    assert!(engine.create_market(&btc, BTC_DECIMALS));
    assert!(engine.create_market(&eth, 9));
    let base_price = 10u64.pow(PRICE_DECIMALS);
    let id1 = engine.open_order(&a, &btc, sell(100), base_price, 1, 1, &btc, 100).unwrap();
    let id2 = engine.open_order(&b, &eth, buy(100), base_price, 1, 1, &usdc, 100).unwrap();
    assert_eq!(engine.match_orders(&id1, &id2), Err(MarketError::IncompatibleMarket));
}

#[test]
fn deposit_overflow_fails_atomically() {
    let mut engine = new_engine();
    let who = address(1);
    let btc = btc_asset();
    engine.deposit(&who, &btc, u64::MAX).unwrap();
    assert_eq!(engine.deposit(&who, &btc, 1), Err(MarketError::Overflow));
    assert_eq!(engine.balance_of(&who, &btc), u64::MAX);
}

#[test]
fn create_market_is_unique_per_asset() {
    let mut engine = new_engine();
    let btc = btc_asset();
    assert!(engine.create_market(&btc, BTC_DECIMALS));
    assert!(!engine.create_market(&btc, BTC_DECIMALS));
    assert!(engine.market_exists(&btc));
    assert!(!engine.market_exists(&asset(9)));
}
