use vstd::prelude::*;
use crate::types::{B256, BalanceEntry, Config, Identity, Market, MarketError, Order, OrderId,
    OrderType, SignedAmount};
use crate::math::{pow10, pow10_u64, quote_amount, quote_amount_u64, lemma_pow10_pos};
use crate::ledger::{EscrowLedger, balance_in, credit_spec, debit_spec};
use crate::store::{OrderStore, find_order, trader_ids, lemma_find_order_props};
use crate::oid::{order_id, order_id_spec};

verus! {

/// A well-formed configuration: the price scale is the power of ten named by
/// `price_decimals`, and fits a machine word.
pub open spec fn config_wf(cfg: Config) -> bool {
    &&& cfg.price_decimals <= 19
    &&& cfg.price_scale == pow10(cfg.price_decimals as nat)
}

/// A well-formed stored order: positive remaining size, and a sell order's
/// escrow is exactly its remaining magnitude of the base asset.
pub open spec fn order_wf(o: Order) -> bool {
    &&& o.base_size.magnitude > 0
    &&& (o.base_size.negative ==> o.escrowed == o.base_size.magnitude)
}

/// Every stored order is well formed.
pub open spec fn orders_wf(s: Seq<Order>) -> bool {
    forall|k: int| 0 <= k < s.len() ==> order_wf(#[trigger] s[k])
}

/// At most one market per base asset.
pub open spec fn markets_wf(s: Seq<Market>) -> bool {
    forall|i: int, j: int|
        0 <= i < j < s.len() ==> (#[trigger] s[i]).base_asset != (#[trigger] s[j]).base_asset
}

/// Whether a market is registered for `asset`.
pub open spec fn has_market(s: Seq<Market>, asset: B256) -> bool {
    exists|k: int| 0 <= k < s.len() && (#[trigger] s[k]).base_asset == asset
}

/// The asset an order with this size on this market escrows: the base asset
/// when selling, the quote asset when buying.
pub open spec fn req_asset_spec(cfg: Config, base_asset: B256, size: SignedAmount) -> B256 {
    if size.negative {
        base_asset
    } else {
        cfg.quote_asset
    }
}

/// The amount such an order escrows: its full magnitude of the base asset
/// when selling, its truncated quote value when buying.
pub open spec fn req_amount_spec(cfg: Config, size: SignedAmount, price: u64) -> int {
    if size.negative {
        size.magnitude as int
    } else {
        quote_amount(size.magnitude, price, cfg.price_scale)
    }
}

/// Whether an incoming submission merges into the stored order `ex`: every
/// defining parameter agrees, so the two carry the same id by construction.
pub open spec fn merge_compatible(
    ex: Order,
    caller: Identity,
    base_asset: B256,
    size: SignedAmount,
    price: u64,
    block_height: u32,
    order_height: u64,
) -> bool {
    &&& ex.owner == caller
    &&& ex.base_asset == base_asset
    &&& ex.base_size.negative == size.negative
    &&& ex.base_price == price
    &&& ex.block_height == block_height
    &&& ex.order_height == order_height
}

/// The effect of `open_order` on the engine state: the resulting orders and
/// ledger entries, and the operation's result. Every failure leaves both
/// sequences exactly as they were.
pub open spec fn open_spec(
    cfg: Config,
    markets: Seq<Market>,
    orders: Seq<Order>,
    entries: Seq<BalanceEntry>,
    caller: Identity,
    base_asset: B256,
    size: SignedAmount,
    price: u64,
    block_height: u32,
    order_height: u64,
    attached_asset: B256,
    attached_amount: u64,
) -> (Seq<Order>, Seq<BalanceEntry>, Result<OrderId, MarketError>) {
    if !has_market(markets, base_asset) {
        (orders, entries, Err(MarketError::UnknownMarket))
    } else if req_amount_spec(cfg, size, price) > u64::MAX {
        (orders, entries, Err(MarketError::Overflow))
    } else {
        let req_asset = req_asset_spec(cfg, base_asset, size);
        let req = req_amount_spec(cfg, size, price);
        if !(attached_asset == req_asset && attached_amount >= req) {
            (orders, entries, Err(MarketError::InsufficientBalance))
        } else {
            let excess = (attached_amount - req) as u64;
            let id = order_id_spec(size.side(), caller, price, block_height, order_height);
            let i = find_order(orders, id);
            if i >= 0 && merge_compatible(
                orders[i],
                caller,
                base_asset,
                size,
                price,
                block_height,
                order_height,
            ) {
                let ex = orders[i];
                if ex.base_size.magnitude + size.magnitude > u64::MAX
                    || ex.escrowed + req > u64::MAX {
                    (orders, entries, Err(MarketError::Overflow))
                } else {
                    match credit_spec(entries, caller, req_asset, excess) {
                        None => (orders, entries, Err(MarketError::Overflow)),
                        Some(e2) => {
                            let merged = Order {
                                base_size: SignedAmount {
                                    magnitude: (ex.base_size.magnitude + size.magnitude) as u64,
                                    negative: ex.base_size.negative,
                                },
                                escrowed: (ex.escrowed + req) as u64,
                                ..ex
                            };
                            (orders.update(i, merged), e2, Ok(id))
                        },
                    }
                }
            } else {
                match credit_spec(entries, caller, req_asset, excess) {
                    None => (orders, entries, Err(MarketError::Overflow)),
                    Some(e2) => {
                        let o = Order {
                            id,
                            owner: caller,
                            base_asset,
                            base_price: price,
                            base_size: size,
                            block_height,
                            order_height,
                            escrowed: req as u64,
                        };
                        (orders.push(o), e2, Ok(id))
                    },
                }
            }
        }
    }
}

/// The effect of `cancel_order`: the order's full escrow returns to its
/// owner's free balance and the order leaves the book. Only the owner may
/// cancel; every failure leaves the state exactly as it was.
pub open spec fn cancel_spec(
    cfg: Config,
    orders: Seq<Order>,
    entries: Seq<BalanceEntry>,
    caller: Identity,
    id: OrderId,
) -> (Seq<Order>, Seq<BalanceEntry>, Result<(), MarketError>) {
    let i = find_order(orders, id);
    if i < 0 {
        (orders, entries, Err(MarketError::OrderNotFound))
    } else if orders[i].owner != caller {
        (orders, entries, Err(MarketError::NotOwner))
    } else {
        let o = orders[i];
        match credit_spec(entries, o.owner, o.escrow_asset(cfg.quote_asset), o.escrowed) {
            None => (orders, entries, Err(MarketError::Overflow)),
            Some(e2) => (orders.remove(i), e2, Ok(())),
        }
    }
}

/// Whether `a` rests earlier in the book than `b`: opened at an earlier
/// block, or at the same block with a smaller order height. The earlier
/// order is the maker and its price rules the trade.
pub open spec fn earlier(a: Order, b: Order) -> bool {
    a.block_height < b.block_height
        || (a.block_height == b.block_height && a.order_height <= b.order_height)
}

/// The effect of `match_orders` on the engine state. The seller's base
/// escrow pays the buyer, the buyer's quote escrow pays the seller at the
/// maker's price, a fully filled order leaves the book (its residual escrow
/// refunded to its owner), a partially filled one rests on with its size and
/// escrow reduced. Every failure leaves the state exactly as it was.
pub open spec fn match_spec(
    cfg: Config,
    orders: Seq<Order>,
    entries: Seq<BalanceEntry>,
    id_a: OrderId,
    id_b: OrderId,
) -> (Seq<Order>, Seq<BalanceEntry>, Result<(), MarketError>) {
    let ia = find_order(orders, id_a);
    let ib = find_order(orders, id_b);
    if ia < 0 || ib < 0 {
        (orders, entries, Err(MarketError::OrderNotFound))
    } else if orders[ia].base_asset != orders[ib].base_asset {
        (orders, entries, Err(MarketError::IncompatibleMarket))
    } else if orders[ia].base_size.negative == orders[ib].base_size.negative {
        (orders, entries, Err(MarketError::SameSide))
    } else {
        let is = if orders[ia].base_size.negative { ia } else { ib };
        let ib2 = if orders[ia].base_size.negative { ib } else { ia };
        let sell = orders[is];
        let buy = orders[ib2];
        let qty = if sell.base_size.magnitude <= buy.base_size.magnitude {
            sell.base_size.magnitude
        } else {
            buy.base_size.magnitude
        };
        let trade_price = if earlier(orders[ia], orders[ib]) {
            orders[ia].base_price
        } else {
            orders[ib].base_price
        };
        let quote_amt = quote_amount(qty, trade_price, cfg.price_scale);
        if quote_amt > u64::MAX {
            (orders, entries, Err(MarketError::Overflow))
        } else if sell.escrowed < qty || buy.escrowed < quote_amt {
            (orders, entries, Err(MarketError::InsufficientBalance))
        } else {
            let sell_filled = sell.base_size.magnitude == qty;
            let buy_filled = buy.base_size.magnitude == qty;
            let sell_residual = if sell_filled { (sell.escrowed - qty) as u64 } else { 0u64 };
            let buy_residual = if buy_filled {
                (buy.escrowed - quote_amt) as u64
            } else {
                0u64
            };
            match credit_spec(entries, buy.owner, buy.base_asset, qty) {
                None => (orders, entries, Err(MarketError::Overflow)),
                Some(e1) => match credit_spec(e1, sell.owner, cfg.quote_asset, quote_amt as u64) {
                    None => (orders, entries, Err(MarketError::Overflow)),
                    Some(e2) => match credit_spec(e2, sell.owner, sell.base_asset, sell_residual) {
                        None => (orders, entries, Err(MarketError::Overflow)),
                        Some(e3) => match credit_spec(
                            e3,
                            buy.owner,
                            cfg.quote_asset,
                            buy_residual,
                        ) {
                            None => (orders, entries, Err(MarketError::Overflow)),
                            Some(e4) => {
                                let orders2 = if sell_filled && buy_filled {
                                    let hi = if is > ib2 { is } else { ib2 };
                                    let lo = if is > ib2 { ib2 } else { is };
                                    orders.remove(hi).remove(lo)
                                } else if sell_filled {
                                    let buy2 = Order {
                                        base_size: SignedAmount {
                                            magnitude: (buy.base_size.magnitude - qty) as u64,
                                            negative: buy.base_size.negative,
                                        },
                                        escrowed: (buy.escrowed - quote_amt) as u64,
                                        ..buy
                                    };
                                    orders.update(ib2, buy2).remove(is)
                                } else {
                                    let sell2 = Order {
                                        base_size: SignedAmount {
                                            magnitude: (sell.base_size.magnitude - qty) as u64,
                                            negative: sell.base_size.negative,
                                        },
                                        escrowed: (sell.escrowed - qty) as u64,
                                        ..sell
                                    };
                                    orders.update(is, sell2).remove(ib2)
                                };
                                (orders2, e4, Ok(()))
                            },
                        },
                    },
                },
            }
        }
    }
}

/// The matching engine: configuration, registered markets, the order book
/// and the escrow ledger.
pub struct MatchingEngine {
    pub config: Config,
    pub markets: Vec<Market>,
    pub store: OrderStore,
    pub ledger: EscrowLedger,
}

impl MatchingEngine {
    /// The engine's well-formedness: configuration consistent, one market per
    /// base asset, every stored order well formed.
    pub open spec fn wf(self) -> bool {
        &&& config_wf(self.config)
        &&& markets_wf(self.markets@)
        &&& orders_wf(self.store.orders@)
    }

    /// A fresh engine for one quote asset: no markets, no orders, no balances.
    pub fn new(quote_asset: B256, quote_decimals: u32, price_decimals: u32) -> (r: MatchingEngine)
        requires
            price_decimals <= 19,
        ensures
            r.wf(),
            r.config.quote_asset == quote_asset,
            r.config.quote_decimals == quote_decimals,
            r.config.price_decimals == price_decimals,
            r.markets@.len() == 0,
            r.store.orders@.len() == 0,
            r.ledger.entries@.len() == 0,
    {
        let price_scale = pow10_u64(price_decimals);
        MatchingEngine {
            config: Config { quote_asset, quote_decimals, price_decimals, price_scale },
            markets: Vec::new(),
            store: OrderStore::new(),
            ledger: EscrowLedger::new(),
        }
    }

    /// The engine-wide configuration.
    pub fn config(&self) -> (r: Config)
        ensures
            r == self.config,
    {
        self.config
    }

    /// Whether a market is registered for `asset`.
    pub fn market_exists(&self, asset: &B256) -> (r: bool)
        ensures
            r == has_market(self.markets@, *asset),
    {
        let n = self.markets.len();
        let mut i: usize = 0;
        while i < n
            invariant
                i <= n,
                n == self.markets@.len(),
                forall|k: int| 0 <= k < i ==> (#[trigger] self.markets@[k]).base_asset != *asset,
            decreases n - i,
        {
            if self.markets[i].base_asset == *asset {
                return true;
            }
            i = i + 1;
        }
        false
    }

    /// Registers a market for `base_asset` and returns true; returns false,
    /// changing nothing, when one already exists.
    pub fn create_market(&mut self, base_asset: &B256, base_decimals: u32) -> (r: bool)
        requires
            old(self).wf(),
        ensures
            final(self).wf(),
            final(self).config == old(self).config,
            final(self).store.orders@ == old(self).store.orders@,
            final(self).ledger.entries@ == old(self).ledger.entries@,
            r == !has_market(old(self).markets@, *base_asset),
            r ==> final(self).markets@ == old(self).markets@.push(
                (Market { base_asset: *base_asset, base_decimals }),
            ),
            !r ==> final(self).markets@ == old(self).markets@,
            has_market(final(self).markets@, *base_asset),
    {
        if self.market_exists(base_asset) {
            return false;
        }
        self.markets.push(Market { base_asset: *base_asset, base_decimals });
        proof {
            let m = old(self).markets@;
            let m2 = self.markets@;
            assert(m2[m.len() as int].base_asset == *base_asset);
            assert(markets_wf(m2));
        }
        true
    }

    /// The free balance the engine holds for `(owner, asset)`.
    pub fn balance_of(&self, owner: &Identity, asset: &B256) -> (r: u64)
        ensures
            r == balance_in(self.ledger.entries@, *owner, *asset),
    {
        self.ledger.balance(owner, asset)
    }

    /// Credits attached funds to the caller's free balance. Fails with
    /// `Overflow`, changing nothing, exactly when the balance would exceed
    /// `u64::MAX`.
    pub fn deposit(&mut self, owner: &Identity, asset: &B256, amount: u64) -> (r: Result<
        (),
        MarketError,
    >)
        requires
            old(self).wf(),
        ensures
            final(self).wf(),
            final(self).config == old(self).config,
            final(self).markets@ == old(self).markets@,
            final(self).store.orders@ == old(self).store.orders@,
            match r {
                Ok(_) => Some(final(self).ledger.entries@)
                    == credit_spec(old(self).ledger.entries@, *owner, *asset, amount),
                Err(e) => e == MarketError::Overflow
                    && credit_spec(old(self).ledger.entries@, *owner, *asset, amount) is None
                    && final(self).ledger.entries@ == old(self).ledger.entries@,
            },
    {
        self.ledger.credit(owner, asset, amount)
    }

    /// Releases `amount` of the caller's free balance back to them. Fails
    /// with `InsufficientBalance`, changing nothing, exactly when the free
    /// balance is smaller than `amount`.
    pub fn withdraw(&mut self, owner: &Identity, asset: &B256, amount: u64) -> (r: Result<
        (),
        MarketError,
    >)
        requires
            old(self).wf(),
        ensures
            final(self).wf(),
            final(self).config == old(self).config,
            final(self).markets@ == old(self).markets@,
            final(self).store.orders@ == old(self).store.orders@,
            match r {
                Ok(_) => Some(final(self).ledger.entries@)
                    == debit_spec(old(self).ledger.entries@, *owner, *asset, amount),
                Err(e) => e == MarketError::InsufficientBalance
                    && debit_spec(old(self).ledger.entries@, *owner, *asset, amount) is None
                    && final(self).ledger.entries@ == old(self).ledger.entries@,
            },
    {
        self.ledger.debit(owner, asset, amount)
    }

    /// Opens an order: escrows the attached funds and writes the order to
    /// the book, merging into an existing order with the same defining
    /// parameters. The exact effect, including every failure, is `open_spec`.
    pub fn open_order(
        &mut self,
        caller: &Identity,
        base_asset: &B256,
        size: SignedAmount,
        base_price: u64,
        block_height: u32,
        order_height: u64,
        attached_asset: &B256,
        attached_amount: u64,
    ) -> (r: Result<OrderId, MarketError>)
        requires
            old(self).wf(),
            size.magnitude > 0,
        ensures
            final(self).wf(),
            final(self).config == old(self).config,
            final(self).markets@ == old(self).markets@,
            ({
                let sp = open_spec(
                    old(self).config,
                    old(self).markets@,
                    old(self).store.orders@,
                    old(self).ledger.entries@,
                    *caller,
                    *base_asset,
                    size,
                    base_price,
                    block_height,
                    order_height,
                    *attached_asset,
                    attached_amount,
                );
                final(self).store.orders@ == sp.0 && final(self).ledger.entries@ == sp.1
                    && r == sp.2
            }),
    {
        if !self.market_exists(base_asset) {
            return Err(MarketError::UnknownMarket);
        }
        let req: u64;
        if size.negative {
            req = size.magnitude;
        } else {
            proof {
                lemma_pow10_pos(self.config.price_decimals as nat);
            }
            match quote_amount_u64(size.magnitude, base_price, self.config.price_scale) {
                Ok(v) => {
                    req = v;
                },
                Err(e) => {
                    return Err(e);
                },
            }
        }
        let req_asset: B256 = if size.negative {
            *base_asset
        } else {
            self.config.quote_asset
        };
        proof {
            assert(req == req_amount_spec(self.config, size, base_price));
            assert(req_asset == req_asset_spec(self.config, *base_asset, size));
        }
        if !(*attached_asset == req_asset && attached_amount >= req) {
            return Err(MarketError::InsufficientBalance);
        }
        let excess = attached_amount - req;
        let side = if size.negative {
            OrderType::Sell
        } else {
            OrderType::Buy
        };
        let id = order_id(side, caller, base_price, block_height, order_height);
        proof {
            assert(id == order_id_spec(size.side(), *caller, base_price, block_height,
                order_height));
        }
        let mut merge_i: Option<usize> = None;
        match self.store.find(&id) {
            Some(i) => {
                proof {
                    lemma_find_order_props(self.store.orders@, id);
                }
                let ex = self.store.orders[i];
                if ex.owner == *caller && ex.base_asset == *base_asset
                    && ex.base_size.negative == size.negative && ex.base_price == base_price
                    && ex.block_height == block_height && ex.order_height == order_height {
                    merge_i = Some(i);
                }
            },
            None => {},
        }
        let ghost fi = find_order(self.store.orders@, id);
        let ghost do_merge = fi >= 0 && merge_compatible(
            self.store.orders@[fi],
            *caller,
            *base_asset,
            size,
            base_price,
            block_height,
            order_height,
        );
        match merge_i {
            Some(i) => {
                proof {
                    assert(do_merge);
                }
                let ex = self.store.orders[i];
                let new_mag: u64;
                match ex.base_size.magnitude.checked_add(size.magnitude) {
                    Some(v) => {
                        new_mag = v;
                    },
                    None => {
                        return Err(MarketError::Overflow);
                    },
                }
                let new_escrow: u64;
                match ex.escrowed.checked_add(req) {
                    Some(v) => {
                        new_escrow = v;
                    },
                    None => {
                        return Err(MarketError::Overflow);
                    },
                }
                match self.ledger.credit(caller, &req_asset, excess) {
                    Ok(_) => {},
                    Err(e) => {
                        return Err(e);
                    },
                }
                let merged = Order {
                    base_size: SignedAmount { magnitude: new_mag, negative: ex.base_size.negative },
                    escrowed: new_escrow,
                    ..ex
                };
                self.store.orders.set(i, merged);
                proof {
                    assert(order_wf(merged));
                    assert(orders_wf(self.store.orders@));
                }
                Ok(id)
            },
            None => {
                proof {
                    assert(!do_merge);
                }
                match self.ledger.credit(caller, &req_asset, excess) {
                    Ok(_) => {},
                    Err(e) => {
                        return Err(e);
                    },
                }
                let o = Order {
                    id,
                    owner: *caller,
                    base_asset: *base_asset,
                    base_price,
                    base_size: size,
                    block_height,
                    order_height,
                    escrowed: req,
                };
                self.store.orders.push(o);
                proof {
                    assert(order_wf(o));
                    assert(orders_wf(self.store.orders@));
                }
                Ok(id)
            },
        }
    }

    /// Cancels a resting order: its full escrow returns to the owner's free
    /// balance and the order leaves the book. Only the owner may cancel.
    /// The exact effect, including every failure, is `cancel_spec`.
    pub fn cancel_order(&mut self, caller: &Identity, id: &OrderId) -> (r: Result<
        (),
        MarketError,
    >)
        requires
            old(self).wf(),
        ensures
            final(self).wf(),
            final(self).config == old(self).config,
            final(self).markets@ == old(self).markets@,
            ({
                let sp = cancel_spec(
                    old(self).config,
                    old(self).store.orders@,
                    old(self).ledger.entries@,
                    *caller,
                    *id,
                );
                final(self).store.orders@ == sp.0 && final(self).ledger.entries@ == sp.1
                    && r == sp.2
            }),
    {
        let i = match self.store.find(id) {
            Some(i) => i,
            None => {
                return Err(MarketError::OrderNotFound);
            },
        };
        proof {
            lemma_find_order_props(self.store.orders@, *id);
        }
        let o = self.store.orders[i];
        if o.owner != *caller {
            return Err(MarketError::NotOwner);
        }
        let asset: B256 = if o.base_size.negative {
            o.base_asset
        } else {
            self.config.quote_asset
        };
        proof {
            assert(asset == o.escrow_asset(self.config.quote_asset));
        }
        match self.ledger.credit(&o.owner, &asset, o.escrowed) {
            Ok(_) => {},
            Err(e) => {
                return Err(e);
            },
        }
        self.store.orders.remove(i);
        proof {
            let s0 = old(self).store.orders@;
            assert forall|k: int| 0 <= k < self.store.orders@.len()
                implies order_wf(#[trigger] self.store.orders@[k]) by {
                if k < i {
                    assert(self.store.orders@[k] == s0[k]);
                } else {
                    assert(self.store.orders@[k] == s0[k + 1]);
                }
            }
        }
        Ok(())
    }

    /// Matches a sell order against a buy order on the same market: the
    /// settled base amount moves from the seller's escrow to the buyer, its
    /// quote value at the maker's price from the buyer's escrow to the
    /// seller. A fully filled order leaves the book with its residual escrow
    /// refunded; a partially filled one rests on, reduced. The exact effect,
    /// including every failure, is `match_spec`.
    #[verifier::rlimit(100)]
    pub fn match_orders(&mut self, id_a: &OrderId, id_b: &OrderId) -> (r: Result<
        (),
        MarketError,
    >)
        requires
            old(self).wf(),
        ensures
            final(self).wf(),
            final(self).config == old(self).config,
            final(self).markets@ == old(self).markets@,
            ({
                let sp = match_spec(
                    old(self).config,
                    old(self).store.orders@,
                    old(self).ledger.entries@,
                    *id_a,
                    *id_b,
                );
                final(self).store.orders@ == sp.0 && final(self).ledger.entries@ == sp.1
                    && r == sp.2
            }),
    {
        let ia = match self.store.find(id_a) {
            Some(i) => i,
            None => {
                return Err(MarketError::OrderNotFound);
            },
        };
        let ib = match self.store.find(id_b) {
            Some(i) => i,
            None => {
                return Err(MarketError::OrderNotFound);
            },
        };
        proof {
            lemma_find_order_props(self.store.orders@, *id_a);
            lemma_find_order_props(self.store.orders@, *id_b);
        }
        let a = self.store.orders[ia];
        let b = self.store.orders[ib];
        if a.base_asset != b.base_asset {
            return Err(MarketError::IncompatibleMarket);
        }
        if a.base_size.negative == b.base_size.negative {
            return Err(MarketError::SameSide);
        }
        proof {
            assert(ia != ib);
        }
        let is_: usize = if a.base_size.negative { ia } else { ib };
        let ib2: usize = if a.base_size.negative { ib } else { ia };
        let sell = self.store.orders[is_];
        let buy = self.store.orders[ib2];
        let qty: u64 = if sell.base_size.magnitude <= buy.base_size.magnitude {
            sell.base_size.magnitude
        } else {
            buy.base_size.magnitude
        };
        let trade_price: u64 = if a.block_height < b.block_height
            || (a.block_height == b.block_height && a.order_height <= b.order_height) {
            a.base_price
        } else {
            b.base_price
        };
        proof {
            lemma_pow10_pos(self.config.price_decimals as nat);
        }
        let quote_amt = match quote_amount_u64(qty, trade_price, self.config.price_scale) {
            Ok(v) => v,
            Err(e) => {
                return Err(e);
            },
        };
        if sell.escrowed < qty || buy.escrowed < quote_amt {
            return Err(MarketError::InsufficientBalance);
        }
        let sell_filled = sell.base_size.magnitude == qty;
        let buy_filled = buy.base_size.magnitude == qty;
        let sell_residual: u64 = if sell_filled { sell.escrowed - qty } else { 0 };
        let buy_residual: u64 = if buy_filled { buy.escrowed - quote_amt } else { 0 };
        let mut scratch = self.ledger.duplicate();
        match scratch.credit(&buy.owner, &buy.base_asset, qty) {
            Ok(_) => {},
            Err(e) => {
                return Err(e);
            },
        }
        match scratch.credit(&sell.owner, &self.config.quote_asset, quote_amt) {
            Ok(_) => {},
            Err(e) => {
                return Err(e);
            },
        }
        match scratch.credit(&sell.owner, &sell.base_asset, sell_residual) {
            Ok(_) => {},
            Err(e) => {
                return Err(e);
            },
        }
        match scratch.credit(&buy.owner, &self.config.quote_asset, buy_residual) {
            Ok(_) => {},
            Err(e) => {
                return Err(e);
            },
        }
        self.ledger = scratch;
        let ghost s0 = self.store.orders@;
        if sell_filled && buy_filled {
            let hi: usize = if is_ > ib2 { is_ } else { ib2 };
            let lo: usize = if is_ > ib2 { ib2 } else { is_ };
            self.store.orders.remove(hi);
            self.store.orders.remove(lo);
            proof {
                let m = s0.remove(hi as int);
                let s1 = self.store.orders@;
                assert forall|k: int| 0 <= k < s1.len()
                    implies order_wf(#[trigger] s1[k]) by {
                    let j: int = if k < lo { k } else { k + 1 };
                    assert(s1[k] == m[j]);
                    let j2: int = if j < hi { j } else { j + 1 };
                    assert(m[j] == s0[j2]);
                    assert(order_wf(s0[j2]));
                }
            }
        } else if sell_filled {
            let buy2 = Order {
                base_size: SignedAmount {
                    magnitude: buy.base_size.magnitude - qty,
                    negative: buy.base_size.negative,
                },
                escrowed: buy.escrowed - quote_amt,
                ..buy
            };
            self.store.orders.set(ib2, buy2);
            self.store.orders.remove(is_);
            proof {
                assert(order_wf(buy2));
                let m = s0.update(ib2 as int, buy2);
                let s1 = self.store.orders@;
                assert forall|k: int| 0 <= k < s1.len()
                    implies order_wf(#[trigger] s1[k]) by {
                    let j: int = if k < is_ { k } else { k + 1 };
                    assert(s1[k] == m[j]);
                    if j != ib2 {
                        assert(m[j] == s0[j]);
                        assert(order_wf(s0[j]));
                    }
                }
            }
        } else {
            let sell2 = Order {
                base_size: SignedAmount {
                    magnitude: sell.base_size.magnitude - qty,
                    negative: sell.base_size.negative,
                },
                escrowed: sell.escrowed - qty,
                ..sell
            };
            self.store.orders.set(is_, sell2);
            self.store.orders.remove(ib2);
            proof {
                assert(order_wf(sell2));
                let m = s0.update(is_ as int, sell2);
                let s1 = self.store.orders@;
                assert forall|k: int| 0 <= k < s1.len()
                    implies order_wf(#[trigger] s1[k]) by {
                    let j: int = if k < ib2 { k } else { k + 1 };
                    assert(s1[k] == m[j]);
                    if j != is_ {
                        assert(m[j] == s0[j]);
                        assert(order_wf(s0[j]));
                    }
                }
            }
        }
        Ok(())
    }

    /// The order carrying `id`, if one rests in the book.
    pub fn order_by_id(&self, id: &OrderId) -> (r: Option<Order>)
        ensures
            match r {
                Some(o) => find_order(self.store.orders@, *id) >= 0
                    && o == self.store.orders@[find_order(self.store.orders@, *id)],
                None => find_order(self.store.orders@, *id) == -1,
            },
    {
        self.store.get(id)
    }

    /// The ids of `owner`'s resting orders, in insertion order.
    pub fn orders_by_trader(&self, owner: &Identity) -> (r: Vec<OrderId>)
        ensures
            r@ == trader_ids(self.store.orders@, *owner),
    {
        self.store.by_trader(owner)
    }
}

} // verus!
