use vstd::prelude::*;
use crate::types::{B256, BalanceEntry, Config, Identity, Market, MarketError, Order, OrderId,
    SignedAmount};
use crate::ledger::{balance_in, credit_spec, debit_spec, sum_free, lemma_credit_props,
    lemma_debit_props};
use crate::store::{find_order, trader_ids, sum_backing, lemma_find_order_props,
    lemma_find_order_at, lemma_find_order_absent, lemma_trader_ids_contains, lemma_backing_update,
    lemma_backing_push, lemma_backing_remove};
use crate::engine::{config_wf, has_market, req_asset_spec, req_amount_spec, merge_compatible,
    open_spec, cancel_spec, match_spec, earlier};
use crate::math::{quote_amount, lemma_quote_amount_nonneg, lemma_pow10_pos};
use crate::oid::order_id_spec;

verus! {

/// Everything the engine holds in `asset`: free balances plus the escrow
/// backing resting orders.
pub open spec fn holdings(
    orders: Seq<Order>,
    entries: Seq<BalanceEntry>,
    asset: B256,
    quote_asset: B256,
) -> int {
    sum_free(entries, asset) + sum_backing(orders, asset, quote_asset)
}

/// Conservation under `open_order`: a successful open grows the engine's
/// holdings by exactly the attached amount, in the attached asset alone;
/// a failed one changes nothing.
pub proof fn lemma_open_holdings(
    cfg: Config,
    markets: Seq<Market>,
    orders: Seq<Order>,
    entries: Seq<BalanceEntry>,
    caller: Identity,
    base_asset: B256,
    size: SignedAmount,
    price: u64,
    block_height: u32,
    order_height: u64,
    attached_asset: B256,
    attached_amount: u64,
)
    requires
        config_wf(cfg),
    ensures
        ({
            let sp = open_spec(
                cfg,
                markets,
                orders,
                entries,
                caller,
                base_asset,
                size,
                price,
                block_height,
                order_height,
                attached_asset,
                attached_amount,
            );
            &&& (sp.2 is Ok ==> forall|a: B256|
                holdings(sp.0, sp.1, a, cfg.quote_asset) == holdings(
                    orders,
                    entries,
                    a,
                    cfg.quote_asset,
                ) + (if a == attached_asset { attached_amount as int } else { 0 }))
            &&& (sp.2 is Err ==> sp.0 == orders && sp.1 == entries)
        }),
{
    let sp = open_spec(
        cfg,
        markets,
        orders,
        entries,
        caller,
        base_asset,
        size,
        price,
        block_height,
        order_height,
        attached_asset,
        attached_amount,
    );
    if sp.2 is Ok {
        let req_asset = req_asset_spec(cfg, base_asset, size);
        let req = req_amount_spec(cfg, size, price);
        lemma_pow10_pos(cfg.price_decimals as nat);
        if !size.negative {
            lemma_quote_amount_nonneg(size.magnitude, price, cfg.price_scale);
        }
        assert(req >= 0);
        let excess = (attached_amount - req) as u64;
        let id = order_id_spec(size.side(), caller, price, block_height, order_height);
        let i = find_order(orders, id);
        lemma_credit_props(entries, caller, req_asset, excess);
        let e2 = credit_spec(entries, caller, req_asset, excess)->Some_0;
        if i >= 0 && merge_compatible(
            orders[i],
            caller,
            base_asset,
            size,
            price,
            block_height,
            order_height,
        ) {
            let ex = orders[i];
            lemma_find_order_props(orders, id);
            let merged = Order {
                base_size: SignedAmount {
                    magnitude: (ex.base_size.magnitude + size.magnitude) as u64,
                    negative: ex.base_size.negative,
                },
                escrowed: (ex.escrowed + req) as u64,
                ..ex
            };
            lemma_backing_update(orders, i, merged, cfg.quote_asset);
            assert(merged.escrow_asset(cfg.quote_asset) == req_asset);
            assert(ex.escrow_asset(cfg.quote_asset) == req_asset);
            assert(sp.0 == orders.update(i, merged));
            assert(sp.1 == e2);
            assert(attached_asset == req_asset);
            assert(excess + req == attached_amount);
            assert forall|a: B256|
                holdings(sp.0, sp.1, a, cfg.quote_asset) == holdings(
                    orders,
                    entries,
                    a,
                    cfg.quote_asset,
                ) + (if a == attached_asset { attached_amount as int } else { 0 }) by {
                assert(sum_backing(orders.update(i, merged), a, cfg.quote_asset)
                    == sum_backing(orders, a, cfg.quote_asset)
                        - (if ex.escrow_asset(cfg.quote_asset) == a { ex.escrowed as int } else { 0 })
                        + (if merged.escrow_asset(cfg.quote_asset) == a {
                            merged.escrowed as int
                        } else {
                            0
                        }));
            }
        } else {
            let o = Order {
                id,
                owner: caller,
                base_asset,
                base_price: price,
                base_size: size,
                block_height,
                order_height,
                escrowed: req as u64,
            };
            lemma_backing_push(orders, o, cfg.quote_asset);
            assert(o.escrow_asset(cfg.quote_asset) == req_asset);
            assert forall|a: B256|
                holdings(sp.0, sp.1, a, cfg.quote_asset) == holdings(
                    orders,
                    entries,
                    a,
                    cfg.quote_asset,
                ) + (if a == attached_asset { attached_amount as int } else { 0 }) by {
                assert(sum_backing(orders.push(o), a, cfg.quote_asset)
                    == sum_backing(orders, a, cfg.quote_asset)
                        + (if o.escrow_asset(cfg.quote_asset) == a { o.escrowed as int } else { 0 }));
            }
        }
    }
}

/// Conservation under `cancel_order`: cancellation moves value from order
/// backing to the owner's free balance; the engine's holdings do not change.
pub proof fn lemma_cancel_holdings(
    cfg: Config,
    orders: Seq<Order>,
    entries: Seq<BalanceEntry>,
    caller: Identity,
    id: OrderId,
)
    ensures
        ({
            let sp = cancel_spec(cfg, orders, entries, caller, id);
            &&& (sp.2 is Ok ==> forall|a: B256|
                holdings(sp.0, sp.1, a, cfg.quote_asset) == holdings(
                    orders,
                    entries,
                    a,
                    cfg.quote_asset,
                ))
            &&& (sp.2 is Err ==> sp.0 == orders && sp.1 == entries)
        }),
{
    let sp = cancel_spec(cfg, orders, entries, caller, id);
    if sp.2 is Ok {
        let i = find_order(orders, id);
        lemma_find_order_props(orders, id);
        let o = orders[i];
        lemma_credit_props(entries, o.owner, o.escrow_asset(cfg.quote_asset), o.escrowed);
        lemma_backing_remove(orders, i, cfg.quote_asset);
        assert forall|a: B256|
            holdings(sp.0, sp.1, a, cfg.quote_asset) == holdings(orders, entries, a, cfg.quote_asset)
            by {
            assert(sum_backing(orders.remove(i), a, cfg.quote_asset)
                == sum_backing(orders, a, cfg.quote_asset)
                    - (if o.escrow_asset(cfg.quote_asset) == a { o.escrowed as int } else { 0 }));
        }
    }
}

/// Conservation under `match_orders`: settlement moves value between the two
/// owners' balances and order backings; the engine's holdings do not change.
pub proof fn lemma_match_holdings(
    cfg: Config,
    orders: Seq<Order>,
    entries: Seq<BalanceEntry>,
    id_a: OrderId,
    id_b: OrderId,
)
    requires
        config_wf(cfg),
    ensures
        ({
            let sp = match_spec(cfg, orders, entries, id_a, id_b);
            &&& (sp.2 is Ok ==> forall|a: B256|
                holdings(sp.0, sp.1, a, cfg.quote_asset) == holdings(
                    orders,
                    entries,
                    a,
                    cfg.quote_asset,
                ))
            &&& (sp.2 is Err ==> sp.0 == orders && sp.1 == entries)
        }),
{
    let sp = match_spec(cfg, orders, entries, id_a, id_b);
    if sp.2 is Ok {
        let ia = find_order(orders, id_a);
        let ib = find_order(orders, id_b);
        lemma_find_order_props(orders, id_a);
        lemma_find_order_props(orders, id_b);
        let is_ = if orders[ia].base_size.negative { ia } else { ib };
        let ib2 = if orders[ia].base_size.negative { ib } else { ia };
        let sell = orders[is_];
        let buy = orders[ib2];
        let qty = if sell.base_size.magnitude <= buy.base_size.magnitude {
            sell.base_size.magnitude
        } else {
            buy.base_size.magnitude
        };
        let trade_price = if earlier(orders[ia], orders[ib]) {
            orders[ia].base_price
        } else {
            orders[ib].base_price
        };
        let quote_amt = quote_amount(qty, trade_price, cfg.price_scale);
        lemma_pow10_pos(cfg.price_decimals as nat);
        lemma_quote_amount_nonneg(qty, trade_price, cfg.price_scale);
        let sell_filled = sell.base_size.magnitude == qty;
        let buy_filled = buy.base_size.magnitude == qty;
        let sell_residual = if sell_filled { (sell.escrowed - qty) as u64 } else { 0u64 };
        let buy_residual = if buy_filled { (buy.escrowed - quote_amt) as u64 } else { 0u64 };
        lemma_credit_props(entries, buy.owner, buy.base_asset, qty);
        let e1 = credit_spec(entries, buy.owner, buy.base_asset, qty)->Some_0;
        lemma_credit_props(e1, sell.owner, cfg.quote_asset, quote_amt as u64);
        let e2 = credit_spec(e1, sell.owner, cfg.quote_asset, quote_amt as u64)->Some_0;
        lemma_credit_props(e2, sell.owner, sell.base_asset, sell_residual);
        let e3 = credit_spec(e2, sell.owner, sell.base_asset, sell_residual)->Some_0;
        lemma_credit_props(e3, buy.owner, cfg.quote_asset, buy_residual);
        let e4 = credit_spec(e3, buy.owner, cfg.quote_asset, buy_residual)->Some_0;
        assert(sell.escrow_asset(cfg.quote_asset) == sell.base_asset);
        assert(buy.escrow_asset(cfg.quote_asset) == cfg.quote_asset);
        assert(sell.base_asset == buy.base_asset);
        if sell_filled && buy_filled {
            let hi = if is_ > ib2 { is_ } else { ib2 };
            let lo = if is_ > ib2 { ib2 } else { is_ };
            lemma_backing_remove(orders, hi, cfg.quote_asset);
            lemma_backing_remove(orders.remove(hi), lo, cfg.quote_asset);
            assert forall|a: B256|
                holdings(sp.0, sp.1, a, cfg.quote_asset) == holdings(
                    orders,
                    entries,
                    a,
                    cfg.quote_asset,
                ) by {
                assert(orders.remove(hi)[lo] == orders[lo]);
                assert(sum_backing(orders.remove(hi), a, cfg.quote_asset)
                    == sum_backing(orders, a, cfg.quote_asset)
                        - (if orders[hi].escrow_asset(cfg.quote_asset) == a {
                            orders[hi].escrowed as int
                        } else {
                            0
                        }));
                assert(sum_backing(orders.remove(hi).remove(lo), a, cfg.quote_asset)
                    == sum_backing(orders.remove(hi), a, cfg.quote_asset)
                        - (if orders[lo].escrow_asset(cfg.quote_asset) == a {
                            orders[lo].escrowed as int
                        } else {
                            0
                        }));
            }
        } else if sell_filled {
            let buy2 = Order {
                base_size: SignedAmount {
                    magnitude: (buy.base_size.magnitude - qty) as u64,
                    negative: buy.base_size.negative,
                },
                escrowed: (buy.escrowed - quote_amt) as u64,
                ..buy
            };
            lemma_backing_update(orders, ib2, buy2, cfg.quote_asset);
            lemma_backing_remove(orders.update(ib2, buy2), is_, cfg.quote_asset);
            assert forall|a: B256|
                holdings(sp.0, sp.1, a, cfg.quote_asset) == holdings(
                    orders,
                    entries,
                    a,
                    cfg.quote_asset,
                ) by {
                assert(orders.update(ib2, buy2)[is_] == sell);
                assert(buy2.escrow_asset(cfg.quote_asset) == cfg.quote_asset);
                assert(sum_backing(orders.update(ib2, buy2), a, cfg.quote_asset)
                    == sum_backing(orders, a, cfg.quote_asset)
                        - (if buy.escrow_asset(cfg.quote_asset) == a { buy.escrowed as int } else { 0 })
                        + (if buy2.escrow_asset(cfg.quote_asset) == a {
                            buy2.escrowed as int
                        } else {
                            0
                        }));
                assert(sum_backing(orders.update(ib2, buy2).remove(is_), a, cfg.quote_asset)
                    == sum_backing(orders.update(ib2, buy2), a, cfg.quote_asset)
                        - (if sell.escrow_asset(cfg.quote_asset) == a {
                            sell.escrowed as int
                        } else {
                            0
                        }));
            }
        } else {
            let sell2 = Order {
                base_size: SignedAmount {
                    magnitude: (sell.base_size.magnitude - qty) as u64,
                    negative: sell.base_size.negative,
                },
                escrowed: (sell.escrowed - qty) as u64,
                ..sell
            };
            lemma_backing_update(orders, is_, sell2, cfg.quote_asset);
            lemma_backing_remove(orders.update(is_, sell2), ib2, cfg.quote_asset);
            assert forall|a: B256|
                holdings(sp.0, sp.1, a, cfg.quote_asset) == holdings(
                    orders,
                    entries,
                    a,
                    cfg.quote_asset,
                ) by {
                assert(orders.update(is_, sell2)[ib2] == buy);
                assert(sell2.escrow_asset(cfg.quote_asset) == sell.base_asset);
                assert(sum_backing(orders.update(is_, sell2), a, cfg.quote_asset)
                    == sum_backing(orders, a, cfg.quote_asset)
                        - (if sell.escrow_asset(cfg.quote_asset) == a {
                            sell.escrowed as int
                        } else {
                            0
                        })
                        + (if sell2.escrow_asset(cfg.quote_asset) == a {
                            sell2.escrowed as int
                        } else {
                            0
                        }));
                assert(sum_backing(orders.update(is_, sell2).remove(ib2), a, cfg.quote_asset)
                    == sum_backing(orders.update(is_, sell2), a, cfg.quote_asset)
                        - (if buy.escrow_asset(cfg.quote_asset) == a { buy.escrowed as int } else { 0 }));
            }
        }
    }
}

/// Conservation under `deposit`: a successful deposit grows the engine's
/// holdings by exactly the deposited amount, in the deposited asset alone.
pub proof fn lemma_deposit_holdings(
    orders: Seq<Order>,
    entries: Seq<BalanceEntry>,
    owner: Identity,
    asset: B256,
    amount: u64,
    quote_asset: B256,
)
    ensures
        credit_spec(entries, owner, asset, amount) matches Some(e2) ==> forall|a: B256|
            holdings(orders, e2, a, quote_asset) == holdings(orders, entries, a, quote_asset)
                + (if a == asset { amount as int } else { 0 }),
{
    lemma_credit_props(entries, owner, asset, amount);
}

/// Conservation under `withdraw`: a successful withdrawal shrinks the
/// engine's holdings by exactly the withdrawn amount, in that asset alone.
pub proof fn lemma_withdraw_holdings(
    orders: Seq<Order>,
    entries: Seq<BalanceEntry>,
    owner: Identity,
    asset: B256,
    amount: u64,
    quote_asset: B256,
)
    ensures
        debit_spec(entries, owner, asset, amount) matches Some(e2) ==> forall|a: B256|
            holdings(orders, e2, a, quote_asset) == holdings(orders, entries, a, quote_asset)
                - (if a == asset { amount as int } else { 0 }),
{
    lemma_debit_props(entries, owner, asset, amount);
}

/// One engine operation, for stating laws over whole operation sequences.
pub enum Op {
    Deposit { owner: Identity, asset: B256, amount: u64 },
    Withdraw { owner: Identity, asset: B256, amount: u64 },
    Open {
        caller: Identity,
        base_asset: B256,
        size: SignedAmount,
        price: u64,
        block_height: u32,
        order_height: u64,
        attached_asset: B256,
        attached_amount: u64,
    },
    Cancel { caller: Identity, id: OrderId },
    Match { id_a: OrderId, id_b: OrderId },
}

/// The orders and ledger entries after one operation; a failed operation
/// leaves them unchanged.
pub open spec fn step(
    cfg: Config,
    markets: Seq<Market>,
    orders: Seq<Order>,
    entries: Seq<BalanceEntry>,
    op: Op,
) -> (Seq<Order>, Seq<BalanceEntry>) {
    match op {
        Op::Deposit { owner, asset, amount } => match credit_spec(entries, owner, asset, amount) {
            Some(e2) => (orders, e2),
            None => (orders, entries),
        },
        Op::Withdraw { owner, asset, amount } => match debit_spec(entries, owner, asset, amount) {
            Some(e2) => (orders, e2),
            None => (orders, entries),
        },
        Op::Open {
            caller,
            base_asset,
            size,
            price,
            block_height,
            order_height,
            attached_asset,
            attached_amount,
        } => {
            let sp = open_spec(
                cfg,
                markets,
                orders,
                entries,
                caller,
                base_asset,
                size,
                price,
                block_height,
                order_height,
                attached_asset,
                attached_amount,
            );
            (sp.0, sp.1)
        },
        Op::Cancel { caller, id } => {
            let sp = cancel_spec(cfg, orders, entries, caller, id);
            (sp.0, sp.1)
        },
        Op::Match { id_a, id_b } => {
            let sp = match_spec(cfg, orders, entries, id_a, id_b);
            (sp.0, sp.1)
        },
    }
}

/// The value one operation moves into the engine in `asset`: deposits and
/// attached funds count positive, withdrawals negative, and an operation
/// that fails moves nothing.
pub open spec fn op_flow(
    cfg: Config,
    markets: Seq<Market>,
    orders: Seq<Order>,
    entries: Seq<BalanceEntry>,
    op: Op,
    asset: B256,
) -> int {
    match op {
        Op::Deposit { owner, asset: dep_asset, amount } => {
            if credit_spec(entries, owner, dep_asset, amount) is Some && asset == dep_asset {
                amount as int
            } else {
                0
            }
        },
        Op::Withdraw { owner, asset: wd_asset, amount } => {
            if debit_spec(entries, owner, wd_asset, amount) is Some && asset == wd_asset {
                -(amount as int)
            } else {
                0
            }
        },
        Op::Open {
            caller,
            base_asset,
            size,
            price,
            block_height,
            order_height,
            attached_asset,
            attached_amount,
        } => {
            let sp = open_spec(
                cfg,
                markets,
                orders,
                entries,
                caller,
                base_asset,
                size,
                price,
                block_height,
                order_height,
                attached_asset,
                attached_amount,
            );
            if sp.2 is Ok && asset == attached_asset {
                attached_amount as int
            } else {
                0
            }
        },
        Op::Cancel { .. } => 0,
        Op::Match { .. } => 0,
    }
}

/// The orders and ledger entries after a whole sequence of operations.
pub open spec fn run_ops(
    cfg: Config,
    markets: Seq<Market>,
    orders: Seq<Order>,
    entries: Seq<BalanceEntry>,
    ops: Seq<Op>,
) -> (Seq<Order>, Seq<BalanceEntry>)
    decreases ops.len(),
{
    if ops.len() == 0 {
        (orders, entries)
    } else {
        let st = step(cfg, markets, orders, entries, ops[0]);
        run_ops(cfg, markets, st.0, st.1, ops.drop_first())
    }
}

/// The net value a whole sequence of operations moves into the engine in
/// `asset`: its successful deposits and attached funds minus its successful
/// withdrawals.
pub open spec fn flow_ops(
    cfg: Config,
    markets: Seq<Market>,
    orders: Seq<Order>,
    entries: Seq<BalanceEntry>,
    ops: Seq<Op>,
    asset: B256,
) -> int
    decreases ops.len(),
{
    if ops.len() == 0 {
        0
    } else {
        let st = step(cfg, markets, orders, entries, ops[0]);
        op_flow(cfg, markets, orders, entries, ops[0], asset)
            + flow_ops(cfg, markets, st.0, st.1, ops.drop_first(), asset)
    }
}

/// Conservation: over any sequence of deposit / withdraw / open / cancel /
/// match operations, the engine's holdings in every asset change by exactly
/// the net value the sequence moved in.
pub proof fn lemma_conservation(
    cfg: Config,
    markets: Seq<Market>,
    orders: Seq<Order>,
    entries: Seq<BalanceEntry>,
    ops: Seq<Op>,
    asset: B256,
)
    requires
        config_wf(cfg),
    ensures
        ({
            let st = run_ops(cfg, markets, orders, entries, ops);
            holdings(st.0, st.1, asset, cfg.quote_asset) == holdings(
                orders,
                entries,
                asset,
                cfg.quote_asset,
            ) + flow_ops(cfg, markets, orders, entries, ops, asset)
        }),
    decreases ops.len(),
{
    if ops.len() > 0 {
        let op = ops[0];
        let st1 = step(cfg, markets, orders, entries, op);
        match op {
            Op::Deposit { owner, asset: a2, amount } => {
                lemma_deposit_holdings(orders, entries, owner, a2, amount, cfg.quote_asset);
            },
            Op::Withdraw { owner, asset: a2, amount } => {
                lemma_withdraw_holdings(orders, entries, owner, a2, amount, cfg.quote_asset);
            },
            Op::Open {
                caller,
                base_asset,
                size,
                price,
                block_height,
                order_height,
                attached_asset,
                attached_amount,
            } => {
                lemma_open_holdings(
                    cfg,
                    markets,
                    orders,
                    entries,
                    caller,
                    base_asset,
                    size,
                    price,
                    block_height,
                    order_height,
                    attached_asset,
                    attached_amount,
                );
            },
            Op::Cancel { caller, id } => {
                lemma_cancel_holdings(cfg, orders, entries, caller, id);
            },
            Op::Match { id_a, id_b } => {
                lemma_match_holdings(cfg, orders, entries, id_a, id_b);
            },
        }
        assert(holdings(st1.0, st1.1, asset, cfg.quote_asset) == holdings(
            orders,
            entries,
            asset,
            cfg.quote_asset,
        ) + op_flow(cfg, markets, orders, entries, op, asset));
        lemma_conservation(cfg, markets, st1.0, st1.1, ops.drop_first(), asset);
    }
}

/// Conservation from a fresh engine: after any operation sequence the free
/// balances plus the escrow backing open orders equal, in every asset, the
/// deposits (attached funds included) minus the withdrawals.
pub proof fn lemma_conservation_from_empty(
    cfg: Config,
    markets: Seq<Market>,
    ops: Seq<Op>,
    asset: B256,
)
    requires
        config_wf(cfg),
    ensures
        ({
            let st = run_ops(cfg, markets, Seq::empty(), Seq::empty(), ops);
            sum_free(st.1, asset) + sum_backing(st.0, asset, cfg.quote_asset) == flow_ops(
                cfg,
                markets,
                Seq::empty(),
                Seq::empty(),
                ops,
                asset,
            )
        }),
{
    lemma_conservation(cfg, markets, Seq::empty(), Seq::empty(), ops, asset);
}

/// Ownership guard: a cancel attempted by anyone but the order's owner
/// fails with `NotOwner` and leaves the state unchanged.
pub proof fn lemma_cancel_not_owner(
    cfg: Config,
    orders: Seq<Order>,
    entries: Seq<BalanceEntry>,
    caller: Identity,
    id: OrderId,
)
    requires
        find_order(orders, id) >= 0,
        orders[find_order(orders, id)].owner != caller,
    ensures
        cancel_spec(cfg, orders, entries, caller, id) == (
            orders,
            entries,
            Err::<(), MarketError>(MarketError::NotOwner),
        ),
{
}

/// Cancel reversibility: opening an order with exactly the required funds
/// attached and cancelling it at once leaves the book as it was, and gives
/// the owner's free balance exactly the attached amount; every other balance
/// is untouched.
pub proof fn lemma_open_then_cancel(
    cfg: Config,
    markets: Seq<Market>,
    orders: Seq<Order>,
    entries: Seq<BalanceEntry>,
    caller: Identity,
    base_asset: B256,
    size: SignedAmount,
    price: u64,
    block_height: u32,
    order_height: u64,
)
    requires
        config_wf(cfg),
        has_market(markets, base_asset),
        size.magnitude > 0,
        req_amount_spec(cfg, size, price) <= u64::MAX,
        find_order(orders, order_id_spec(size.side(), caller, price, block_height, order_height))
            == -1,
        balance_in(entries, caller, req_asset_spec(cfg, base_asset, size))
            + req_amount_spec(cfg, size, price) <= u64::MAX,
    ensures
        ({
            let attached_asset = req_asset_spec(cfg, base_asset, size);
            let attached = req_amount_spec(cfg, size, price) as u64;
            let o1 = open_spec(
                cfg,
                markets,
                orders,
                entries,
                caller,
                base_asset,
                size,
                price,
                block_height,
                order_height,
                attached_asset,
                attached,
            );
            &&& o1.2 is Ok
            &&& ({
                let c = cancel_spec(cfg, o1.0, o1.1, caller, o1.2->Ok_0);
                &&& c.2 is Ok
                &&& c.0 == orders
                &&& forall|ow: Identity, a2: B256|
                    balance_in(c.1, ow, a2) == balance_in(entries, ow, a2) + (
                    if ow == caller && a2 == attached_asset {
                        attached as int
                    } else {
                        0
                    })
            })
        }),
{
    let attached_asset = req_asset_spec(cfg, base_asset, size);
    let req = req_amount_spec(cfg, size, price);
    lemma_pow10_pos(cfg.price_decimals as nat);
    if !size.negative {
        lemma_quote_amount_nonneg(size.magnitude, price, cfg.price_scale);
    }
    assert(req >= 0);
    let attached = req as u64;
    let id = order_id_spec(size.side(), caller, price, block_height, order_height);
    let o1 = open_spec(
        cfg,
        markets,
        orders,
        entries,
        caller,
        base_asset,
        size,
        price,
        block_height,
        order_height,
        attached_asset,
        attached,
    );
    let o = Order {
        id,
        owner: caller,
        base_asset,
        base_price: price,
        base_size: size,
        block_height,
        order_height,
        escrowed: attached,
    };
    assert(o1.0 == orders.push(o) && o1.1 == entries && o1.2 == Ok::<OrderId, MarketError>(id));
    lemma_find_order_props(orders, id);
    assert(forall|k: int| 0 <= k < orders.len() ==> (#[trigger] orders[k]).id != id);
    assert(forall|k: int|
        0 <= k < orders.len() ==> (#[trigger] orders.push(o)[k]).id != id);
    assert(orders.push(o)[orders.len() as int].id == id);
    lemma_find_order_at(orders.push(o), id, orders.len() as int);
    assert(o.escrow_asset(cfg.quote_asset) == attached_asset);
    lemma_credit_props(entries, caller, attached_asset, attached);
    let c = cancel_spec(cfg, o1.0, o1.1, caller, id);
    assert(c.2 is Ok);
    assert(orders.push(o).remove(orders.len() as int) =~= orders);
}

/// Merge idempotence of the order id: opening twice with identical owner,
/// side, price, block height and order height (exact funds attached) yields
/// one stored order whose magnitude is the sum of the two magnitudes.
pub proof fn lemma_open_twice_merges(
    cfg: Config,
    markets: Seq<Market>,
    orders: Seq<Order>,
    entries: Seq<BalanceEntry>,
    caller: Identity,
    base_asset: B256,
    size1: SignedAmount,
    size2: SignedAmount,
    price: u64,
    block_height: u32,
    order_height: u64,
)
    requires
        config_wf(cfg),
        has_market(markets, base_asset),
        size1.magnitude > 0,
        size2.magnitude > 0,
        size1.negative == size2.negative,
        find_order(orders, order_id_spec(size1.side(), caller, price, block_height, order_height))
            == -1,
        size1.magnitude + size2.magnitude <= u64::MAX,
        req_amount_spec(cfg, size1, price) + req_amount_spec(cfg, size2, price) <= u64::MAX,
    ensures
        ({
            let a1 = req_asset_spec(cfg, base_asset, size1);
            let r1 = req_amount_spec(cfg, size1, price) as u64;
            let r2 = req_amount_spec(cfg, size2, price) as u64;
            let id = order_id_spec(size1.side(), caller, price, block_height, order_height);
            let o1 = open_spec(
                cfg,
                markets,
                orders,
                entries,
                caller,
                base_asset,
                size1,
                price,
                block_height,
                order_height,
                a1,
                r1,
            );
            let o2 = open_spec(
                cfg,
                markets,
                o1.0,
                o1.1,
                caller,
                base_asset,
                size2,
                price,
                block_height,
                order_height,
                a1,
                r2,
            );
            &&& o1.2 is Ok
            &&& o2.2 is Ok
            &&& o2.1 == entries
            &&& o2.0.len() == orders.len() + 1
            &&& o2.0[orders.len() as int].id == id
            &&& o2.0[orders.len() as int].owner == caller
            &&& o2.0[orders.len() as int].base_price == price
            &&& o2.0[orders.len() as int].base_size.negative == size1.negative
            &&& o2.0[orders.len() as int].base_size.magnitude == size1.magnitude
                + size2.magnitude
        }),
{
    let a1 = req_asset_spec(cfg, base_asset, size1);
    let req1 = req_amount_spec(cfg, size1, price);
    let req2 = req_amount_spec(cfg, size2, price);
    lemma_pow10_pos(cfg.price_decimals as nat);
    if !size1.negative {
        lemma_quote_amount_nonneg(size1.magnitude, price, cfg.price_scale);
        lemma_quote_amount_nonneg(size2.magnitude, price, cfg.price_scale);
    }
    assert(req1 >= 0 && req2 >= 0);
    let r1 = req1 as u64;
    let r2 = req2 as u64;
    let id = order_id_spec(size1.side(), caller, price, block_height, order_height);
    assert(size2.side() == size1.side());
    let o1 = open_spec(
        cfg,
        markets,
        orders,
        entries,
        caller,
        base_asset,
        size1,
        price,
        block_height,
        order_height,
        a1,
        r1,
    );
    let o = Order {
        id,
        owner: caller,
        base_asset,
        base_price: price,
        base_size: size1,
        block_height,
        order_height,
        escrowed: r1,
    };
    assert(o1.0 == orders.push(o) && o1.1 == entries && o1.2 == Ok::<OrderId, MarketError>(id));
    lemma_find_order_props(orders, id);
    assert(forall|k: int| 0 <= k < orders.len() ==> (#[trigger] orders[k]).id != id);
    assert(forall|k: int|
        0 <= k < orders.len() ==> (#[trigger] orders.push(o)[k]).id != id);
    assert(orders.push(o)[orders.len() as int].id == id);
    lemma_find_order_at(orders.push(o), id, orders.len() as int);
    assert(merge_compatible(o, caller, base_asset, size2, price, block_height, order_height));
    let o2 = open_spec(
        cfg,
        markets,
        o1.0,
        o1.1,
        caller,
        base_asset,
        size2,
        price,
        block_height,
        order_height,
        a1,
        r2,
    );
    assert(o2.2 is Ok);
    assert(o2.0[orders.len() as int].base_size.magnitude == size1.magnitude + size2.magnitude);
}

/// Full match removal: matching two orders of exactly equal opposing
/// magnitude (each the only holder of its id) removes both from the book,
/// and with them their entries in both traders' indices.
pub proof fn lemma_full_match_removes(
    cfg: Config,
    orders: Seq<Order>,
    entries: Seq<BalanceEntry>,
    id_a: OrderId,
    id_b: OrderId,
)
    requires
        config_wf(cfg),
        id_a != id_b,
        find_order(orders, id_a) >= 0,
        find_order(orders, id_b) >= 0,
        forall|k: int|
            0 <= k < orders.len() && (#[trigger] orders[k]).id == id_a ==> k == find_order(
                orders,
                id_a,
            ),
        forall|k: int|
            0 <= k < orders.len() && (#[trigger] orders[k]).id == id_b ==> k == find_order(
                orders,
                id_b,
            ),
        orders[find_order(orders, id_a)].base_size.magnitude == orders[find_order(
            orders,
            id_b,
        )].base_size.magnitude,
        match_spec(cfg, orders, entries, id_a, id_b).2 is Ok,
    ensures
        ({
            let sp = match_spec(cfg, orders, entries, id_a, id_b);
            &&& sp.0.len() == orders.len() - 2
            &&& find_order(sp.0, id_a) == -1
            &&& find_order(sp.0, id_b) == -1
            &&& !trader_ids(sp.0, orders[find_order(orders, id_a)].owner).contains(id_a)
            &&& !trader_ids(sp.0, orders[find_order(orders, id_b)].owner).contains(id_b)
        }),
{
    let sp = match_spec(cfg, orders, entries, id_a, id_b);
    let ia = find_order(orders, id_a);
    let ib = find_order(orders, id_b);
    lemma_find_order_props(orders, id_a);
    lemma_find_order_props(orders, id_b);
    assert(ia != ib);
    let hi = if ia > ib { ia } else { ib };
    let lo = if ia > ib { ib } else { ia };
    assert(sp.0 == orders.remove(hi).remove(lo));
    let m = orders.remove(hi);
    assert forall|k: int| 0 <= k < sp.0.len()
        implies (#[trigger] sp.0[k]).id != id_a && sp.0[k].id != id_b by {
        let j: int = if k < lo { k } else { k + 1 };
        assert(sp.0[k] == m[j]);
        let j2: int = if j < hi { j } else { j + 1 };
        assert(m[j] == orders[j2]);
        assert(j2 != ia && j2 != ib);
    }
    lemma_find_order_absent(sp.0, id_a);
    lemma_find_order_absent(sp.0, id_b);
    lemma_trader_ids_contains(sp.0, orders[ia].owner, id_a);
    lemma_trader_ids_contains(sp.0, orders[ib].owner, id_b);
}

/// Partial match persistence: matching orders of unequal magnitude removes
/// the smaller and leaves the larger resting with its magnitude reduced by
/// the smaller's, its id, owner, price and side unchanged.
pub proof fn lemma_partial_match_rests(
    cfg: Config,
    orders: Seq<Order>,
    entries: Seq<BalanceEntry>,
    id_a: OrderId,
    id_b: OrderId,
)
    requires
        config_wf(cfg),
        id_a != id_b,
        find_order(orders, id_a) >= 0,
        find_order(orders, id_b) >= 0,
        forall|k: int|
            0 <= k < orders.len() && (#[trigger] orders[k]).id == id_a ==> k == find_order(
                orders,
                id_a,
            ),
        forall|k: int|
            0 <= k < orders.len() && (#[trigger] orders[k]).id == id_b ==> k == find_order(
                orders,
                id_b,
            ),
        orders[find_order(orders, id_a)].base_size.magnitude != orders[find_order(
            orders,
            id_b,
        )].base_size.magnitude,
        match_spec(cfg, orders, entries, id_a, id_b).2 is Ok,
    ensures
        ({
            let sp = match_spec(cfg, orders, entries, id_a, id_b);
            let ia = find_order(orders, id_a);
            let ib = find_order(orders, id_b);
            let il = if orders[ia].base_size.magnitude > orders[ib].base_size.magnitude {
                ia
            } else {
                ib
            };
            let ismall = if il == ia { ib } else { ia };
            let large = orders[il];
            let small = orders[ismall];
            let j = find_order(sp.0, large.id);
            &&& sp.0.len() == orders.len() - 1
            &&& find_order(sp.0, small.id) == -1
            &&& j >= 0
            &&& sp.0[j].id == large.id
            &&& sp.0[j].owner == large.owner
            &&& sp.0[j].base_price == large.base_price
            &&& sp.0[j].base_size.negative == large.base_size.negative
            &&& sp.0[j].base_size.magnitude == large.base_size.magnitude
                - small.base_size.magnitude
        }),
{
    let sp = match_spec(cfg, orders, entries, id_a, id_b);
    let ia = find_order(orders, id_a);
    let ib = find_order(orders, id_b);
    lemma_find_order_props(orders, id_a);
    lemma_find_order_props(orders, id_b);
    assert(ia != ib);
    let il = if orders[ia].base_size.magnitude > orders[ib].base_size.magnitude {
        ia
    } else {
        ib
    };
    let ismall = if il == ia { ib } else { ia };
    let large = orders[il];
    let small = orders[ismall];
    let pos: int = if il < ismall { il } else { il - 1 };
    let upd = orders.update(il, sp.0[pos]);
    assert(sp.0 == upd.remove(ismall));
    assert(sp.0[pos] == upd[il]);
    assert forall|k: int| 0 <= k < sp.0.len() && k != pos
        implies (#[trigger] sp.0[k]).id != large.id && sp.0[k].id != small.id by {
        let j: int = if k < ismall { k } else { k + 1 };
        assert(sp.0[k] == upd[j]);
        assert(j != il && j != ismall);
        assert(upd[j] == orders[j]);
    }
    assert(sp.0[pos].id == large.id);
    assert forall|k: int| 0 <= k < pos implies (#[trigger] sp.0[k]).id != large.id by {}
    lemma_find_order_at(sp.0, large.id, pos);
    assert forall|k: int| 0 <= k < sp.0.len()
        implies (#[trigger] sp.0[k]).id != small.id by {
        if k == pos {
            assert(sp.0[pos].id == large.id);
            assert(large.id != small.id);
        }
    }
    lemma_find_order_absent(sp.0, small.id);
}

} // verus!
