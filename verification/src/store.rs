use vstd::prelude::*;
use crate::types::{B256, Identity, Order, OrderId};

verus! {

/// The index of the first order carrying `id`, or -1 when none does.
pub open spec fn find_order(s: Seq<Order>, id: OrderId) -> int
    decreases s.len(),
{
    if s.len() == 0 {
        -1
    } else if s[0].id == id {
        0
    } else {
        let r = find_order(s.drop_first(), id);
        if r < 0 {
            -1
        } else {
            r + 1
        }
    }
}

/// The ids of `owner`'s resting orders, in insertion order.
pub open spec fn trader_ids(s: Seq<Order>, owner: Identity) -> Seq<OrderId>
    decreases s.len(),
{
    if s.len() == 0 {
        Seq::empty()
    } else {
        (if s[0].owner == owner {
            seq![s[0].id]
        } else {
            Seq::empty()
        }) + trader_ids(s.drop_first(), owner)
    }
}

/// The total escrow backing resting orders, per asset: each order contributes
/// its `escrowed` amount to the asset it was escrowed in.
pub open spec fn sum_backing(s: Seq<Order>, asset: B256, quote_asset: B256) -> int
    decreases s.len(),
{
    if s.len() == 0 {
        0
    } else {
        (if s[0].escrow_asset(quote_asset) == asset {
            s[0].escrowed as int
        } else {
            0
        }) + sum_backing(s.drop_first(), asset, quote_asset)
    }
}

/// What `find_order` returns: a valid index of the first order with the id,
/// or -1 when the id is absent.
pub proof fn lemma_find_order_props(s: Seq<Order>, id: OrderId)
    ensures
        find_order(s, id) >= 0 ==> {
            &&& find_order(s, id) < s.len()
            &&& s[find_order(s, id)].id == id
            &&& forall|k: int| 0 <= k < find_order(s, id) ==> s[k].id != id
        },
        find_order(s, id) < 0 ==> find_order(s, id) == -1
            && forall|k: int| 0 <= k < s.len() ==> s[k].id != id,
    decreases s.len(),
{
    if s.len() > 0 && s[0].id != id {
        lemma_find_order_props(s.drop_first(), id);
        let r = find_order(s.drop_first(), id);
        if r >= 0 {
            assert(s[r + 1].id == id);
            assert forall|k: int| 0 <= k < r + 1 implies s[k].id != id by {
                if k > 0 {
                    assert(s.drop_first()[k - 1].id != id);
                }
            }
        } else {
            assert forall|k: int| 0 <= k < s.len() implies s[k].id != id by {
                if k > 0 {
                    assert(s.drop_first()[k - 1].id != id);
                }
            }
        }
    }
}

/// `find_order` returns the first matching index.
pub proof fn lemma_find_order_at(s: Seq<Order>, id: OrderId, i: int)
    requires
        0 <= i < s.len(),
        s[i].id == id,
        forall|k: int| 0 <= k < i ==> s[k].id != id,
    ensures
        find_order(s, id) == i,
    decreases i,
{
    if i > 0 {
        assert(forall|k: int| 0 <= k < i - 1 ==> s.drop_first()[k].id != id);
        lemma_find_order_at(s.drop_first(), id, i - 1);
    }
}

/// `find_order` returns -1 exactly when no order carries the id.
pub proof fn lemma_find_order_absent(s: Seq<Order>, id: OrderId)
    requires
        forall|k: int| 0 <= k < s.len() ==> s[k].id != id,
    ensures
        find_order(s, id) == -1,
    decreases s.len(),
{
    if s.len() > 0 {
        assert(forall|k: int| 0 <= k < s.drop_first().len() ==> s.drop_first()[k].id != id);
        lemma_find_order_absent(s.drop_first(), id);
    }
}

/// Appending an order extends only its owner's index, by exactly its id.
pub proof fn lemma_trader_ids_push(s: Seq<Order>, o: Order)
    ensures
        forall|t: Identity|
            #[trigger] trader_ids(s.push(o), t) == trader_ids(s, t)
                + (if o.owner == t { seq![o.id] } else { Seq::<OrderId>::empty() }),
    decreases s.len(),
{
    if s.len() == 0 {
        assert forall|t: Identity|
            #[trigger] trader_ids(s.push(o), t) == trader_ids(s, t)
                + (if o.owner == t { seq![o.id] } else { Seq::<OrderId>::empty() }) by {
            let head: Seq<OrderId> = if o.owner == t { seq![o.id] } else { Seq::empty() };
            assert(s.push(o).drop_first() =~= Seq::<Order>::empty());
            assert(s.push(o)[0] == o);
            assert(trader_ids(s.push(o), t) == head + trader_ids(s.push(o).drop_first(), t));
            assert(head + Seq::<OrderId>::empty() =~= head);
            assert(trader_ids(s, t) + head =~= head);
        }
    } else {
        lemma_trader_ids_push(s.drop_first(), o);
        assert forall|t: Identity|
            #[trigger] trader_ids(s.push(o), t) == trader_ids(s, t)
                + (if o.owner == t { seq![o.id] } else { Seq::<OrderId>::empty() }) by {
            assert(s.push(o).drop_first() =~= s.drop_first().push(o));
            assert(s.push(o)[0] == s[0]);
            let head: Seq<OrderId> = if s[0].owner == t { seq![s[0].id] } else { Seq::empty() };
            let tailnew = trader_ids(s.drop_first().push(o), t);
            assert(trader_ids(s.push(o), t) == head + tailnew);
            assert(tailnew == trader_ids(s.drop_first(), t)
                + (if o.owner == t { seq![o.id] } else { Seq::<OrderId>::empty() }));
            assert(head + (trader_ids(s.drop_first(), t)
                + (if o.owner == t { seq![o.id] } else { Seq::<OrderId>::empty() }))
                =~= (head + trader_ids(s.drop_first(), t))
                    + (if o.owner == t { seq![o.id] } else { Seq::<OrderId>::empty() }));
        }
    }
}

/// An id appears in a trader's index exactly when that trader owns an order
/// carrying it.
pub proof fn lemma_trader_ids_contains(s: Seq<Order>, t: Identity, id: OrderId)
    ensures
        trader_ids(s, t).contains(id)
            <==> exists|k: int| 0 <= k < s.len() && s[k].owner == t && s[k].id == id,
    decreases s.len(),
{
    if s.len() > 0 {
        lemma_trader_ids_contains(s.drop_first(), t, id);
        let head: Seq<OrderId> = if s[0].owner == t { seq![s[0].id] } else { Seq::empty() };
        assert(trader_ids(s, t) == head + trader_ids(s.drop_first(), t));
        if trader_ids(s, t).contains(id) {
            let j = choose|j: int| 0 <= j < trader_ids(s, t).len() && trader_ids(s, t)[j] == id;
            if j < head.len() {
                assert(s[0].owner == t && s[0].id == id);
            } else {
                assert(trader_ids(s.drop_first(), t)[j - head.len()] == id);
                assert(trader_ids(s.drop_first(), t).contains(id));
                let k = choose|k: int|
                    0 <= k < s.drop_first().len() && s.drop_first()[k].owner == t
                        && s.drop_first()[k].id == id;
                assert(s[k + 1].owner == t && s[k + 1].id == id);
            }
        }
        if exists|k: int| 0 <= k < s.len() && s[k].owner == t && s[k].id == id {
            let k = choose|k: int| 0 <= k < s.len() && s[k].owner == t && s[k].id == id;
            if k == 0 {
                assert(trader_ids(s, t)[0] == id);
            } else {
                assert(s.drop_first()[k - 1].owner == t && s.drop_first()[k - 1].id == id);
                assert(trader_ids(s.drop_first(), t).contains(id));
                let j = choose|j: int|
                    0 <= j < trader_ids(s.drop_first(), t).len()
                        && trader_ids(s.drop_first(), t)[j] == id;
                assert(trader_ids(s, t)[head.len() + j] == id);
            }
        }
    }
}

/// Updating the order at `i` moves the per-asset backing total by the
/// difference of the two orders' contributions.
pub proof fn lemma_backing_update(s: Seq<Order>, i: int, o: Order, quote_asset: B256)
    requires
        0 <= i < s.len(),
    ensures
        forall|a: B256|
            #[trigger] sum_backing(s.update(i, o), a, quote_asset) == sum_backing(s, a, quote_asset)
                - (if s[i].escrow_asset(quote_asset) == a { s[i].escrowed as int } else { 0 })
                + (if o.escrow_asset(quote_asset) == a { o.escrowed as int } else { 0 }),
    decreases i,
{
    if i == 0 {
        assert forall|a: B256|
            #[trigger] sum_backing(s.update(0, o), a, quote_asset) == sum_backing(s, a, quote_asset)
                - (if s[0].escrow_asset(quote_asset) == a { s[0].escrowed as int } else { 0 })
                + (if o.escrow_asset(quote_asset) == a { o.escrowed as int } else { 0 }) by {
            assert(s.update(0, o).drop_first() =~= s.drop_first());
        }
    } else {
        lemma_backing_update(s.drop_first(), i - 1, o, quote_asset);
        assert forall|a: B256|
            #[trigger] sum_backing(s.update(i, o), a, quote_asset) == sum_backing(s, a, quote_asset)
                - (if s[i].escrow_asset(quote_asset) == a { s[i].escrowed as int } else { 0 })
                + (if o.escrow_asset(quote_asset) == a { o.escrowed as int } else { 0 }) by {
            assert(s.update(i, o).drop_first() =~= s.drop_first().update(i - 1, o));
            assert(s.update(i, o)[0] == s[0]);
            assert(s.drop_first()[i - 1] == s[i]);
            let c0 = if s[0].escrow_asset(quote_asset) == a { s[0].escrowed as int } else { 0 };
            assert(sum_backing(s.drop_first().update(i - 1, o), a, quote_asset)
                == sum_backing(s.drop_first(), a, quote_asset)
                    - (if s[i].escrow_asset(quote_asset) == a { s[i].escrowed as int } else { 0 })
                    + (if o.escrow_asset(quote_asset) == a { o.escrowed as int } else { 0 }));
            assert(sum_backing(s.update(i, o), a, quote_asset)
                == c0 + sum_backing(s.update(i, o).drop_first(), a, quote_asset));
            assert(sum_backing(s, a, quote_asset)
                == c0 + sum_backing(s.drop_first(), a, quote_asset));
        }
    }
}

/// Appending an order raises the backing total of its escrow asset by its
/// escrowed amount.
pub proof fn lemma_backing_push(s: Seq<Order>, o: Order, quote_asset: B256)
    ensures
        forall|a: B256|
            #[trigger] sum_backing(s.push(o), a, quote_asset) == sum_backing(s, a, quote_asset)
                + (if o.escrow_asset(quote_asset) == a { o.escrowed as int } else { 0 }),
    decreases s.len(),
{
    if s.len() == 0 {
        assert forall|a: B256|
            #[trigger] sum_backing(s.push(o), a, quote_asset) == sum_backing(s, a, quote_asset)
                + (if o.escrow_asset(quote_asset) == a { o.escrowed as int } else { 0 }) by {
            assert(s.push(o).drop_first() =~= Seq::<Order>::empty());
            assert(s.push(o)[0] == o);
            assert(sum_backing(s.push(o), a, quote_asset)
                == (if s.push(o)[0].escrow_asset(quote_asset) == a {
                    s.push(o)[0].escrowed as int
                } else {
                    0
                }) + sum_backing(s.push(o).drop_first(), a, quote_asset));
        }
    } else {
        lemma_backing_push(s.drop_first(), o, quote_asset);
        assert forall|a: B256|
            #[trigger] sum_backing(s.push(o), a, quote_asset) == sum_backing(s, a, quote_asset)
                + (if o.escrow_asset(quote_asset) == a { o.escrowed as int } else { 0 }) by {
            assert(s.push(o).drop_first() =~= s.drop_first().push(o));
            assert(s.push(o)[0] == s[0]);
            let c0 = if s[0].escrow_asset(quote_asset) == a { s[0].escrowed as int } else { 0 };
            assert(sum_backing(s.drop_first().push(o), a, quote_asset)
                == sum_backing(s.drop_first(), a, quote_asset)
                    + (if o.escrow_asset(quote_asset) == a { o.escrowed as int } else { 0 }));
            assert(sum_backing(s.push(o), a, quote_asset)
                == c0 + sum_backing(s.push(o).drop_first(), a, quote_asset));
            assert(sum_backing(s, a, quote_asset)
                == c0 + sum_backing(s.drop_first(), a, quote_asset));
        }
    }
}

/// Removing the order at `i` lowers the backing total of its escrow asset by
/// its escrowed amount.
pub proof fn lemma_backing_remove(s: Seq<Order>, i: int, quote_asset: B256)
    requires
        0 <= i < s.len(),
    ensures
        forall|a: B256|
            #[trigger] sum_backing(s.remove(i), a, quote_asset) == sum_backing(s, a, quote_asset)
                - (if s[i].escrow_asset(quote_asset) == a { s[i].escrowed as int } else { 0 }),
    decreases i,
{
    if i == 0 {
        assert forall|a: B256|
            #[trigger] sum_backing(s.remove(0), a, quote_asset) == sum_backing(s, a, quote_asset)
                - (if s[0].escrow_asset(quote_asset) == a { s[0].escrowed as int } else { 0 }) by {
            assert(s.remove(0) =~= s.drop_first());
        }
    } else {
        lemma_backing_remove(s.drop_first(), i - 1, quote_asset);
        assert forall|a: B256|
            #[trigger] sum_backing(s.remove(i), a, quote_asset) == sum_backing(s, a, quote_asset)
                - (if s[i].escrow_asset(quote_asset) == a { s[i].escrowed as int } else { 0 }) by {
            assert(s.remove(i).drop_first() =~= s.drop_first().remove(i - 1));
            assert(s.remove(i)[0] == s[0]);
            assert(s.drop_first()[i - 1] == s[i]);
            let c0 = if s[0].escrow_asset(quote_asset) == a { s[0].escrowed as int } else { 0 };
            assert(sum_backing(s.drop_first().remove(i - 1), a, quote_asset)
                == sum_backing(s.drop_first(), a, quote_asset)
                    - (if s[i].escrow_asset(quote_asset) == a { s[i].escrowed as int } else { 0 }));
            assert(sum_backing(s.remove(i), a, quote_asset)
                == c0 + sum_backing(s.remove(i).drop_first(), a, quote_asset));
            assert(sum_backing(s, a, quote_asset)
                == c0 + sum_backing(s.drop_first(), a, quote_asset));
        }
    }
}

/// The resting orders, in insertion order.
pub struct OrderStore {
    pub orders: Vec<Order>,
}

impl OrderStore {
    /// An empty store.
    pub fn new() -> (r: OrderStore)
        ensures
            r.orders@.len() == 0,
    {
        OrderStore { orders: Vec::new() }
    }

    /// The index of the first order carrying `id`, if any.
    pub fn find(&self, id: &OrderId) -> (r: Option<usize>)
        ensures
            match r {
                Some(i) => i == find_order(self.orders@, *id),
                None => find_order(self.orders@, *id) == -1,
            },
    {
        let n = self.orders.len();
        let mut i: usize = 0;
        while i < n
            invariant
                i <= n,
                n == self.orders@.len(),
                forall|k: int| 0 <= k < i ==> self.orders@[k].id != *id,
            decreases n - i,
        {
            if self.orders[i].id == *id {
                proof {
                    lemma_find_order_at(self.orders@, *id, i as int);
                }
                return Some(i);
            }
            i = i + 1;
        }
        proof {
            lemma_find_order_absent(self.orders@, *id);
        }
        None
    }

    /// The order carrying `id`, if any.
    pub fn get(&self, id: &OrderId) -> (r: Option<Order>)
        ensures
            match r {
                Some(o) => find_order(self.orders@, *id) >= 0
                    && o == self.orders@[find_order(self.orders@, *id)],
                None => find_order(self.orders@, *id) == -1,
            },
    {
        match self.find(id) {
            Some(i) => {
                proof {
                    lemma_find_order_props(self.orders@, *id);
                }
                Some(self.orders[i])
            },
            None => None,
        }
    }

    /// The ids of `owner`'s orders, in insertion order.
    pub fn by_trader(&self, owner: &Identity) -> (r: Vec<OrderId>)
        ensures
            r@ == trader_ids(self.orders@, *owner),
    {
        let n = self.orders.len();
        let mut out: Vec<OrderId> = Vec::new();
        let mut i: usize = 0;
        while i < n
            invariant
                i <= n,
                n == self.orders@.len(),
                out@ == trader_ids(self.orders@.take(i as int), *owner),
            decreases n - i,
        {
            let o = self.orders[i];
            proof {
                lemma_trader_ids_push(self.orders@.take(i as int), o);
                assert(self.orders@.take(i as int).push(o) =~= self.orders@.take(i + 1));
            }
            if o.owner == *owner {
                out.push(o.id);
            }
            i = i + 1;
        }
        proof {
            assert(self.orders@.take(n as int) =~= self.orders@);
        }
        out
    }
}

} // verus!
