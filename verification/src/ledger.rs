use vstd::prelude::*;
use crate::types::{B256, BalanceEntry, Identity, MarketError};

verus! {

/// Whether a ledger entry belongs to the given owner and asset.
pub open spec fn entry_matches(e: BalanceEntry, owner: Identity, asset: B256) -> bool {
    e.owner == owner && e.asset == asset
}

/// The free balance the ledger holds for `owner` in `asset`: the amount of the
/// first matching entry, or zero when none exists.
pub open spec fn balance_in(s: Seq<BalanceEntry>, owner: Identity, asset: B256) -> u64
    decreases s.len(),
{
    if s.len() == 0 {
        0
    } else if entry_matches(s[0], owner, asset) {
        s[0].amount
    } else {
        balance_in(s.drop_first(), owner, asset)
    }
}

/// The total free balance held in `asset`, over all owners.
pub open spec fn sum_free(s: Seq<BalanceEntry>, asset: B256) -> int
    decreases s.len(),
{
    if s.len() == 0 {
        0
    } else {
        (if s[0].asset == asset { s[0].amount as int } else { 0 }) + sum_free(s.drop_first(), asset)
    }
}

/// The ledger after crediting `amt` to `(owner, asset)`: the first matching
/// entry grows by `amt` (a fresh entry is appended when none exists);
/// `None` when the entry would exceed `u64::MAX`.
pub open spec fn credit_spec(s: Seq<BalanceEntry>, owner: Identity, asset: B256, amt: u64)
    -> Option<Seq<BalanceEntry>>
    decreases s.len(),
{
    if amt == 0 {
        Some(s)
    } else if s.len() == 0 {
        Some(seq![(BalanceEntry { owner, asset, amount: amt })])
    } else if entry_matches(s[0], owner, asset) {
        if s[0].amount + amt > u64::MAX {
            None
        } else {
            Some(
                seq![(BalanceEntry { owner, asset, amount: (s[0].amount + amt) as u64 })]
                    + s.drop_first(),
            )
        }
    } else {
        match credit_spec(s.drop_first(), owner, asset, amt) {
            None => None,
            Some(t) => Some(seq![s[0]] + t),
        }
    }
}

/// The ledger after debiting `amt` from `(owner, asset)`; `None` when the
/// free balance is smaller than `amt`.
pub open spec fn debit_spec(s: Seq<BalanceEntry>, owner: Identity, asset: B256, amt: u64)
    -> Option<Seq<BalanceEntry>>
    decreases s.len(),
{
    if amt == 0 {
        Some(s)
    } else if s.len() == 0 {
        None
    } else if entry_matches(s[0], owner, asset) {
        if s[0].amount < amt {
            None
        } else {
            Some(
                seq![(BalanceEntry { owner, asset, amount: (s[0].amount - amt) as u64 })]
                    + s.drop_first(),
            )
        }
    } else {
        match debit_spec(s.drop_first(), owner, asset, amt) {
            None => None,
            Some(t) => Some(seq![s[0]] + t),
        }
    }
}

/// What a credit does: it succeeds exactly when the target balance stays
/// representable; it raises the target balance by `amt`, leaves every other
/// balance unchanged, and raises the per-asset total by `amt`.
pub proof fn lemma_credit_props(s: Seq<BalanceEntry>, owner: Identity, asset: B256, amt: u64)
    ensures
        credit_spec(s, owner, asset, amt) is None
            <==> balance_in(s, owner, asset) + amt > u64::MAX,
        credit_spec(s, owner, asset, amt) matches Some(t) ==> {
            &&& balance_in(t, owner, asset) == balance_in(s, owner, asset) + amt
            &&& forall|o2: Identity, a2: B256|
                !(o2 == owner && a2 == asset) ==> balance_in(t, o2, a2) == balance_in(s, o2, a2)
            &&& forall|a2: B256|
                sum_free(t, a2) == sum_free(s, a2) + (if a2 == asset { amt as int } else { 0 })
        },
    decreases s.len(),
{
    if amt == 0 {
    } else if s.len() == 0 {
        let t = seq![(BalanceEntry { owner, asset, amount: amt })];
        assert(t.drop_first() =~= Seq::<BalanceEntry>::empty());
        assert(balance_in(t, owner, asset) == amt);
        assert forall|o2: Identity, a2: B256| !(o2 == owner && a2 == asset)
            implies balance_in(t, o2, a2) == balance_in(s, o2, a2) by {
            assert(!entry_matches(t[0], o2, a2));
            assert(balance_in(t, o2, a2) == balance_in(t.drop_first(), o2, a2));
        }
        assert forall|a2: B256|
            sum_free(t, a2) == sum_free(s, a2) + (if a2 == asset { amt as int } else { 0 }) by {
            assert(sum_free(t, a2)
                == (if t[0].asset == a2 { t[0].amount as int } else { 0 })
                    + sum_free(t.drop_first(), a2));
        }
    } else if entry_matches(s[0], owner, asset) {
        if s[0].amount + amt <= u64::MAX {
            let e = BalanceEntry { owner, asset, amount: (s[0].amount + amt) as u64 };
            let t = seq![e] + s.drop_first();
            assert(t[0] == e);
            assert(t.drop_first() =~= s.drop_first());
            assert(balance_in(t, owner, asset) == e.amount);
            assert forall|o2: Identity, a2: B256| !(o2 == owner && a2 == asset)
                implies balance_in(t, o2, a2) == balance_in(s, o2, a2) by {
                assert(!entry_matches(t[0], o2, a2));
                assert(!entry_matches(s[0], o2, a2));
                assert(balance_in(t, o2, a2) == balance_in(t.drop_first(), o2, a2));
                assert(balance_in(s, o2, a2) == balance_in(s.drop_first(), o2, a2));
            }
            assert forall|a2: B256|
                sum_free(t, a2) == sum_free(s, a2) + (if a2 == asset { amt as int } else { 0 }) by {
                assert(sum_free(t, a2)
                    == (if t[0].asset == a2 { t[0].amount as int } else { 0 })
                        + sum_free(t.drop_first(), a2));
                assert(sum_free(s, a2)
                    == (if s[0].asset == a2 { s[0].amount as int } else { 0 })
                        + sum_free(s.drop_first(), a2));
            }
        }
    } else {
        lemma_credit_props(s.drop_first(), owner, asset, amt);
        if credit_spec(s.drop_first(), owner, asset, amt) is Some {
            let t0 = credit_spec(s.drop_first(), owner, asset, amt)->Some_0;
            let t = seq![s[0]] + t0;
            assert(credit_spec(s, owner, asset, amt) == Some(t));
            assert(t[0] == s[0]);
            assert(t.drop_first() =~= t0);
            assert(balance_in(t, owner, asset) == balance_in(t0, owner, asset));
            assert forall|o2: Identity, a2: B256| !(o2 == owner && a2 == asset)
                implies balance_in(t, o2, a2) == balance_in(s, o2, a2) by {
                if entry_matches(s[0], o2, a2) {
                    assert(balance_in(t, o2, a2) == s[0].amount);
                    assert(balance_in(s, o2, a2) == s[0].amount);
                } else {
                    assert(balance_in(t, o2, a2) == balance_in(t0, o2, a2));
                    assert(balance_in(s, o2, a2) == balance_in(s.drop_first(), o2, a2));
                }
            }
            assert forall|a2: B256|
                sum_free(t, a2) == sum_free(s, a2) + (if a2 == asset { amt as int } else { 0 }) by {
                assert(sum_free(t, a2)
                    == (if t[0].asset == a2 { t[0].amount as int } else { 0 })
                        + sum_free(t0, a2));
                assert(sum_free(s, a2)
                    == (if s[0].asset == a2 { s[0].amount as int } else { 0 })
                        + sum_free(s.drop_first(), a2));
            }
        }
    }
}

/// What a debit does: it succeeds exactly when the target balance covers
/// `amt`; it lowers the target balance by `amt`, leaves every other balance
/// unchanged, and lowers the per-asset total by `amt`.
pub proof fn lemma_debit_props(s: Seq<BalanceEntry>, owner: Identity, asset: B256, amt: u64)
    ensures
        debit_spec(s, owner, asset, amt) is None <==> balance_in(s, owner, asset) < amt,
        debit_spec(s, owner, asset, amt) matches Some(t) ==> {
            &&& balance_in(t, owner, asset) == balance_in(s, owner, asset) - amt
            &&& forall|o2: Identity, a2: B256|
                !(o2 == owner && a2 == asset) ==> balance_in(t, o2, a2) == balance_in(s, o2, a2)
            &&& forall|a2: B256|
                sum_free(t, a2) == sum_free(s, a2) - (if a2 == asset { amt as int } else { 0 })
        },
    decreases s.len(),
{
    if amt == 0 {
    } else if s.len() == 0 {
    } else if entry_matches(s[0], owner, asset) {
        if s[0].amount >= amt {
            let e = BalanceEntry { owner, asset, amount: (s[0].amount - amt) as u64 };
            let t = seq![e] + s.drop_first();
            assert(t[0] == e);
            assert(t.drop_first() =~= s.drop_first());
            assert(balance_in(t, owner, asset) == e.amount);
            assert forall|o2: Identity, a2: B256| !(o2 == owner && a2 == asset)
                implies balance_in(t, o2, a2) == balance_in(s, o2, a2) by {
                assert(!entry_matches(t[0], o2, a2));
                assert(!entry_matches(s[0], o2, a2));
                assert(balance_in(t, o2, a2) == balance_in(t.drop_first(), o2, a2));
                assert(balance_in(s, o2, a2) == balance_in(s.drop_first(), o2, a2));
            }
            assert forall|a2: B256|
                sum_free(t, a2) == sum_free(s, a2) - (if a2 == asset { amt as int } else { 0 }) by {
                assert(sum_free(t, a2)
                    == (if t[0].asset == a2 { t[0].amount as int } else { 0 })
                        + sum_free(t.drop_first(), a2));
                assert(sum_free(s, a2)
                    == (if s[0].asset == a2 { s[0].amount as int } else { 0 })
                        + sum_free(s.drop_first(), a2));
            }
        }
    } else {
        lemma_debit_props(s.drop_first(), owner, asset, amt);
        if debit_spec(s.drop_first(), owner, asset, amt) is Some {
            let t0 = debit_spec(s.drop_first(), owner, asset, amt)->Some_0;
            let t = seq![s[0]] + t0;
            assert(debit_spec(s, owner, asset, amt) == Some(t));
            assert(t[0] == s[0]);
            assert(t.drop_first() =~= t0);
            assert(balance_in(t, owner, asset) == balance_in(t0, owner, asset));
            assert forall|o2: Identity, a2: B256| !(o2 == owner && a2 == asset)
                implies balance_in(t, o2, a2) == balance_in(s, o2, a2) by {
                if entry_matches(s[0], o2, a2) {
                    assert(balance_in(t, o2, a2) == s[0].amount);
                    assert(balance_in(s, o2, a2) == s[0].amount);
                } else {
                    assert(balance_in(t, o2, a2) == balance_in(t0, o2, a2));
                    assert(balance_in(s, o2, a2) == balance_in(s.drop_first(), o2, a2));
                }
            }
            assert forall|a2: B256|
                sum_free(t, a2) == sum_free(s, a2) - (if a2 == asset { amt as int } else { 0 }) by {
                assert(sum_free(t, a2)
                    == (if t[0].asset == a2 { t[0].amount as int } else { 0 })
                        + sum_free(t0, a2));
                assert(sum_free(s, a2)
                    == (if s[0].asset == a2 { s[0].amount as int } else { 0 })
                        + sum_free(s.drop_first(), a2));
            }
        }
    }
}

/// When the first `i` entries do not match, a credit rewrites the entry at
/// `i` (when it matches) in place.
proof fn lemma_credit_at_index(s: Seq<BalanceEntry>, owner: Identity, asset: B256, amt: u64, i: int)
    requires
        0 <= i < s.len(),
        amt > 0,
        forall|k: int| 0 <= k < i ==> !entry_matches(s[k], owner, asset),
        entry_matches(s[i], owner, asset),
    ensures
        s[i].amount + amt > u64::MAX ==> credit_spec(s, owner, asset, amt) is None,
        s[i].amount + amt <= u64::MAX ==> credit_spec(s, owner, asset, amt) == Some(
            s.update(i, (BalanceEntry { owner, asset, amount: (s[i].amount + amt) as u64 })),
        ),
    decreases i,
{
    if i == 0 {
        if s[0].amount + amt <= u64::MAX {
            let e = BalanceEntry { owner, asset, amount: (s[0].amount + amt) as u64 };
            assert(seq![e] + s.drop_first() =~= s.update(0, e));
        }
    } else {
        assert(forall|k: int|
            0 <= k < i - 1 ==> !entry_matches(s.drop_first()[k], owner, asset));
        assert(entry_matches(s.drop_first()[i - 1], owner, asset));
        lemma_credit_at_index(s.drop_first(), owner, asset, amt, i - 1);
        if s[i].amount + amt <= u64::MAX {
            let e = BalanceEntry { owner, asset, amount: (s[i].amount + amt) as u64 };
            assert(seq![s[0]] + s.drop_first().update(i - 1, e) =~= s.update(i, e));
        }
    }
}

/// When no entry matches, a credit appends a fresh entry.
proof fn lemma_credit_append(s: Seq<BalanceEntry>, owner: Identity, asset: B256, amt: u64)
    requires
        amt > 0,
        forall|k: int| 0 <= k < s.len() ==> !entry_matches(s[k], owner, asset),
    ensures
        credit_spec(s, owner, asset, amt)
            == Some(s.push((BalanceEntry { owner, asset, amount: amt }))),
    decreases s.len(),
{
    let e = BalanceEntry { owner, asset, amount: amt };
    if s.len() == 0 {
        assert(seq![e] =~= s.push(e));
    } else {
        assert(forall|k: int|
            0 <= k < s.drop_first().len() ==> !entry_matches(s.drop_first()[k], owner, asset));
        lemma_credit_append(s.drop_first(), owner, asset, amt);
        assert(seq![s[0]] + s.drop_first().push(e) =~= s.push(e));
    }
}

/// When the first `i` entries do not match and the entry at `i` matches,
/// a debit rewrites that entry in place.
proof fn lemma_debit_at_index(s: Seq<BalanceEntry>, owner: Identity, asset: B256, amt: u64, i: int)
    requires
        0 <= i < s.len(),
        amt > 0,
        forall|k: int| 0 <= k < i ==> !entry_matches(s[k], owner, asset),
        entry_matches(s[i], owner, asset),
    ensures
        s[i].amount < amt ==> debit_spec(s, owner, asset, amt) is None,
        s[i].amount >= amt ==> debit_spec(s, owner, asset, amt) == Some(
            s.update(i, (BalanceEntry { owner, asset, amount: (s[i].amount - amt) as u64 })),
        ),
    decreases i,
{
    if i == 0 {
        if s[0].amount >= amt {
            let e = BalanceEntry { owner, asset, amount: (s[0].amount - amt) as u64 };
            assert(seq![e] + s.drop_first() =~= s.update(0, e));
        }
    } else {
        assert(forall|k: int|
            0 <= k < i - 1 ==> !entry_matches(s.drop_first()[k], owner, asset));
        assert(entry_matches(s.drop_first()[i - 1], owner, asset));
        lemma_debit_at_index(s.drop_first(), owner, asset, amt, i - 1);
        if s[i].amount >= amt {
            let e = BalanceEntry { owner, asset, amount: (s[i].amount - amt) as u64 };
            assert(seq![s[0]] + s.drop_first().update(i - 1, e) =~= s.update(i, e));
        }
    }
}

/// When no entry matches, a positive debit fails.
proof fn lemma_debit_absent(s: Seq<BalanceEntry>, owner: Identity, asset: B256, amt: u64)
    requires
        amt > 0,
        forall|k: int| 0 <= k < s.len() ==> !entry_matches(s[k], owner, asset),
    ensures
        debit_spec(s, owner, asset, amt) is None,
    decreases s.len(),
{
    if s.len() > 0 {
        assert(forall|k: int|
            0 <= k < s.drop_first().len() ==> !entry_matches(s.drop_first()[k], owner, asset));
        lemma_debit_absent(s.drop_first(), owner, asset, amt);
    }
}

/// When the first `i` entries do not match, the balance is decided by the rest.
proof fn lemma_balance_skip(s: Seq<BalanceEntry>, owner: Identity, asset: B256, i: int)
    requires
        0 <= i <= s.len(),
        forall|k: int| 0 <= k < i ==> !entry_matches(s[k], owner, asset),
    ensures
        balance_in(s, owner, asset) == balance_in(s.skip(i), owner, asset),
    decreases i,
{
    if i > 0 {
        assert(forall|k: int|
            0 <= k < i - 1 ==> !entry_matches(s.drop_first()[k], owner, asset));
        lemma_balance_skip(s.drop_first(), owner, asset, i - 1);
        assert(s.drop_first().skip(i - 1) =~= s.skip(i));
    } else {
        assert(s.skip(0) =~= s);
    }
}

/// Per-account, per-asset balances of funds the engine holds free of orders.
pub struct EscrowLedger {
    pub entries: Vec<BalanceEntry>,
}

impl EscrowLedger {
    /// An empty ledger: every balance is zero.
    pub fn new() -> (r: EscrowLedger)
        ensures
            r.entries@.len() == 0,
    {
        EscrowLedger { entries: Vec::new() }
    }

    /// The index of the first entry for `(owner, asset)`, if any.
    fn find_entry(&self, owner: &Identity, asset: &B256) -> (r: Option<usize>)
        ensures
            match r {
                Some(i) => i < self.entries@.len()
                    && entry_matches(self.entries@[i as int], *owner, *asset)
                    && forall|k: int| 0 <= k < i ==> !entry_matches(self.entries@[k], *owner, *asset),
                None => forall|k: int|
                    0 <= k < self.entries@.len() ==> !entry_matches(self.entries@[k], *owner, *asset),
            },
    {
        let n = self.entries.len();
        let mut i: usize = 0;
        while i < n
            invariant
                i <= n,
                n == self.entries@.len(),
                forall|k: int| 0 <= k < i ==> !entry_matches(self.entries@[k], *owner, *asset),
            decreases n - i,
        {
            let e = &self.entries[i];
            if e.owner == *owner && e.asset == *asset {
                return Some(i);
            }
            i = i + 1;
        }
        None
    }

    /// The free balance held for `(owner, asset)`.
    pub fn balance(&self, owner: &Identity, asset: &B256) -> (r: u64)
        ensures
            r == balance_in(self.entries@, *owner, *asset),
    {
        match self.find_entry(owner, asset) {
            Some(i) => {
                proof {
                    lemma_balance_skip(self.entries@, *owner, *asset, i as int);
                }
                self.entries[i].amount
            },
            None => {
                proof {
                    lemma_balance_skip(self.entries@, *owner, *asset, self.entries@.len() as int);
                    assert(self.entries@.skip(self.entries@.len() as int)
                        =~= Seq::<BalanceEntry>::empty());
                }
                0
            },
        }
    }

    /// Credits `amt` to `(owner, asset)`; fails with `Overflow`, changing
    /// nothing, exactly when the balance would exceed `u64::MAX`.
    pub fn credit(&mut self, owner: &Identity, asset: &B256, amt: u64) -> (r: Result<
        (),
        MarketError,
    >)
        ensures
            match r {
                Ok(_) => Some(final(self).entries@)
                    == credit_spec(old(self).entries@, *owner, *asset, amt),
                Err(e) => e == MarketError::Overflow
                    && credit_spec(old(self).entries@, *owner, *asset, amt) is None
                    && final(self).entries@ == old(self).entries@,
            },
    {
        if amt == 0 {
            return Ok(());
        }
        match self.find_entry(owner, asset) {
            Some(i) => {
                proof {
                    lemma_credit_at_index(self.entries@, *owner, *asset, amt, i as int);
                }
                let cur = self.entries[i].amount;
                match cur.checked_add(amt) {
                    Some(na) => {
                        self.entries.set(i, BalanceEntry { owner: *owner, asset: *asset, amount: na });
                        Ok(())
                    },
                    None => Err(MarketError::Overflow),
                }
            },
            None => {
                proof {
                    lemma_credit_append(self.entries@, *owner, *asset, amt);
                }
                self.entries.push(BalanceEntry { owner: *owner, asset: *asset, amount: amt });
                Ok(())
            },
        }
    }

    /// Debits `amt` from `(owner, asset)`; fails with `InsufficientBalance`,
    /// changing nothing, exactly when the balance is smaller than `amt`.
    pub fn debit(&mut self, owner: &Identity, asset: &B256, amt: u64) -> (r: Result<
        (),
        MarketError,
    >)
        ensures
            match r {
                Ok(_) => Some(final(self).entries@)
                    == debit_spec(old(self).entries@, *owner, *asset, amt),
                Err(e) => e == MarketError::InsufficientBalance
                    && debit_spec(old(self).entries@, *owner, *asset, amt) is None
                    && final(self).entries@ == old(self).entries@,
            },
    {
        if amt == 0 {
            return Ok(());
        }
        match self.find_entry(owner, asset) {
            Some(i) => {
                proof {
                    lemma_debit_at_index(self.entries@, *owner, *asset, amt, i as int);
                }
                let cur = self.entries[i].amount;
                if cur < amt {
                    Err(MarketError::InsufficientBalance)
                } else {
                    self.entries.set(
                        i,
                        BalanceEntry { owner: *owner, asset: *asset, amount: cur - amt },
                    );
                    Ok(())
                }
            },
            None => {
                proof {
                    lemma_debit_absent(self.entries@, *owner, *asset, amt);
                }
                Err(MarketError::InsufficientBalance)
            },
        }
    }

    /// An independent copy, entry for entry.
    pub fn duplicate(&self) -> (r: EscrowLedger)
        ensures
            r.entries@ == self.entries@,
    {
        let n = self.entries.len();
        let mut out: Vec<BalanceEntry> = Vec::new();
        let mut i: usize = 0;
        while i < n
            invariant
                i <= n,
                n == self.entries@.len(),
                out@ == self.entries@.take(i as int),
            decreases n - i,
        {
            out.push(self.entries[i]);
            proof {
                assert(self.entries@.take(i as int).push(self.entries@[i as int])
                    =~= self.entries@.take(i + 1));
            }
            i = i + 1;
        }
        proof {
            assert(self.entries@.take(n as int) =~= self.entries@);
        }
        EscrowLedger { entries: out }
    }
}

} // verus!
