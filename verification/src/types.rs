use vstd::prelude::*;

verus! {

/// A 256-bit word: asset ids and the raw bits of account identities.
#[derive(Clone, Copy, PartialEq, Eq, Structural, Debug, Hash)]
pub struct B256 {
    pub w0: u64,
    pub w1: u64,
    pub w2: u64,
    pub w3: u64,
}

/// Who owns funds and orders: an externally owned address or a contract.
/// The two kinds never compare equal, even over the same bits.
#[derive(Clone, Copy, PartialEq, Eq, Structural, Debug, Hash)]
pub enum Identity {
    Address(B256),
    Contract(B256),
}

/// The side of an order: a buy requests the base asset, a sell offers it.
#[derive(Clone, Copy, PartialEq, Eq, Structural, Debug, Hash)]
pub enum OrderType {
    Buy,
    Sell,
}

/// Order size. The sign encodes the side (negative = sell), the magnitude
/// the base-asset quantity. A stored order always has magnitude > 0.
#[derive(Clone, Copy, PartialEq, Eq, Structural, Debug, Hash)]
pub struct SignedAmount {
    pub magnitude: u64,
    pub negative: bool,
}

/// Identifier of an order: the sha-256 digest of its defining parameters,
/// packed big-endian into four words.
#[derive(Clone, Copy, PartialEq, Eq, Structural, Debug, Hash)]
pub struct OrderId {
    pub w0: u64,
    pub w1: u64,
    pub w2: u64,
    pub w3: u64,
}

/// Why an operation was rejected. Every failure leaves the engine unchanged.
#[derive(Clone, Copy, PartialEq, Eq, Structural, Debug)]
pub enum MarketError {
    /// No market is registered for the named base asset.
    UnknownMarket,
    /// No stored order carries the given id.
    OrderNotFound,
    /// Cancellation was attempted by an identity other than the order's owner.
    NotOwner,
    /// A withdrawal or an escrow hold exceeds the funds available.
    InsufficientBalance,
    /// The two orders of a match reference different base assets.
    IncompatibleMarket,
    /// The two orders of a match are on the same side.
    SameSide,
    /// Size or price arithmetic exceeds the representable range.
    Overflow,
}

/// A resting order. `id`, `owner`, `base_asset`, `base_price` and the two
/// heights are immutable for the order's lifetime; partial matching reduces
/// `base_size.magnitude` and `escrowed` in place.
#[derive(Clone, Copy, PartialEq, Eq, Structural, Debug)]
pub struct Order {
    pub id: OrderId,
    pub owner: Identity,
    pub base_asset: B256,
    /// Price scaled by 10^price_decimals.
    pub base_price: u64,
    pub base_size: SignedAmount,
    pub block_height: u32,
    pub order_height: u64,
    /// The exact amount the engine holds backing this order, in the
    /// base asset for a sell and in the quote asset for a buy.
    pub escrowed: u64,
}

/// One registered market: a base asset traded against the engine's quote asset.
#[derive(Clone, Copy, PartialEq, Eq, Structural, Debug)]
pub struct Market {
    pub base_asset: B256,
    pub base_decimals: u32,
}

/// Immutable engine-wide configuration, fixed at construction.
#[derive(Clone, Copy, PartialEq, Eq, Structural, Debug)]
pub struct Config {
    pub quote_asset: B256,
    pub quote_decimals: u32,
    pub price_decimals: u32,
    /// Always 10^price_decimals.
    pub price_scale: u64,
}

/// One free-balance ledger entry: funds the engine holds for `owner`
/// in `asset`, not currently backing any order.
#[derive(Clone, Copy, PartialEq, Eq, Structural, Debug)]
pub struct BalanceEntry {
    pub owner: Identity,
    pub asset: B256,
    pub amount: u64,
}

impl SignedAmount {
    /// The integer this value denotes.
    pub open spec fn as_int(self) -> int {
        if self.negative {
            -(self.magnitude as int)
        } else {
            self.magnitude as int
        }
    }

    /// The order side this size encodes.
    pub open spec fn side(self) -> OrderType {
        if self.negative {
            OrderType::Sell
        } else {
            OrderType::Buy
        }
    }

    /// The value as a machine signed integer; fails when the magnitude
    /// does not fit.
    pub fn as_signed_integer(&self) -> (r: Result<i64, MarketError>)
        ensures
            self.magnitude <= i64::MAX ==> (r matches Ok(v) && v == self.as_int()),
            self.magnitude > i64::MAX ==> r == Result::<i64, MarketError>::Err(MarketError::Overflow),
    {
        if self.magnitude > i64::MAX as u64 {
            Err(MarketError::Overflow)
        } else if self.negative {
            Ok(-(self.magnitude as i64))
        } else {
            Ok(self.magnitude as i64)
        }
    }

    /// The same magnitude on the opposite side.
    pub fn negate(&self) -> (r: SignedAmount)
        ensures
            r.magnitude == self.magnitude,
            r.negative == !self.negative,
            r.as_int() == -self.as_int(),
    {
        SignedAmount { magnitude: self.magnitude, negative: !self.negative }
    }

    /// Exact signed addition; fails when the result's magnitude exceeds `u64::MAX`.
    /// A zero result is canonically non-negative.
    pub fn add(&self, other: &SignedAmount) -> (r: Result<SignedAmount, MarketError>)
        ensures
            r matches Ok(v) ==> v.as_int() == self.as_int() + other.as_int(),
            r matches Ok(v) ==> (v.magnitude == 0 ==> !v.negative),
            r is Err <==> (self.as_int() + other.as_int() > u64::MAX
                || self.as_int() + other.as_int() < -(u64::MAX as int)),
            r is Err ==> r == Result::<SignedAmount, MarketError>::Err(MarketError::Overflow),
    {
        if self.negative == other.negative {
            match self.magnitude.checked_add(other.magnitude) {
                Some(m) => Ok(SignedAmount {
                    magnitude: m,
                    negative: if m == 0 { false } else { self.negative },
                }),
                None => Err(MarketError::Overflow),
            }
        } else if self.magnitude >= other.magnitude {
            let m = self.magnitude - other.magnitude;
            Ok(SignedAmount { magnitude: m, negative: if m == 0 { false } else { self.negative } })
        } else {
            let m = other.magnitude - self.magnitude;
            Ok(SignedAmount { magnitude: m, negative: if m == 0 { false } else { other.negative } })
        }
    }
}

impl Order {
    /// The side of this order.
    pub open spec fn side(self) -> OrderType {
        self.base_size.side()
    }

    /// The asset that was escrowed to back this order: the base asset for a
    /// sell, the engine's quote asset for a buy.
    pub open spec fn escrow_asset(self, quote_asset: B256) -> B256 {
        if self.base_size.negative {
            self.base_asset
        } else {
            quote_asset
        }
    }
}

} // verus!
