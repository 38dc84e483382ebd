use vstd::prelude::*;
use crate::types::{B256, Identity, OrderId, OrderType};

verus! {

/// The eight big-endian bytes of a 64-bit word.
pub open spec fn u64_be_bytes(x: u64) -> Seq<u8> {
    seq![
        (x >> 56) as u8,
        (x >> 48) as u8,
        (x >> 40) as u8,
        (x >> 32) as u8,
        (x >> 24) as u8,
        (x >> 16) as u8,
        (x >> 8) as u8,
        x as u8,
    ]
}

/// The four big-endian bytes of a 32-bit word.
pub open spec fn u32_be_bytes(x: u32) -> Seq<u8> {
    seq![(x >> 24) as u8, (x >> 16) as u8, (x >> 8) as u8, x as u8]
}

/// The 32 big-endian bytes of a 256-bit word.
pub open spec fn b256_bytes(b: B256) -> Seq<u8> {
    u64_be_bytes(b.w0) + u64_be_bytes(b.w1) + u64_be_bytes(b.w2) + u64_be_bytes(b.w3)
}

/// A discriminated encoding of an identity: one tag byte, then the 32 bytes
/// of the account. The tag keeps the two identity kinds from ever colliding.
pub open spec fn identity_bytes(id: Identity) -> Seq<u8> {
    match id {
        Identity::Address(b) => seq![0u8] + b256_bytes(b),
        Identity::Contract(b) => seq![1u8] + b256_bytes(b),
    }
}

/// The tag byte of an order side.
pub open spec fn order_type_byte(t: OrderType) -> u8 {
    match t {
        OrderType::Buy => 0u8,
        OrderType::Sell => 1u8,
    }
}

/// The canonical encoding of an order's defining parameters, the preimage of
/// its id: side tag, owner, price, block height, order height, all fixed width.
pub open spec fn order_params_bytes(
    order_type: OrderType,
    owner: Identity,
    price: u64,
    block_height: u32,
    order_height: u64,
) -> Seq<u8> {
    seq![order_type_byte(order_type)] + identity_bytes(owner) + u64_be_bytes(price)
        + u32_be_bytes(block_height) + u64_be_bytes(order_height)
}

/// The sha-256 digest of a byte string; computed only by the trusted wrapper
/// below, so nothing is assumed of its value beyond its 32-byte length.
pub uninterp spec fn digest_of(bytes: Seq<u8>) -> Seq<u8>;

/// Relies on sha2::Sha256::digest: a 32-byte digest that depends on the
/// input bytes alone.
#[verifier::external_body]
fn sha256_digest(bytes: &Vec<u8>) -> (r: Vec<u8>)
    ensures
        r@ == digest_of(bytes@),
        r@.len() == 32,
{
    <sha2::Sha256 as sha2::Digest>::digest(bytes.as_slice()).to_vec()
}

/// The big-endian 64-bit word read at offset `i`.
pub open spec fn word_be(d: Seq<u8>, i: int) -> u64 {
    ((d[i] as u64) << 56) | ((d[i + 1] as u64) << 48) | ((d[i + 2] as u64) << 40)
        | ((d[i + 3] as u64) << 32) | ((d[i + 4] as u64) << 24) | ((d[i + 5] as u64) << 16)
        | ((d[i + 6] as u64) << 8) | (d[i + 7] as u64)
}

/// A 32-byte digest packed into an order id, big-endian word by word.
pub open spec fn id_from_digest(d: Seq<u8>) -> OrderId {
    OrderId { w0: word_be(d, 0), w1: word_be(d, 8), w2: word_be(d, 16), w3: word_be(d, 24) }
}

/// The content-addressed identity of an order: the digest of the canonical
/// encoding of its defining parameters. The same parameters always yield the
/// same id; the id never depends on anything else.
pub open spec fn order_id_spec(
    order_type: OrderType,
    owner: Identity,
    price: u64,
    block_height: u32,
    order_height: u64,
) -> OrderId {
    id_from_digest(digest_of(order_params_bytes(order_type, owner, price, block_height, order_height)))
}

/// Appends the eight big-endian bytes of `x`.
fn push_u64_be(v: &mut Vec<u8>, x: u64)
    ensures
        final(v)@ == old(v)@ + u64_be_bytes(x),
{
    v.push((x >> 56) as u8);
    v.push((x >> 48) as u8);
    v.push((x >> 40) as u8);
    v.push((x >> 32) as u8);
    v.push((x >> 24) as u8);
    v.push((x >> 16) as u8);
    v.push((x >> 8) as u8);
    v.push(x as u8);
    proof {
        assert(v@ =~= old(v)@ + u64_be_bytes(x));
    }
}

/// Appends the four big-endian bytes of `x`.
fn push_u32_be(v: &mut Vec<u8>, x: u32)
    ensures
        final(v)@ == old(v)@ + u32_be_bytes(x),
{
    v.push((x >> 24) as u8);
    v.push((x >> 16) as u8);
    v.push((x >> 8) as u8);
    v.push(x as u8);
    proof {
        assert(v@ =~= old(v)@ + u32_be_bytes(x));
    }
}

/// Appends the 32 big-endian bytes of `b`.
fn push_b256(v: &mut Vec<u8>, b: &B256)
    ensures
        final(v)@ == old(v)@ + b256_bytes(*b),
{
    push_u64_be(v, b.w0);
    push_u64_be(v, b.w1);
    push_u64_be(v, b.w2);
    push_u64_be(v, b.w3);
    proof {
        assert(v@ =~= old(v)@ + b256_bytes(*b));
    }
}

/// Reads the big-endian 64-bit word at offset `i`.
fn word_from_bytes(d: &Vec<u8>, i: usize) -> (r: u64)
    requires
        i + 8 <= d@.len(),
    ensures
        r == word_be(d@, i as int),
{
    let _n: usize = d.len();
    ((d[i] as u64) << 56) | ((d[i + 1] as u64) << 48) | ((d[i + 2] as u64) << 40)
        | ((d[i + 3] as u64) << 32) | ((d[i + 4] as u64) << 24) | ((d[i + 5] as u64) << 16)
        | ((d[i + 6] as u64) << 8) | (d[i + 7] as u64)
}

/// Derives the id an order with these defining parameters carries.
pub fn order_id(
    order_type: OrderType,
    owner: &Identity,
    price: u64,
    block_height: u32,
    order_height: u64,
) -> (r: OrderId)
    ensures
        r == order_id_spec(order_type, *owner, price, block_height, order_height),
{
    let mut buf: Vec<u8> = Vec::new();
    match order_type {
        OrderType::Buy => buf.push(0u8),
        OrderType::Sell => buf.push(1u8),
    }
    proof {
        assert(buf@ =~= seq![order_type_byte(order_type)]);
    }
    match owner {
        Identity::Address(b) => {
            buf.push(0u8);
            push_b256(&mut buf, b);
        },
        Identity::Contract(b) => {
            buf.push(1u8);
            push_b256(&mut buf, b);
        },
    }
    proof {
        assert(buf@ =~= seq![order_type_byte(order_type)] + identity_bytes(*owner));
    }
    push_u64_be(&mut buf, price);
    push_u32_be(&mut buf, block_height);
    push_u64_be(&mut buf, order_height);
    proof {
        assert(buf@ =~= order_params_bytes(order_type, *owner, price, block_height, order_height));
    }
    let d = sha256_digest(&buf);
    let w0 = word_from_bytes(&d, 0);
    let w1 = word_from_bytes(&d, 8);
    let w2 = word_from_bytes(&d, 16);
    let w3 = word_from_bytes(&d, 24);
    OrderId { w0, w1, w2, w3 }
}

} // verus!
