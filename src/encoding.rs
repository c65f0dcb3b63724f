//! The canonical byte layout of hash input and of stored block records:
//! fixed-width little-endian integers, and each string as a 64-bit byte count
//! followed by its UTF-8 bytes, fields one after another.
use vstd::prelude::*;
use vstd::utf8::{decode_utf8, encode_utf8};

verus! {

/// The `k` low bytes of `n`, least significant first.
pub open spec fn le_bytes(n: nat, k: nat) -> Seq<u8>
    decreases k,
{
    if k == 0 {
        seq![]
    } else {
        seq![(n % 256) as u8] + le_bytes(n / 256, (k - 1) as nat)
    }
}

/// A string field: its UTF-8 length as eight bytes, then its UTF-8 bytes.
pub open spec fn str_field(s: Seq<char>) -> Seq<u8> {
    le_bytes(encode_utf8(s).len(), 8) + encode_utf8(s)
}

/// A 32-bit signed field, in two's complement.
pub open spec fn i32_field(n: i32) -> Seq<u8> {
    le_bytes((if n >= 0 { n as int } else { n as int + 0x1_0000_0000 }) as nat, 4)
}

/// The bytes hashed for a block: previous hash, data, timestamp, nonce.
#[verifier::opaque]
pub open spec fn hash_input(prev: Seq<char>, data: Seq<char>, timestamp: u128, nonce: i32) -> Seq<u8> {
    str_field(prev) + str_field(data) + le_bytes(timestamp as nat, 16) + i32_field(nonce)
}

/// The bytes stored for a block: timestamp, data, previous hash, hash, nonce.
#[verifier::opaque]
pub open spec fn block_record(
    timestamp: u128,
    data: Seq<char>,
    prev: Seq<char>,
    hash: Seq<char>,
    nonce: i32,
) -> Seq<u8> {
    le_bytes(timestamp as nat, 16) + str_field(data) + str_field(prev) + str_field(hash) + i32_field(
        nonce,
    )
}

/// `256` to the power `k`.
pub open spec fn pow256(k: nat) -> nat
    decreases k,
{
    if k == 0 {
        1
    } else {
        256 * pow256((k - 1) as nat)
    }
}

/// The number whose bytes, least significant first, are `s`.
pub open spec fn from_le(s: Seq<u8>) -> nat
    decreases s.len(),
{
    if s.len() == 0 {
        0
    } else {
        s[0] as nat + 256 * from_le(s.drop_first())
    }
}

/// A string field's text takes fewer bytes than a 64-bit length can count.
pub open spec fn fits_length(s: Seq<char>) -> bool {
    encode_utf8(s).len() < pow256(8)
}

proof fn lemma_le_bytes_len(n: nat, k: nat)
    ensures
        le_bytes(n, k).len() == k,
    decreases k,
{
    if k > 0 {
        lemma_le_bytes_len(n / 256, (k - 1) as nat);
    }
}

proof fn lemma_le_bytes_decode(n: nat, k: nat)
    requires
        n < pow256(k),
    ensures
        from_le(le_bytes(n, k)) == n,
    decreases k,
{
    if k > 0 {
        let p = pow256((k - 1) as nat);
        let q = n / 256;
        assert(q < p) by (nonlinear_arith)
            requires
                n < 256 * p,
                q == n / 256,
        ;
        lemma_le_bytes_decode(q, (k - 1) as nat);
        let s = le_bytes(n, k);
        assert(s.drop_first() =~= le_bytes(q, (k - 1) as nat));
        assert(n == n % 256 + 256 * q);
    }
}

/// Equal little-endian bytes of numbers in range are bytes of equal numbers.
proof fn lemma_le_bytes_injective(a: nat, b: nat, k: nat)
    requires
        a < pow256(k),
        b < pow256(k),
        le_bytes(a, k) == le_bytes(b, k),
    ensures
        a == b,
{
    lemma_le_bytes_decode(a, k);
    lemma_le_bytes_decode(b, k);
}

/// Splits two prefixed sequences at heads of equal length.
proof fn lemma_split_prefix(a1: Seq<u8>, r1: Seq<u8>, a2: Seq<u8>, r2: Seq<u8>)
    requires
        (a1 + r1).is_prefix_of(a2 + r2),
        a1.len() == a2.len(),
    ensures
        a1 == a2,
        r1.is_prefix_of(r2),
{
    let x = a1 + r1;
    let y = a2 + r2;
    assert(a1 =~= x.subrange(0, a1.len() as int));
    assert(a2 =~= y.subrange(0, a1.len() as int));
    assert(r1 =~= x.subrange(a1.len() as int, x.len() as int));
    assert(r2.subrange(0, r1.len() as int) =~= y.subrange(a1.len() as int, x.len() as int));
}

/// A string field at the front of a prefix fixes the string.
proof fn lemma_str_field_prefix(s1: Seq<char>, r1: Seq<u8>, s2: Seq<char>, r2: Seq<u8>)
    requires
        (str_field(s1) + r1).is_prefix_of(str_field(s2) + r2),
        fits_length(s1),
        fits_length(s2),
    ensures
        s1 == s2,
        r1.is_prefix_of(r2),
{
    broadcast use vstd::utf8::encode_utf8_decode_utf8;

    let u1 = encode_utf8(s1);
    let u2 = encode_utf8(s2);
    let l1 = le_bytes(u1.len(), 8);
    let l2 = le_bytes(u2.len(), 8);
    lemma_le_bytes_len(u1.len(), 8);
    lemma_le_bytes_len(u2.len(), 8);
    assert(str_field(s1) + r1 =~= l1 + (u1 + r1));
    assert(str_field(s2) + r2 =~= l2 + (u2 + r2));
    lemma_split_prefix(l1, u1 + r1, l2, u2 + r2);
    lemma_le_bytes_injective(u1.len(), u2.len(), 8);
    lemma_split_prefix(u1, r1, u2, r2);
    assert(decode_utf8(u1) == s1);
    assert(decode_utf8(u2) == s2);
}

/// The length of a record: fixed-width fields plus the three texts.
pub proof fn lemma_block_record_len(ts: u128, d: Seq<char>, p: Seq<char>, h: Seq<char>, n: i32)
    ensures
        block_record(ts, d, p, h, n).len() == 44 + encode_utf8(d).len() + encode_utf8(p).len()
            + encode_utf8(h).len(),
{
    reveal(block_record);
    lemma_le_bytes_len(ts as nat, 16);
    lemma_le_bytes_len(encode_utf8(d).len(), 8);
    lemma_le_bytes_len(encode_utf8(p).len(), 8);
    lemma_le_bytes_len(encode_utf8(h).len(), 8);
    lemma_le_bytes_len((if n >= 0 { n as int } else { n as int + 0x1_0000_0000 }) as nat, 4);
}


/// A stored record that begins another fixes every field: a record decodes
/// to one set of fields only.
pub proof fn lemma_block_record_prefix(
    ts1: u128,
    d1: Seq<char>,
    p1: Seq<char>,
    h1: Seq<char>,
    n1: i32,
    ts2: u128,
    d2: Seq<char>,
    p2: Seq<char>,
    h2: Seq<char>,
    n2: i32,
)
    requires
        block_record(ts1, d1, p1, h1, n1).is_prefix_of(block_record(ts2, d2, p2, h2, n2)),
        fits_length(d1) && fits_length(p1) && fits_length(h1),
        fits_length(d2) && fits_length(p2) && fits_length(h2),
    ensures
        ts1 == ts2 && d1 == d2 && p1 == p2 && h1 == h2 && n1 == n2,
{
    reveal(block_record);
    reveal_with_fuel(pow256, 17);
    let t1 = le_bytes(ts1 as nat, 16);
    let t2 = le_bytes(ts2 as nat, 16);
    let e1 = i32_field(n1);
    let e2 = i32_field(n2);
    let m1 = (if n1 >= 0 { n1 as int } else { n1 as int + 0x1_0000_0000 }) as nat;
    let m2 = (if n2 >= 0 { n2 as int } else { n2 as int + 0x1_0000_0000 }) as nat;
    lemma_le_bytes_len(ts1 as nat, 16);
    lemma_le_bytes_len(ts2 as nat, 16);
    lemma_le_bytes_len(m1, 4);
    lemma_le_bytes_len(m2, 4);
    assert(block_record(ts1, d1, p1, h1, n1) =~= t1 + (str_field(d1) + (str_field(p1) + (
    str_field(h1) + e1))));
    assert(block_record(ts2, d2, p2, h2, n2) =~= t2 + (str_field(d2) + (str_field(p2) + (
    str_field(h2) + e2))));
    lemma_split_prefix(t1, str_field(d1) + (str_field(p1) + (str_field(h1) + e1)), t2, str_field(d2) + (
    str_field(p2) + (str_field(h2) + e2)));
    lemma_le_bytes_injective(ts1 as nat, ts2 as nat, 16);
    lemma_str_field_prefix(d1, str_field(p1) + (str_field(h1) + e1), d2, str_field(p2) + (str_field(
    h2) + e2));
    lemma_str_field_prefix(p1, str_field(h1) + e1, p2, str_field(h2) + e2);
    lemma_str_field_prefix(h1, e1, h2, e2);
    assert(e1 =~= e2.subrange(0, 4));
    assert(e2 =~= e2.subrange(0, 4));
    lemma_le_bytes_injective(m1, m2, 4);
}

/// Relies on `bincode::serialize` of the tuple `(prev, data, timestamp, nonce)`:
/// fixed-width little-endian integers, strings prefixed by a `u64` length.
/// With no size limit and a `Vec` to write into, it cannot fail on these types.
#[verifier::external_body]
pub(crate) fn serialize_hash_input(prev: &String, data: &String, timestamp: u128, nonce: i32) -> (r:
    Option<Vec<u8>>)
    ensures
        r is Some,
        r matches Some(v) ==> v@ == hash_input(prev@, data@, timestamp, nonce),
{
    bincode::serialize(&(prev, data, timestamp, nonce)).ok()
}

/// Relies on `bincode::serialize` of the tuple `(timestamp, data, prev, hash, nonce)`,
/// the field order of a stored block. With no size limit and a `Vec` to write
/// into, it cannot fail on these types.
#[verifier::external_body]
pub(crate) fn serialize_record(
    timestamp: u128,
    data: &String,
    prev: &String,
    hash: &String,
    nonce: i32,
) -> (r: Option<Vec<u8>>)
    ensures
        r is Some,
        r matches Some(v) ==> v@ == block_record(timestamp, data@, prev@, hash@, nonce),
{
    bincode::serialize(&(timestamp, data, prev, hash, nonce)).ok()
}

/// Relies on `bincode::deserialize` into `(u128, String, String, String, i32)`,
/// which reads one record from the front of `bytes` and allows trailing bytes.
#[verifier::external_body]
pub(crate) fn deserialize_record(bytes: &[u8]) -> (r: Option<(u128, String, String, String, i32)>)
    ensures
        r matches Some(t) ==> block_record(t.0, t.1@, t.2@, t.3@, t.4).is_prefix_of(bytes@),
        r is None ==> forall|ts: u128, d: Seq<char>, p: Seq<char>, h: Seq<char>, n: i32|
            !(#[trigger] block_record(ts, d, p, h, n)).is_prefix_of(bytes@),
{
    bincode::deserialize::<(u128, String, String, String, i32)>(bytes).ok()
}

} // verus!
