use vstd::prelude::*;

verus! {

/// 256 raised to the power `k`.
pub open spec fn pow256(k: nat) -> nat
    decreases k,
{
    if k == 0 {
        1
    } else {
        256 * pow256((k - 1) as nat)
    }
}

/// The `k` low-order bytes of `n`, least significant first.
pub open spec fn le_bytes(n: nat, k: nat) -> Seq<u8>
    decreases k,
{
    if k == 0 {
        Seq::empty()
    } else {
        seq![(n % 256) as u8] + le_bytes(n / 256, (k - 1) as nat)
    }
}

/// The `k` low-order bytes of `n`, most significant first.
pub open spec fn be_bytes(n: nat, k: nat) -> Seq<u8>
    decreases k,
{
    if k == 0 {
        Seq::empty()
    } else {
        be_bytes(n / 256, (k - 1) as nat).push((n % 256) as u8)
    }
}

/// The number whose bytes, least significant first, are `s`.
pub open spec fn le_value(s: Seq<u8>) -> nat
    decreases s.len(),
{
    if s.len() == 0 {
        0
    } else {
        s[0] as nat + 256 * le_value(s.drop_first())
    }
}

/// The number whose bytes, most significant first, are `s`.
pub open spec fn be_value(s: Seq<u8>) -> nat
    decreases s.len(),
{
    if s.len() == 0 {
        0
    } else {
        be_value(s.drop_last()) * 256 + s.last() as nat
    }
}

/// Every power of 256 is positive.
pub proof fn lemma_pow256_pos(k: nat)
    ensures
        pow256(k) >= 1,
    decreases k,
{
    if k > 0 {
        lemma_pow256_pos((k - 1) as nat);
    }
}

/// The powers of 256 that the fixed-width fields use.
pub proof fn lemma_pow256_8()
    ensures
        pow256(1) == 0x100,
        pow256(2) == 0x10000,
        pow256(3) == 0x1000000,
        pow256(4) == 0x100000000,
        pow256(8) == 0x10000000000000000,
{
    reveal_with_fuel(pow256, 9);
}

/// The big-endian form of a number in `k` bytes has `k` bytes.
pub proof fn lemma_be_bytes_len(n: nat, k: nat)
    ensures
        #[trigger] be_bytes(n, k).len() == k,
    decreases k,
{
    if k > 0 {
        lemma_be_bytes_len(n / 256, (k - 1) as nat);
    }
}

/// The little-endian form of a number in `k` bytes has `k` bytes.
pub proof fn lemma_le_bytes_len(n: nat, k: nat)
    ensures
        #[trigger] le_bytes(n, k).len() == k,
    decreases k,
{
    if k > 0 {
        lemma_le_bytes_len(n / 256, (k - 1) as nat);
    }
}

/// Decoding the big-endian bytes of `n` gives `n` back when it fits.
pub proof fn lemma_be_round_trip(n: nat, k: nat)
    requires
        n < pow256(k),
    ensures
        be_value(be_bytes(n, k)) == n,
        be_bytes(n, k).len() == k,
    decreases k,
{
    lemma_be_bytes_len(n, k);
    if k > 0 {
        let b = be_bytes(n, k);
        assert(n / 256 < pow256((k - 1) as nat));
        lemma_be_round_trip(n / 256, (k - 1) as nat);
        assert(b.drop_last() == be_bytes(n / 256, (k - 1) as nat));
    }
}

/// Decoding the little-endian bytes of `n` gives `n` back when it fits.
pub proof fn lemma_le_round_trip(n: nat, k: nat)
    requires
        n < pow256(k),
    ensures
        le_value(le_bytes(n, k)) == n,
        le_bytes(n, k).len() == k,
    decreases k,
{
    lemma_le_bytes_len(n, k);
    if k > 0 {
        let b = le_bytes(n, k);
        assert(n / 256 < pow256((k - 1) as nat));
        lemma_le_round_trip(n / 256, (k - 1) as nat);
        assert(b.drop_first() == le_bytes(n / 256, (k - 1) as nat));
    }
}

/// A value decoded from `k` bytes is below `256^k`.
pub proof fn lemma_be_value_bound(s: Seq<u8>)
    ensures
        be_value(s) < pow256(s.len()),
    decreases s.len(),
{
    if s.len() > 0 {
        lemma_be_value_bound(s.drop_last());
    }
}

/// A value decoded from `k` bytes, least significant first, is below `256^k`.
pub proof fn lemma_le_value_bound(s: Seq<u8>)
    ensures
        le_value(s) < pow256(s.len()),
    decreases s.len(),
{
    if s.len() > 0 {
        lemma_le_value_bound(s.drop_first());
    }
}

/// Encodes the `nbytes` low-order bytes of `n`, least significant first.
pub fn u64_to_le_bytes(n: u64, nbytes: usize) -> (r: Vec<u8>)
    ensures
        r@ == le_bytes(n as nat, nbytes as nat),
{
    let mut bytes: Vec<u8> = Vec::with_capacity(nbytes);
    let mut m: u64 = n;
    let mut i: usize = 0;
    while i < nbytes
        invariant
            i <= nbytes,
            bytes@ + le_bytes(m as nat, (nbytes - i) as nat) == le_bytes(n as nat, nbytes as nat),
        decreases nbytes - i,
    {
        let ghost rest = le_bytes((m / 256) as nat, (nbytes - i - 1) as nat);
        assert(le_bytes(m as nat, (nbytes - i) as nat) == seq![(m % 256) as u8] + rest);
        bytes.push((m % 256) as u8);
        assert(bytes@ + rest == (bytes@.drop_last() + seq![(m % 256) as u8]) + rest);
        assert(bytes@ + rest =~= bytes@.drop_last() + (seq![(m % 256) as u8] + rest));
        m = m / 256;
        i = i + 1;
    }
    assert(bytes@ + Seq::<u8>::empty() =~= bytes@);
    bytes
}

/// Decodes bytes, least significant first, into an integer.
pub fn bytes_to_le_u64(bytes: &[u8]) -> (r: u64)
    requires
        bytes@.len() <= 8,
    ensures
        r == le_value(bytes@),
{
    let mut n: u64 = 0;
    let mut i: usize = bytes.len();
    proof {
        lemma_pow256_8();
    }
    while i > 0
        invariant
            i <= bytes@.len() <= 8,
            n == le_value(bytes@.subrange(i as int, bytes@.len() as int)),
            pow256(8) == 0x10000000000000000,
        decreases i,
    {
        let ghost tail = bytes@.subrange(i as int, bytes@.len() as int);
        proof {
            lemma_le_value_bound(tail);
            lemma_pow_mono((bytes@.len() - i) as nat, 7);
        }
        let ghost s = bytes@.subrange(i - 1, bytes@.len() as int);
        assert(s.drop_first() =~= tail);
        n = bytes[i - 1] as u64 + 256 * n;
        i = i - 1;
    }
    assert(bytes@.subrange(0, bytes@.len() as int) =~= bytes@);
    n
}

proof fn lemma_pow_mono(a: nat, b: nat)
    requires
        a <= b,
    ensures
        pow256(a) <= pow256(b),
    decreases b,
{
    if a < b {
        lemma_pow_mono(a, (b - 1) as nat);
        lemma_pow256_pos((b - 1) as nat);
    }
}

/// Encodes the `nbytes` low-order bytes of `n`, most significant first.
pub fn u64_to_be_bytes(n: u64, nbytes: usize) -> (r: Vec<u8>)
    ensures
        r@ == be_bytes(n as nat, nbytes as nat),
{
    let mut rev: Vec<u8> = u64_to_le_bytes(n, nbytes);
    let mut bytes: Vec<u8> = Vec::with_capacity(nbytes);
    proof {
        lemma_le_be_reverse(n as nat, nbytes as nat);
    }
    let mut i: usize = rev.len();
    while i > 0
        invariant
            i <= rev@.len(),
            rev@.len() == nbytes,
            be_bytes(n as nat, nbytes as nat).len() == nbytes,
            bytes@ == be_bytes(n as nat, nbytes as nat).subrange(0, nbytes - i),
            forall|j: int| 0 <= j < nbytes ==> #[trigger] be_bytes(n as nat, nbytes as nat)[j] == rev@[nbytes - 1 - j],
        decreases i,
    {
        assert(be_bytes(n as nat, nbytes as nat)[nbytes - i] == rev@[i - 1]);
        bytes.push(rev[i - 1]);
        i = i - 1;
        assert(bytes@ =~= be_bytes(n as nat, nbytes as nat).subrange(0, nbytes - i));
    }
    assert(bytes@ =~= be_bytes(n as nat, nbytes as nat));
    bytes
}

proof fn lemma_le_be_reverse(n: nat, k: nat)
    ensures
        le_bytes(n, k).len() == k,
        be_bytes(n, k).len() == k,
        forall|j: int| 0 <= j < k ==> #[trigger] be_bytes(n, k)[j] == le_bytes(n, k)[k - 1 - j],
    decreases k,
{
    lemma_le_bytes_len(n, k);
    lemma_be_bytes_len(n, k);
    if k > 0 {
        lemma_le_be_reverse(n / 256, (k - 1) as nat);
        assert forall|j: int| 0 <= j < k implies #[trigger] be_bytes(n, k)[j] == le_bytes(n, k)[k - 1 - j] by {
            if j < k - 1 {
                assert(be_bytes(n / 256, (k - 1) as nat)[j] == le_bytes(n / 256, (k - 1) as nat)[k - 2 - j]);
            }
        }
    }
}

/// Decodes bytes, most significant first, into an integer.
pub fn bytes_to_be_u64(bytes: &[u8]) -> (r: u64)
    requires
        bytes@.len() <= 8,
    ensures
        r == be_value(bytes@),
{
    let r = read_be(bytes, 0, bytes.len());
    assert(bytes@.subrange(0, bytes@.len() as int) =~= bytes@);
    r
}

/// Decodes `len` bytes of `bytes` from `start`, most significant first.
pub fn read_be(bytes: &[u8], start: usize, len: usize) -> (r: u64)
    requires
        len <= 8,
        start + len <= bytes@.len(),
    ensures
        r == be_value(bytes@.subrange(start as int, start + len)),
{
    let mut n: u64 = 0;
    let mut i: usize = start;
    let total: usize = bytes.len();
    assert(start + len <= total);
    let end: usize = start + len;
    proof {
        lemma_pow256_8();
    }
    while i < end
        invariant
            end == start + len,
            start <= i <= start + len <= bytes@.len(),
            len <= 8,
            n == be_value(bytes@.subrange(start as int, i as int)),
            pow256(8) == 0x10000000000000000,
        decreases end - i,
    {
        let ghost pre = bytes@.subrange(start as int, i as int);
        proof {
            lemma_be_value_bound(pre);
            lemma_pow_mono((i - start) as nat, 7);
        }
        let ghost s = bytes@.subrange(start as int, i + 1);
        assert(s.drop_last() =~= pre);
        n = n * 256 + bytes[i] as u64;
        i = i + 1;
    }
    n
}

} // verus!
