//! Byte forms of numbers and texts, and the hash built on them.

use vstd::prelude::*;

verus! {

/// The `k` lowest bytes of `n`, lowest first.
pub open spec fn le_bytes(n: nat, k: nat) -> Seq<u8>
    decreases k,
{
    if k == 0 {
        Seq::empty()
    } else {
        seq![(n % 256) as u8] + le_bytes(n / 256, (k - 1) as nat)
    }
}

/// The number whose bytes are `b`, lowest first.
pub open spec fn le_value(b: Seq<u8>) -> nat
    decreases b.len(),
{
    if b.len() == 0 {
        0
    } else {
        b[0] as nat + 256 * le_value(b.skip(1))
    }
}

/// 256 to the power `k`.
pub open spec fn byte_range(k: nat) -> nat
    decreases k,
{
    if k == 0 {
        1
    } else {
        256 * byte_range((k - 1) as nat)
    }
}

/// The UTF-8 bytes of a text.
pub open spec fn utf8(s: Seq<char>) -> Seq<u8> {
    vstd::utf8::encode_utf8(s)
}

/// The byte that marks the end of a text among bytes: no text holds it.
pub const TEXT_END: u8 = 0xff;

/// The UTF-8 bytes of a text, and the mark of its end.
pub open spec fn ended(s: Seq<char>) -> Seq<u8> {
    utf8(s).push(TEXT_END)
}

/// One round of the 64-bit FNV-1a hash.
pub open spec fn fnv_round(h: u64, b: u8) -> u64 {
    (h ^ (b as u64)).wrapping_mul(0x0000_0100_0000_01b3)
}

/// The 64-bit FNV-1a hash of `bytes`.
pub open spec fn fnv(bytes: Seq<u8>) -> u64
    decreases bytes.len(),
{
    if bytes.len() == 0 {
        0xcbf2_9ce4_8422_2325
    } else {
        fnv_round(fnv(bytes.drop_last()), bytes.last())
    }
}

/// Reading back the bytes of a number gives the number, when it fits.
pub proof fn le_round_trip(n: nat, k: nat)
    requires
        n < byte_range(k),
    ensures
        le_bytes(n, k).len() == k,
        le_value(le_bytes(n, k)) == n,
    decreases k,
{
    if k > 0 {
        le_round_trip(n / 256, (k - 1) as nat);
        let b = le_bytes(n, k);
        assert(b.skip(1) =~= le_bytes(n / 256, (k - 1) as nat));
    }
}

/// Bytes of a number read from bytes are those bytes.
pub proof fn le_bytes_of_value(b: Seq<u8>)
    ensures
        le_bytes(le_value(b), b.len()) == b,
        le_value(b) < byte_range(b.len()),
    decreases b.len(),
{
    if b.len() > 0 {
        le_bytes_of_value(b.skip(1));
        let v = le_value(b.skip(1));
        assert(le_value(b) == b[0] as nat + 256 * v);
        assert(le_value(b) / 256 == v && le_value(b) % 256 == b[0] as nat);
        assert(seq![b[0]] + b.skip(1) =~= b);
    } else {
        assert(le_bytes(0, 0) =~= b);
    }
}

/// No text holds the mark of an end.
pub proof fn no_end_inside(s: Seq<char>)
    ensures
        forall|i: int| 0 <= i < utf8(s).len() ==> #[trigger] utf8(s)[i] != TEXT_END,
    decreases s.len(),
{
    if s.len() > 0 {
        let all = utf8(s);
        let rest = utf8(s.drop_first());
        vstd::utf8::encode_utf8_first_scalar(s);
        no_end_inside(s.drop_first());
        let k = vstd::utf8::encode_scalar(s[0] as u32).len() as int;
        assert(all =~= vstd::utf8::encode_scalar(s[0] as u32) + rest);
        assert forall|i: int| 0 <= i < all.len() implies #[trigger] all[i] != TEXT_END by {
            if i >= k {
                assert(all[i] == rest[i - k]);
            }
        }
    }
}

/// Texts with their ends marked are told apart from what follows them.
pub proof fn ends_tell_apart(a: Seq<char>, b: Seq<char>, x: Seq<u8>, y: Seq<u8>)
    requires
        ended(a) + x == ended(b) + y,
    ensures
        a == b,
        x == y,
{
    let (p, q) = (utf8(a), utf8(b));
    let all = ended(a) + x;
    no_end_inside(a);
    no_end_inside(b);
    assert(all[p.len() as int] == TEXT_END);
    assert((ended(b) + y)[q.len() as int] == TEXT_END);
    if p.len() < q.len() {
        assert((ended(b) + y)[p.len() as int] == q[p.len() as int]);
    }
    if q.len() < p.len() {
        assert(all[q.len() as int] == p[q.len() as int]);
    }
    assert(p =~= all.take(p.len() as int));
    assert(q =~= (ended(b) + y).take(q.len() as int));
    assert(x =~= all.skip(p.len() as int + 1));
    assert(y =~= (ended(b) + y).skip(q.len() as int + 1));
    vstd::utf8::encode_utf8_decode_utf8(a);
    vstd::utf8::encode_utf8_decode_utf8(b);
}

/// Sixteen bytes hold exactly the 128-bit numbers.
pub proof fn range_of_sixteen()
    ensures
        byte_range(16) == 0x1_0000_0000_0000_0000_0000_0000_0000_0000,
        byte_range(8) == 0x1_0000_0000_0000_0000,
        byte_range(4) == 0x1_0000_0000,
{
    reveal_with_fuel(byte_range, 17);
}

/// The `k` lowest bytes of `n`, lowest first.
pub fn le_bytes_of(n: u128, k: usize) -> (v: Vec<u8>)
    ensures
        v@ == le_bytes(n as nat, k as nat),
        v.len() == k,
{
    let mut v: Vec<u8> = Vec::new();
    let mut rest: u128 = n;
    let mut i: usize = 0;
    while i < k
        invariant
            i <= k,
            v.len() == i,
            v@ + le_bytes(rest as nat, (k - i) as nat) == le_bytes(n as nat, k as nat),
        decreases k - i,
    {
        let b: u8 = (rest % 256) as u8;
        assert(seq![b] + le_bytes((rest / 256) as nat, (k - i - 1) as nat) == le_bytes(
            rest as nat,
            (k - i) as nat,
        ));
        assert(v@.push(b) + le_bytes((rest / 256) as nat, (k - i - 1) as nat) =~= v@ + (seq![b]
            + le_bytes((rest / 256) as nat, (k - i - 1) as nat)));
        v.push(b);
        rest = rest / 256;
        i += 1;
    }
    assert(v@ + le_bytes(rest as nat, 0) =~= v@);
    v
}

/// Appends `more` to `v`.
pub fn extend(v: &mut Vec<u8>, more: &[u8])
    ensures
        final(v)@ == old(v)@ + more@,
{
    let mut i: usize = 0;
    let ghost start = v@;
    while i < more.len()
        invariant
            i <= more.len(),
            v@ == start + more@.take(i as int),
        decreases more.len() - i,
    {
        v.push(more[i]);
        i += 1;
        assert(more@.take(i as int) =~= more@.take(i - 1).push(more@[i - 1]));
        assert(v@ =~= start + more@.take(i as int));
    }
    assert(more@.take(more@.len() as int) =~= more@);
}

/// Whether two runs of bytes are the same.
pub fn equal(a: &[u8], b: &[u8]) -> (r: bool)
    ensures
        r == (a@ == b@),
{
    if a.len() != b.len() {
        return false;
    }
    let mut i: usize = 0;
    while i < a.len()
        invariant
            i <= a.len(),
            a.len() == b.len(),
            forall|k: int| 0 <= k < i ==> a@[k] == b@[k],
        decreases a.len() - i,
    {
        if a[i] != b[i] {
            return false;
        }
        i += 1;
    }
    assert(a@ =~= b@);
    true
}

/// FNV-1a 64-bit, stable across builds and runs.
pub fn fnv1a(bytes: &[u8]) -> (h: u64)
    ensures
        h == fnv(bytes@),
{
    let mut h: u64 = 0xcbf2_9ce4_8422_2325;
    let mut i: usize = 0;
    assert(bytes@.take(0) =~= Seq::<u8>::empty());
    while i < bytes.len()
        invariant
            i <= bytes.len(),
            h == fnv(bytes@.take(i as int)),
        decreases bytes.len() - i,
    {
        assert(bytes@.take(i + 1).drop_last() =~= bytes@.take(i as int));
        h = (h ^ (bytes[i] as u64)).wrapping_mul(0x0000_0100_0000_01b3);
        i += 1;
    }
    assert(bytes@.take(bytes@.len() as int) =~= bytes@);
    h
}

} // verus!
