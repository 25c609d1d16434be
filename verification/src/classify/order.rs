//! Stable orders of pids.

use vstd::prelude::*;

verus! {

/// Where `x` goes in a list that is sorted by descending key: behind every
/// element whose key is not smaller.
pub open spec fn slot(s: Seq<u32>, x: u32, key: spec_fn(u32) -> u64) -> int
    decreases s.len(),
{
    if s.len() == 0 || key(s.last()) >= key(x) {
        s.len() as int
    } else {
        slot(s.drop_last(), x, key)
    }
}

/// The list by descending key; equal keys keep their order.
pub open spec fn sorted_desc(s: Seq<u32>, key: spec_fn(u32) -> u64) -> Seq<u32>
    decreases s.len(),
{
    if s.len() == 0 {
        Seq::empty()
    } else {
        let rest = sorted_desc(s.drop_last(), key);
        rest.insert(slot(rest, s.last(), key), s.last())
    }
}

/// The place found keeps the order.
pub proof fn slot_range(s: Seq<u32>, x: u32, key: spec_fn(u32) -> u64)
    ensures
        0 <= slot(s, x, key) <= s.len(),
        slot(s, x, key) > 0 ==> key(s[slot(s, x, key) - 1]) >= key(x),
        forall|j: int| slot(s, x, key) <= j < s.len() ==> key(#[trigger] s[j]) < key(x),
    decreases s.len(),
{
    if s.len() > 0 && key(s.last()) < key(x) {
        slot_range(s.drop_last(), x, key);
        assert forall|j: int| slot(s, x, key) <= j < s.len() implies key(#[trigger] s[j]) < key(
            x,
        ) by {
            if j < s.len() - 1 {
                assert(s.drop_last()[j] == s[j]);
            }
        }
    }
}

/// Sorting keeps the elements and puts larger keys first.
pub proof fn sorted_desc_facts(s: Seq<u32>, key: spec_fn(u32) -> u64)
    ensures
        sorted_desc(s, key).len() == s.len(),
        forall|x: u32| s.contains(x) <==> #[trigger] sorted_desc(s, key).contains(x),
        forall|i: int, j: int|
            0 <= i <= j < s.len() ==> key(#[trigger] sorted_desc(s, key)[i]) >= key(
                #[trigger] sorted_desc(s, key)[j],
            ),
    decreases s.len(),
{
    if s.len() == 0 {
        assert forall|x: u32| s.contains(x) <==> #[trigger] sorted_desc(s, key).contains(x) by {}
    } else {
        let front = s.drop_last();
        let rest = sorted_desc(front, key);
        let x = s.last();
        let k = slot(rest, x, key);
        let all = sorted_desc(s, key);
        sorted_desc_facts(front, key);
        slot_range(rest, x, key);
        assert(all =~= rest.insert(k, x));
        assert forall|y: u32| s.contains(y) <==> #[trigger] all.contains(y) by {
            if s.contains(y) {
                let i = choose|i: int| 0 <= i < s.len() && s[i] == y;
                if i < front.len() {
                    assert(front[i] == y);
                    assert(rest.contains(y));
                    let j = choose|j: int| 0 <= j < rest.len() && rest[j] == y;
                    if j < k {
                        assert(all[j] == y);
                    } else {
                        assert(all[j + 1] == y);
                    }
                } else {
                    assert(all[k] == y);
                }
            }
            if all.contains(y) {
                let j = choose|j: int| 0 <= j < all.len() && all[j] == y;
                if j == k {
                    assert(s[s.len() - 1] == y);
                } else {
                    if j < k {
                        assert(rest[j] == y);
                    } else {
                        assert(rest[j - 1] == y);
                    }
                    assert(rest.contains(y));
                    assert(front.contains(y));
                    let i = choose|i: int| 0 <= i < front.len() && front[i] == y;
                    assert(s[i] == y);
                }
            }
        }
        assert forall|i: int, j: int| 0 <= i <= j < s.len() implies key(#[trigger] all[i]) >= key(
            #[trigger] all[j],
        ) by {
            let a = if i < k {
                rest[i]
            } else if i == k {
                x
            } else {
                rest[i - 1]
            };
            let b = if j < k {
                rest[j]
            } else if j == k {
                x
            } else {
                rest[j - 1]
            };
            assert(all[i] == a && all[j] == b);
            if j == k && i < k {
                assert(key(rest[i]) >= key(rest[k - 1]));
            }
        }
    }
}

/// Puts one more pid into a list sorted by descending key.
pub fn insert_desc(
    pids: &mut Vec<u32>,
    keys: &mut Vec<u64>,
    pid: u32,
    key_of_pid: u64,
    Ghost(key): Ghost<spec_fn(u32) -> u64>,
)
    requires
        old(pids).len() == old(keys).len(),
        forall|j: int| 0 <= j < old(pids).len() ==> old(keys)@[j] == key(#[trigger] old(pids)@[j]),
        key_of_pid == key(pid),
    ensures
        final(pids)@ == old(pids)@.insert(slot(old(pids)@, pid, key), pid),
        final(keys).len() == final(pids).len(),
        forall|j: int|
            0 <= j < final(pids).len() ==> final(keys)@[j] == key(#[trigger] final(pids)@[j]),
{
    let mut k: usize = pids.len();
    let ghost s = pids@;
    assert(s.take(k as int) =~= s);
    while k > 0 && keys[k - 1] < key_of_pid
        invariant
            k <= pids.len(),
            pids.len() == keys.len(),
            s == pids@,
            forall|j: int| 0 <= j < pids.len() ==> keys@[j] == key(#[trigger] pids@[j]),
            key_of_pid == key(pid),
            slot(s, pid, key) == slot(s.take(k as int), pid, key),
        decreases k,
    {
        assert(s.take(k as int).last() == s[k - 1]);
        assert(s.take(k as int).drop_last() =~= s.take(k - 1));
        k -= 1;
    }
    if k > 0 {
        assert(s.take(k as int).last() == s[k - 1]);
    }
    pids.insert(k, pid);
    keys.insert(k, key_of_pid);
}

/// Where `x` goes in a strictly increasing list.
pub open spec fn set_insert(s: Seq<u32>, x: u32) -> Seq<u32>
    decreases s.len(),
{
    if s.len() == 0 {
        seq![x]
    } else if s.last() < x {
        s.push(x)
    } else if s.last() == x {
        s
    } else {
        set_insert(s.drop_last(), x).push(s.last())
    }
}

pub open spec fn increasing(s: Seq<u32>) -> bool {
    forall|i: int, j: int| 0 <= i < j < s.len() ==> #[trigger] s[i] < #[trigger] s[j]
}

/// Inserting keeps a list strictly increasing and adds just that element.
pub proof fn set_insert_facts(s: Seq<u32>, x: u32)
    requires
        increasing(s),
    ensures
        increasing(set_insert(s, x)),
        set_insert(s, x).len() > 0,
        forall|y: u32| #[trigger] set_insert(s, x).contains(y) <==> y == x || s.contains(y),
    decreases s.len(),
{
    let t = set_insert(s, x);
    if s.len() == 0 {
        assert(t[0] == x);
        assert forall|y: u32| #[trigger] t.contains(y) <==> y == x || s.contains(y) by {}
    } else if s.last() < x {
        assert forall|y: u32| #[trigger] t.contains(y) <==> y == x || s.contains(y) by {
            assert(t[s.len() as int] == x);
            if s.contains(y) {
                let i = choose|i: int| 0 <= i < s.len() && s[i] == y;
                assert(t[i] == y);
            }
        }
    } else if s.last() == x {
        assert(s[s.len() - 1] == x);
    } else {
        let front = s.drop_last();
        set_insert_facts(front, x);
        let f = set_insert(front, x);
        assert forall|i: int, j: int| 0 <= i < j < t.len() implies #[trigger] t[i]
            < #[trigger] t[j] by {
            if j < f.len() {
                assert(f[i] < f[j]);
            } else {
                assert(f.contains(f[i]));
                if f[i] != x {
                    assert(front.contains(f[i]));
                    let k = choose|k: int| 0 <= k < front.len() && front[k] == f[i];
                    assert(s[k] < s[s.len() - 1]);
                }
            }
        }
        assert forall|y: u32| #[trigger] t.contains(y) <==> y == x || s.contains(y) by {
            if t.contains(y) {
                let i = choose|i: int| 0 <= i < t.len() && t[i] == y;
                if i < f.len() {
                    assert(f.contains(y));
                    if y != x {
                        let k = choose|k: int| 0 <= k < front.len() && front[k] == y;
                        assert(s[k] == y);
                    }
                } else {
                    assert(s[s.len() - 1] == y);
                }
            }
            if y == x {
                assert(f.contains(x));
                let k = choose|k: int| 0 <= k < f.len() && f[k] == x;
                assert(t[k] == x);
            }
            if s.contains(y) {
                let i = choose|i: int| 0 <= i < s.len() && s[i] == y;
                if i < front.len() {
                    assert(front[i] == y);
                    assert(f.contains(y));
                    let k = choose|k: int| 0 <= k < f.len() && f[k] == y;
                    assert(t[k] == y);
                } else {
                    assert(t[f.len() as int] == y);
                }
            }
        }
    }
}

/// Inserts into a strictly increasing list, once.
pub fn insert_once(v: &mut Vec<u32>, x: u32)
    ensures
        final(v)@ == set_insert(old(v)@, x),
{
    let ghost s = v@;
    let mut k: usize = v.len();
    assert(s.take(k as int) =~= s);
    assert(s.skip(k as int) =~= Seq::<u32>::empty());
    assert(set_insert(s, x) =~= set_insert(s.take(k as int), x) + s.skip(k as int));
    while k > 0 && v[k - 1] > x
        invariant
            k <= v.len(),
            v@ == s,
            set_insert(s, x) == set_insert(s.take(k as int), x) + s.skip(k as int),
        decreases k,
    {
        let ghost t = s.take(k as int);
        assert(t.drop_last() =~= s.take(k - 1));
        assert(t.last() == s[k - 1]);
        assert(set_insert(t, x) == set_insert(s.take(k - 1), x).push(s[k - 1]));
        assert(set_insert(t, x) + s.skip(k as int) =~= set_insert(s.take(k - 1), x) + s.skip(
            k - 1,
        ));
        k -= 1;
    }
    let ghost t = s.take(k as int);
    if k > 0 {
        assert(t.last() == s[k - 1]);
        if v[k - 1] == x {
            assert(t + s.skip(k as int) =~= s);
            return;
        }
        assert(set_insert(t, x) == t.push(x));
    } else {
        assert(set_insert(t, x) =~= t.push(x));
    }
    v.insert(k, x);
    assert(v@ =~= t.push(x) + s.skip(k as int));
}

/// Sorting moves pids about and nothing more: those with one key stand in the
/// order they had, for every key.
pub proof fn equal_keys_keep_their_order(s: Seq<u32>, key: spec_fn(u32) -> u64, k: u64)
    ensures
        sorted_desc(s, key).filter(|x: u32| key(x) == k) == s.filter(|x: u32| key(x) == k),
        sorted_desc(s, key).to_multiset() == s.to_multiset(),
    decreases s.len(),
{
    broadcast use vstd::seq_lib::group_to_multiset_ensures;

    let with_key = |x: u32| key(x) == k;
    reveal(Seq::filter);
    if s.len() > 0 {
        let front = s.drop_last();
        let rest = sorted_desc(front, key);
        let x = s.last();
        let at = slot(rest, x, key);
        equal_keys_keep_their_order(front, key, k);
        slot_range(rest, x, key);
        let a = rest.take(at);
        let b = rest.skip(at);
        assert(rest =~= a + b);
        assert(rest.insert(at, x) =~= a.push(x) + b);
        Seq::filter_distributes_over_add(a, b, with_key);
        Seq::filter_distributes_over_add(a.push(x), b, with_key);
        assert(a.push(x).drop_last() =~= a);
        if with_key(x) {
            assert forall|j: int| 0 <= j < b.len() implies !with_key(#[trigger] b[j]) by {
                assert(b[j] == rest[at + j]);
            }
            nothing_is_kept(b, with_key);
            assert(a.filter(with_key).push(x) + Seq::<u32>::empty() =~= (a.filter(with_key)
                + Seq::<u32>::empty()).push(x));
        }
        vstd::seq_lib::to_multiset_insert(rest, at, x);
        assert(s =~= front.push(x));
    }
}

proof fn nothing_is_kept(s: Seq<u32>, p: spec_fn(u32) -> bool)
    requires
        forall|j: int| 0 <= j < s.len() ==> !p(#[trigger] s[j]),
    ensures
        s.filter(p) == Seq::<u32>::empty(),
    decreases s.len(),
{
    reveal(Seq::filter);
    if s.len() > 0 {
        let front = s.drop_last();
        assert(!p(s[s.len() - 1]));
        assert forall|j: int| 0 <= j < front.len() implies !p(#[trigger] front[j]) by {
            assert(front[j] == s[j]);
        }
        nothing_is_kept(front, p);
    }
}

} // verus!
