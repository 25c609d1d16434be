//! Stable sorting by a text key.

use crate::text;
use crate::text::before;
use vstd::prelude::*;

verus! {

/// A value with a model, and a text by which it is sorted.
pub trait Keyed: Sized {
    type Model;

    spec fn modelled(self) -> Self::Model;

    spec fn key(m: Self::Model) -> Seq<char>;

    fn sort_text(&self) -> (r: &str)
        ensures
            r@ == Self::key(self.modelled()),
    ;
}

impl Keyed for String {
    type Model = Seq<char>;

    open spec fn modelled(self) -> Seq<char> {
        self@
    }

    open spec fn key(m: Seq<char>) -> Seq<char> {
        m
    }

    fn sort_text(&self) -> (r: &str) {
        self.as_str()
    }
}

pub open spec fn all_modelled<T: Keyed>(s: Seq<T>) -> Seq<T::Model> {
    Seq::new(s.len(), |i: int| s[i].modelled())
}

/// The place before the first value whose key is not smaller.
pub open spec fn slot<T: Keyed>(s: Seq<T::Model>, x: T::Model) -> int
    decreases s.len(),
{
    if s.len() == 0 || !text::precedes(T::key(s[0]), T::key(x)) {
        0
    } else {
        1 + slot::<T>(s.skip(1), x)
    }
}

/// The values by key; values with one key keep their order.
pub open spec fn sorted<T: Keyed>(s: Seq<T::Model>) -> Seq<T::Model>
    decreases s.len(),
{
    if s.len() == 0 {
        Seq::empty()
    } else {
        let rest = sorted::<T>(s.skip(1));
        rest.insert(slot::<T>(rest, s[0]), s[0])
    }
}

pub open spec fn in_order<T: Keyed>(s: Seq<T::Model>) -> bool {
    forall|i: int, j: int|
        0 <= i < j < s.len() ==> !text::precedes(T::key(#[trigger] s[j]), T::key(#[trigger] s[i]))
}

proof fn slot_facts<T: Keyed>(s: Seq<T::Model>, x: T::Model)
    ensures
        0 <= slot::<T>(s, x) <= s.len(),
        forall|i: int|
            0 <= i < slot::<T>(s, x) ==> text::precedes(T::key(#[trigger] s[i]), T::key(x)),
        slot::<T>(s, x) < s.len() ==> !text::precedes(T::key(s[slot::<T>(s, x)]), T::key(x)),
    decreases s.len(),
{
    if s.len() > 0 && text::precedes(T::key(s[0]), T::key(x)) {
        let rest = s.skip(1);
        slot_facts::<T>(rest, x);
        assert forall|i: int| 0 <= i < slot::<T>(s, x) implies text::precedes(
            T::key(#[trigger] s[i]),
            T::key(x),
        ) by {
            if i > 0 {
                assert(s[i] == rest[i - 1]);
            }
        }
        if slot::<T>(s, x) < s.len() {
            assert(s[slot::<T>(s, x)] == rest[slot::<T>(rest, x)]);
        }
    }
}

/// A sorted list is in order, and holds what the list held, as often.
pub proof fn sorting_keeps_and_orders<T: Keyed>(s: Seq<T::Model>)
    ensures
        sorted::<T>(s).len() == s.len(),
        in_order::<T>(sorted::<T>(s)),
        sorted::<T>(s).to_multiset() == s.to_multiset(),
    decreases s.len(),
{
    broadcast use vstd::seq_lib::group_to_multiset_ensures;

    if s.len() > 0 {
        let rest = sorted::<T>(s.skip(1));
        let x = s[0];
        sorting_keeps_and_orders::<T>(s.skip(1));
        slot_facts::<T>(rest, x);
        let k = slot::<T>(rest, x);
        let all = rest.insert(k, x);
        assert forall|i: int, j: int| 0 <= i < j < all.len() implies !text::precedes(
            T::key(#[trigger] all[j]),
            T::key(#[trigger] all[i]),
        ) by {
            if j == k {
                text::precedes_irreflexive(T::key(x));
                assert(all[i] == rest[i]);
                if text::precedes(T::key(x), T::key(rest[i])) {
                    text::precedes_transitive(T::key(x), T::key(rest[i]), T::key(x));
                }
            } else if i == k {
                assert(all[j] == rest[j - 1]);
                if text::precedes(T::key(rest[j - 1]), T::key(x)) {
                    if j - 1 > k {
                        assert(!text::precedes(T::key(rest[j - 1]), T::key(rest[k])));
                        text::precedes_total(T::key(rest[j - 1]), T::key(rest[k]));
                        if text::precedes(T::key(rest[k]), T::key(rest[j - 1])) {
                            text::precedes_transitive(
                                T::key(rest[k]),
                                T::key(rest[j - 1]),
                                T::key(x),
                            );
                        }
                    }
                }
            } else {
                let a = if i < k {
                    i
                } else {
                    i - 1
                };
                let b = if j < k {
                    j
                } else {
                    j - 1
                };
                assert(all[i] == rest[a] && all[j] == rest[b]);
            }
        }
        assert(s =~= seq![x] + s.skip(1));
        assert(s.skip(1) =~= s.remove(0));
        assert(s.to_multiset() =~= s.skip(1).to_multiset().insert(x));
        assert(all.to_multiset() =~= rest.to_multiset().insert(x));
    } else {
        assert(sorted::<T>(s) =~= s);
    }
}

/// Sorts by key; stable.
pub fn sort<T: Keyed>(v: Vec<T>) -> (r: Vec<T>)
    ensures
        all_modelled(r@) == sorted::<T>(all_modelled(v@)),
{
    let mut v: Vec<T> = v;
    let mut r: Vec<T> = Vec::new();
    let ghost all = all_modelled(v@);
    assert(all.skip(v@.len() as int) =~= Seq::<T::Model>::empty());
    assert(all_modelled(r@) =~= Seq::<T::Model>::empty());
    while v.len() > 0
        invariant
            v@.len() <= all.len(),
            all_modelled(v@) == all.take(v@.len() as int),
            all_modelled(r@) == sorted::<T>(all.skip(v@.len() as int)),
        decreases v.len(),
    {
        let ghost n = v@.len() as int;
        let ghost before_pop = v@;
        let x: T = v.pop().unwrap();
        let ghost xm = x.modelled();
        assert(all[n - 1] == all_modelled(before_pop)[n - 1]);
        assert(all_modelled(v@) =~= all.take(n - 1));
        let ghost rest = all_modelled(r@);
        assert(rest.skip(0) =~= rest);
        let mut k: usize = 0;
        while k < r.len() && before(r[k].sort_text(), x.sort_text())
            invariant
                k <= r.len(),
                rest == all_modelled(r@),
                xm == x.modelled(),
                slot::<T>(rest, xm) == k + slot::<T>(rest.skip(k as int), xm),
            decreases r.len() - k,
        {
            assert(rest.skip(k as int)[0] == rest[k as int]);
            assert(rest[k as int] == r@[k as int].modelled());
            assert(rest.skip(k as int).skip(1) =~= rest.skip(k + 1));
            k += 1;
        }
        assert(k < r@.len() ==> rest.skip(k as int)[0] == r@[k as int].modelled());
        let ghost old_r = r@;
        r.insert(k, x);
        assert(all_modelled(r@) =~= rest.insert(k as int, xm));
        assert(all.skip(n - 1)[0] == xm);
        assert(all.skip(n - 1).skip(1) =~= all.skip(n));
    }
    assert(all.skip(0) =~= all);
    r
}

} // verus!
