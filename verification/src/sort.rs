//! Stable insertion sort of values by a string key, in the order of `str::cmp`.

use vstd::prelude::*;
use crate::text::{lex_le, lex_lt, lemma_lex_asymmetric, lemma_lex_irreflexive, lemma_lex_total, lemma_lex_transitive, str_lt};

verus! {

broadcast use vstd::seq_lib::group_to_multiset_ensures;

/// A value that sorts by a string key.
pub trait Keyed {
    spec fn key_of(&self) -> Seq<char>;

    fn key(&self) -> (k: &str)
        ensures
            k@ == self.key_of(),
    ;
}

/// The keys of `s` never go down.
pub open spec fn sorted_by_key<T: Keyed>(s: Seq<T>) -> bool {
    forall|i: int, j: int| 0 <= i < j < s.len() ==> lex_le(#[trigger] s[i].key_of(), #[trigger] s[j].key_of())
}

/// The values of `s` whose key is `k`, in their order in `s`.
pub open spec fn with_key<T: Keyed>(s: Seq<T>, k: Seq<char>) -> Seq<T>
    decreases s.len(),
{
    if s.len() == 0 {
        Seq::<T>::empty()
    } else {
        let rest = with_key(s.drop_last(), k);
        if s.last().key_of() == k {
            rest.push(s.last())
        } else {
            rest
        }
    }
}

/// Picking the values of one key from two sequences put end to end picks from each.
pub proof fn lemma_with_key_concat<T: Keyed>(a: Seq<T>, b: Seq<T>, k: Seq<char>)
    ensures
        with_key(a + b, k) == with_key(a, k) + with_key(b, k),
    decreases b.len(),
{
    if b.len() == 0 {
        assert(a + b =~= a);
        assert(with_key(a, k) + with_key(b, k) =~= with_key(a, k));
    } else {
        assert((a + b).drop_last() =~= a + b.drop_last());
        assert((a + b).last() == b.last());
        lemma_with_key_concat(a, b.drop_last(), k);
        if b.last().key_of() == k {
            assert(with_key(a, k) + with_key(b.drop_last(), k).push(b.last()) =~= (with_key(a, k) + with_key(
                b.drop_last(),
                k,
            )).push(b.last()));
        }
    }
}

/// Where no value has the key `k`, none is picked.
pub proof fn lemma_with_key_none<T: Keyed>(s: Seq<T>, k: Seq<char>)
    requires
        forall|i: int| 0 <= i < s.len() ==> (#[trigger] s[i]).key_of() != k,
    ensures
        with_key(s, k) == Seq::<T>::empty(),
    decreases s.len(),
{
    if s.len() > 0 {
        assert(s.last() == s[s.len() - 1]);
        lemma_with_key_none(s.drop_last(), k);
    }
}

/// The values of `v` ordered by key; values with equal keys keep their order.
pub fn sort_by_key<T: Keyed>(v: Vec<T>) -> (r: Vec<T>)
    ensures
        sorted_by_key(r@),
        r@.to_multiset() == v@.to_multiset(),
        forall|k: Seq<char>| #[trigger] with_key(r@, k) == with_key(v@, k),
{
    let ghost input = v@;
    let mut out: Vec<T> = Vec::new();
    assert(input.take(0) =~= Seq::<T>::empty());
    for x in it: v.into_iter()
        invariant
            it.seq() == input,
            sorted_by_key(out@),
            out@.to_multiset() == input.take(it.index() as int).to_multiset(),
            forall|k: Seq<char>| #[trigger] with_key(out@, k) == with_key(input.take(it.index() as int), k),
    {
        let ghost k = it.index() as int;
        let mut p: usize = 0;
        while p < out.len() && !str_lt(x.key(), out[p].key())
            invariant
                p <= out@.len(),
                sorted_by_key(out@),
                forall|q: int| 0 <= q < p ==> !lex_lt(x.key_of(), #[trigger] out@[q].key_of()),
            decreases out@.len() - p,
        {
            p += 1;
        }
        let ghost before = out@;
        out.insert(p, x);
        proof {
            before.insert_ensures(p as int, x);
            assert(out@ == before.insert(p as int, x));
            assert forall|i: int, j: int| 0 <= i < j < out@.len() implies lex_le(
                #[trigger] out@[i].key_of(),
                #[trigger] out@[j].key_of(),
            ) by {
                if i < p && j == p {
                    lemma_lex_total(before[i].key_of(), x.key_of());
                } else if i < p && j > p {
                    assert(out@[j] == before[j - 1]);
                } else if i == p && j > p {
                    assert(out@[j] == before[j - 1]);
                    let y = before[j - 1];
                    if p < before.len() {
                        assert(lex_lt(x.key_of(), before[p as int].key_of()));
                        if p < j - 1 {
                            assert(lex_le(before[p as int].key_of(), y.key_of()));
                            if lex_lt(before[p as int].key_of(), y.key_of()) {
                                lemma_lex_transitive(x.key_of(), before[p as int].key_of(), y.key_of());
                            }
                        }
                    }
                } else if j < p {
                    assert(out@[i] == before[i]);
                    assert(out@[j] == before[j]);
                } else {
                    assert(out@[i] == before[i - 1]);
                    assert(out@[j] == before[j - 1]);
                }
            }
            assert(out@.remove(p as int) =~= before);
            assert(out@.to_multiset().remove(x) == before.to_multiset());
            assert(out@.to_multiset().count(x) > 0) by {
                assert(out@[p as int] == x);
                assert(out@.contains(x));
            }
            assert(out@.to_multiset() =~= before.to_multiset().insert(x));
            assert(input.take(k + 1) =~= input.take(k).push(x));
            assert(input.take(k + 1).drop_last() =~= input.take(k));
            let head = before.take(p as int);
            let tail = before.skip(p as int);
            assert(before =~= head + tail);
            assert(out@ =~= head + seq![x] + tail);
            assert forall|q: int| 0 <= q < tail.len() implies lex_lt(x.key_of(), (#[trigger] tail[q]).key_of()) by {
                assert(tail[q] == before[p + q]);
                if q > 0 {
                    assert(lex_le(before[p as int].key_of(), before[p + q].key_of()));
                    if lex_lt(before[p as int].key_of(), before[p + q].key_of()) {
                        lemma_lex_transitive(x.key_of(), before[p as int].key_of(), before[p + q].key_of());
                    }
                }
            }
            assert forall|key: Seq<char>| #[trigger] with_key(out@, key) == with_key(input.take(k + 1), key) by {
                lemma_with_key_concat(head + seq![x], tail, key);
                lemma_with_key_concat(head, seq![x], key);
                lemma_with_key_concat(head, tail, key);
                assert(seq![x].drop_last() =~= Seq::<T>::empty());
                assert(seq![x].last() == x);
                assert(with_key(Seq::<T>::empty(), key) =~= Seq::<T>::empty());
                assert(with_key(before, key) == with_key(input.take(k), key));
                assert(with_key(before, key) == with_key(head, key) + with_key(tail, key));
                assert(input.take(k + 1).last() == x);
                if x.key_of() == key {
                    assert forall|q: int| 0 <= q < tail.len() implies (#[trigger] tail[q]).key_of() != key by {
                        lemma_lex_irreflexive(key);
                    }
                    lemma_with_key_none(tail, key);
                    assert(with_key(tail, key) =~= Seq::<T>::empty());
                    assert(with_key(head, key) + seq![x] + Seq::<T>::empty() =~= with_key(head, key).push(x));
                    assert(with_key(head, key) + Seq::<T>::empty() =~= with_key(head, key));
                } else {
                    assert(with_key(seq![x], key) =~= Seq::<T>::empty());
                    assert(with_key(head, key) + Seq::<T>::empty() =~= with_key(head, key));
                }
            }
        }
    }
    assert(input.take(input.len() as int) =~= input);
    out
}

/// Two sequences with the same elements keep the same elements when each is mapped by `f`.
pub proof fn lemma_map_same_multiset<A, B>(a: Seq<A>, b: Seq<A>, f: spec_fn(A) -> B)
    requires
        a.to_multiset() == b.to_multiset(),
    ensures
        a.map_values(f).to_multiset() == b.map_values(f).to_multiset(),
    decreases a.len(),
{
    if a.len() == 0 {
        assert(a.to_multiset().len() == 0);
        assert(b.len() == b.to_multiset().len());
        assert(b.len() == 0);
        assert(a.map_values(f) =~= b.map_values(f));
    } else {
        let x = a.last();
        let a1 = a.drop_last();
        assert(a =~= a1.push(x));
        assert(a.to_multiset().count(x) > 0) by {
            assert(a.contains(x)) by {
                assert(a[a.len() - 1] == x);
            }
        }
        assert(b.contains(x));
        let j = choose|j: int| 0 <= j < b.len() && b[j] == x;
        let b1 = b.remove(j);
        assert(b1.to_multiset() =~= b.to_multiset().remove(x));
        assert(a1.to_multiset() =~= a.to_multiset().remove(x));
        lemma_map_same_multiset(a1, b1, f);
        assert(a.map_values(f) =~= a1.map_values(f).push(f(x)));
        let bm = b.map_values(f);
        assert(bm.remove(j) =~= b1.map_values(f));
        assert(bm[j] == f(x));
        assert(bm.to_multiset().count(f(x)) > 0) by {
            assert(bm.contains(f(x)));
        }
        assert(bm.remove(j).to_multiset() =~= bm.to_multiset().remove(f(x)));
        assert(bm.to_multiset() =~= b1.map_values(f).to_multiset().insert(f(x)));
    }
}

} // verus!
