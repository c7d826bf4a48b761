//! Stable insertion sort over a strict order that each item type supplies.
use vstd::prelude::*;

verus! {

/// A strict order: `a.precedes(b)` means that `a` is to come before `b`.
pub trait Ranked: Sized {
    spec fn precedes(self, other: Self) -> bool;

    /// Decides `self.precedes(*other)`.
    fn goes_before(&self, other: &Self) -> (b: bool)
        ensures
            b == self.precedes(*other),
    ;

    proof fn lemma_irreflexive(a: Self)
        ensures
            !a.precedes(a),
    ;

    proof fn lemma_transitive(a: Self, b: Self, c: Self)
        requires
            a.precedes(b),
            b.precedes(c),
        ensures
            a.precedes(c),
    ;
}

/// Inserts `x` into `s` before the first element that `x` precedes.
pub open spec fn insert_sorted<T: Ranked>(s: Seq<T>, x: T) -> Seq<T>
    decreases s.len(),
{
    if s.len() == 0 {
        seq![x]
    } else if x.precedes(s[0]) {
        seq![x] + s
    } else {
        seq![s[0]] + insert_sorted(s.drop_first(), x)
    }
}

/// `s` sorted stably: the elements are inserted one after the other, in order.
pub open spec fn sorted_seq<T: Ranked>(s: Seq<T>) -> Seq<T>
    decreases s.len(),
{
    if s.len() == 0 {
        s
    } else {
        insert_sorted(sorted_seq(s.drop_last()), s.last())
    }
}

/// No element of `s` precedes an element before it.
pub open spec fn is_ordered<T: Ranked>(s: Seq<T>) -> bool {
    forall|i: int, j: int| 0 <= i < j < s.len() ==> !(#[trigger] s[j]).precedes(#[trigger] s[i])
}

/// Inserting at the first position whose element `x` precedes.
proof fn lemma_insert_at<T: Ranked>(s: Seq<T>, x: T, k: int)
    requires
        0 <= k <= s.len(),
        forall|i: int| 0 <= i < k ==> !x.precedes(#[trigger] s[i]),
        k < s.len() ==> x.precedes(s[k]),
    ensures
        insert_sorted(s, x) == s.take(k) + seq![x] + s.skip(k),
    decreases s.len(),
{
    if s.len() == 0 {
        assert(s.take(k) + seq![x] + s.skip(k) =~= seq![x]);
    } else if k == 0 {
        assert(s.take(k) + seq![x] + s.skip(k) =~= seq![x] + s);
    } else {
        assert(!x.precedes(s[0]));
        let t = s.drop_first();
        assert forall|i: int| 0 <= i < k - 1 implies !x.precedes(#[trigger] t[i]) by {
            assert(t[i] == s[i + 1]);
        }
        lemma_insert_at(t, x, k - 1);
        assert(seq![s[0]] + (t.take(k - 1) + seq![x] + t.skip(k - 1)) =~= s.take(k) + seq![x]
            + s.skip(k));
    }
}

/// Sorts `v` stably by the order of `T`.
pub fn sort_stable<T: Ranked>(v: Vec<T>) -> (r: Vec<T>)
    ensures
        r@ == sorted_seq(v@),
{
    let ghost all = v@;
    let mut rest = v;
    let mut out: Vec<T> = Vec::new();
    let ghost mut done: Seq<T> = Seq::empty();
    while rest.len() > 0
        invariant
            all == done + rest@,
            out@ == sorted_seq(done),
        decreases rest.len(),
    {
        let x = rest.remove(0);
        let mut k: usize = 0;
        while k < out.len() && !x.goes_before(&out[k])
            invariant
                k <= out.len(),
                forall|i: int| 0 <= i < k ==> !x.precedes(#[trigger] out@[i]),
            decreases out.len() - k,
        {
            k += 1;
        }
        proof {
            lemma_insert_at(out@, x, k as int);
            let nd = done.push(x);
            assert(nd.drop_last() =~= done);
            assert(all =~= nd + rest@);
            done = nd;
        }
        out.insert(k, x);
        assert(out@ =~= sorted_seq(done));
    }
    assert(done =~= all);
    out
}

/// Inserting keeps a sequence ordered, and adds exactly `x`.
proof fn lemma_insert_sorted_props<T: Ranked>(s: Seq<T>, x: T)
    requires
        is_ordered(s),
    ensures
        is_ordered(insert_sorted(s, x)),
        insert_sorted(s, x).to_multiset() == s.to_multiset().insert(x),
        insert_sorted(s, x).len() == s.len() + 1,
    decreases s.len(),
{
    broadcast use vstd::seq_lib::group_to_multiset_ensures;

    if s.len() == 0 {
        assert(insert_sorted(s, x) =~= seq![x]);
        assert(seq![x] =~= Seq::<T>::empty().push(x));
    } else if x.precedes(s[0]) {
        let r = seq![x] + s;
        assert forall|i: int, j: int| 0 <= i < j < r.len() implies !(#[trigger] r[j]).precedes(
            #[trigger] r[i],
        ) by {
            if i == 0 {
                if r[j].precedes(x) {
                    T::lemma_transitive(r[j], x, s[0]);
                    if j == 1 {
                        T::lemma_irreflexive(s[0]);
                    }
                }
            } else {
                assert(r[i] == s[i - 1] && r[j] == s[j - 1]);
            }
        }
        assert(r =~= seq![x].add(s));
        vstd::seq_lib::lemma_multiset_commutative(seq![x], s);
        assert(seq![x] =~= Seq::<T>::empty().push(x));
    } else {
        let t = s.drop_first();
        assert forall|i: int, j: int| 0 <= i < j < t.len() implies !(#[trigger] t[j]).precedes(
            #[trigger] t[i],
        ) by {
            assert(t[i] == s[i + 1] && t[j] == s[j + 1]);
        }
        lemma_insert_sorted_props(t, x);
        let it = insert_sorted(t, x);
        let r = seq![s[0]] + it;
        assert(insert_sorted(s, x) == r);
        // Every element of `it` is `x` or an element of `t`; none precedes `s[0]`.
        assert forall|j: int| 0 <= j < it.len() implies !(#[trigger] it[j]).precedes(s[0]) by {
            assert(it.to_multiset().count(it[j]) > 0);
            assert(t.to_multiset().insert(x).count(it[j]) > 0);
            if it[j] != x {
                assert(t.to_multiset().count(it[j]) > 0);
                assert(t.contains(it[j]));
                let m = choose|m: int| 0 <= m < t.len() && t[m] == it[j];
                assert(s[m + 1] == t[m]);
            }
        }
        assert forall|i: int, j: int| 0 <= i < j < r.len() implies !(#[trigger] r[j]).precedes(
            #[trigger] r[i],
        ) by {
            if i == 0 {
                assert(r[j] == it[j - 1]);
            } else {
                assert(r[i] == it[i - 1] && r[j] == it[j - 1]);
            }
        }
        vstd::seq_lib::lemma_multiset_commutative(seq![s[0]], it);
        vstd::seq_lib::lemma_multiset_commutative(seq![s[0]], t);
        assert(seq![s[0]] + t =~= s);
    }
}

/// Sorting yields an ordered rearrangement of the same elements.
pub proof fn lemma_sorted_seq<T: Ranked>(s: Seq<T>)
    ensures
        is_ordered(sorted_seq(s)),
        sorted_seq(s).to_multiset() == s.to_multiset(),
        sorted_seq(s).len() == s.len(),
    decreases s.len(),
{
    broadcast use vstd::seq_lib::group_to_multiset_ensures;

    if s.len() > 0 {
        lemma_sorted_seq(s.drop_last());
        lemma_insert_sorted_props(sorted_seq(s.drop_last()), s.last());
        assert(s.drop_last().push(s.last()) =~= s);
    }
}

} // verus!
