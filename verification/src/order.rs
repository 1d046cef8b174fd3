//! The order of listings: every read path returns its rows sorted by a
//! natural display key. One verified insertion sort serves every row type
//! through the [`ListOrder`] trait.

use vstd::prelude::*;

verus! {

/// A total preorder on listing rows: `precedes(a, b)` says `a` may stand
/// directly before `b`.
pub trait ListOrder: Sized {
    spec fn precedes(a: Self, b: Self) -> bool;

    proof fn lemma_total(a: Self, b: Self)
        ensures
            Self::precedes(a, b) || Self::precedes(b, a),
    ;

    fn leq(&self, other: &Self) -> (r: bool)
        ensures
            r == Self::precedes(*self, *other),
    ;
}

/// Adjacent rows stand in display order.
pub open spec fn ordered<T: ListOrder>(s: Seq<T>) -> bool {
    forall|i: int| 0 <= i < s.len() - 1 ==> T::precedes(#[trigger] s[i], s[i + 1])
}

proof fn lemma_insert_to_multiset<T>(s: Seq<T>, j: int, x: T)
    requires
        0 <= j <= s.len(),
    ensures
        s.insert(j, x).to_multiset() == s.to_multiset().insert(x),
{
    broadcast use vstd::seq_lib::group_to_multiset_ensures;

    let t = s.insert(j, x);
    assert(t.remove(j) =~= s);
    assert(t[j] == x);
    assert(t.remove(j).to_multiset() =~= t.to_multiset().remove(x));
    assert(t.contains(x));
    assert(t.to_multiset().count(x) > 0);
    assert(t.to_multiset() =~= s.to_multiset().insert(x));
}

/// Sort rows in place: afterwards they are in display order and are exactly
/// the rows that were there, multiplicity included.
pub fn sort_rows<T: ListOrder>(v: &mut Vec<T>)
    ensures
        ordered(final(v)@),
        final(v)@.to_multiset() == old(v)@.to_multiset(),
{
    let ghost orig = v@;
    let mut i: usize = 1;
    while i < v.len()
        invariant
            1 <= i,
            i <= v@.len() || v@.len() <= 1,
            v@.len() == orig.len(),
            v@.to_multiset() == orig.to_multiset(),
            forall|k: int| 0 <= k < i - 1 && k < v@.len() - 1 ==> T::precedes(
                #[trigger] v@[k],
                v@[k + 1],
            ),
        decreases v@.len() - i,
    {
        let ghost before = v@;
        let x = v.remove(i);
        let ghost vr = v@;
        proof {
            broadcast use vstd::seq_lib::group_to_multiset_ensures;

            assert(before.remove(i as int).to_multiset() =~= before.to_multiset().remove(
                before[i as int],
            ));
        }
        let mut j: usize = i;
        while j > 0 && !v[j - 1].leq(&x)
            invariant
                0 <= j <= i,
                i < before.len(),
                v@ == vr,
                vr.len() == before.len() - 1,
                forall|k: int| 0 <= k < i - 1 ==> T::precedes(#[trigger] vr[k], vr[k + 1]),
                forall|k: int| j <= k < i ==> T::precedes(x, #[trigger] vr[k]),
            decreases j,
        {
            proof {
                T::lemma_total(x, v@[j - 1]);
            }
            j = j - 1;
        }
        proof {
            if j > 0 {
                assert(T::precedes(vr[j - 1], x));
            }
        }
        v.insert(j, x);
        proof {
            lemma_insert_to_multiset(vr, j as int, x);
            assert(v@.to_multiset() == orig.to_multiset());
            assert forall|k: int| 0 <= k < i && k < v@.len() - 1 implies T::precedes(
                #[trigger] v@[k],
                v@[k + 1],
            ) by {
                if k + 1 < j {
                    assert(v@[k] == vr[k] && v@[k + 1] == vr[k + 1]);
                } else if k + 1 == j {
                    assert(v@[k] == vr[k] && v@[k + 1] == x);
                } else if k == j {
                    assert(v@[k] == x && v@[k + 1] == vr[k]);
                } else {
                    assert(v@[k] == vr[k - 1] && v@[k + 1] == vr[k]);
                }
            }
        }
        i += 1;
    }
    proof {
        if v@.len() <= 1 {
        } else {
            assert(i >= v@.len());
        }
    }
}

/// The views of a sequence of rows, element by element.
pub open spec fn seq_view<T: View>(s: Seq<T>) -> Seq<<T as View>::V> {
    Seq::new(s.len(), |i: int| s[i]@)
}

/// A permutation of rows is a permutation of their views.
pub proof fn lemma_seq_view_multiset<T: View>(s1: Seq<T>, s2: Seq<T>)
    requires
        s1.to_multiset() == s2.to_multiset(),
    ensures
        seq_view(s1).to_multiset() == seq_view(s2).to_multiset(),
    decreases s1.len(),
{
    broadcast use vstd::seq_lib::group_to_multiset_ensures;
    broadcast use vstd::multiset::group_multiset_axioms;

    if s1.len() == 0 {
        assert(s1.to_multiset().len() == 0);
        assert(s2.to_multiset().len() == s2.len());
        assert(s2.len() == 0);
        assert(seq_view(s1) =~= Seq::<<T as View>::V>::empty());
        assert(seq_view(s2) =~= Seq::<<T as View>::V>::empty());
        assert(seq_view(s1).to_multiset() =~= seq_view(s2).to_multiset());
    } else {
        let x = s1.last();
        assert(s1.contains(x));
        assert(s2.to_multiset().count(x) > 0);
        assert(s2.contains(x));
        let j = choose|j: int| 0 <= j < s2.len() && s2[j] == x;
        let s1p = s1.drop_last();
        let s2p = s2.remove(j);
        assert(s1.remove(s1.len() - 1) =~= s1p);
        assert(s1p.to_multiset() =~= s1.to_multiset().remove(x));
        assert(s2p.to_multiset() =~= s2.to_multiset().remove(x));
        lemma_seq_view_multiset(s1p, s2p);
        assert(seq_view(s1).remove(s1.len() - 1) =~= seq_view(s1p));
        assert(seq_view(s1)[s1.len() - 1] == x@);
        assert(seq_view(s1p).to_multiset() =~= seq_view(s1).to_multiset().remove(x@));
        assert(seq_view(s2p) =~= seq_view(s2).remove(j));
        assert(seq_view(s2)[j] == x@);
        assert(seq_view(s2p).to_multiset() =~= seq_view(s2).to_multiset().remove(x@));
        assert(seq_view(s1).contains(x@));
        assert(seq_view(s1).to_multiset().count(x@) > 0);
        assert(seq_view(s2).contains(x@));
        assert(seq_view(s2).to_multiset().count(x@) > 0);
        assert forall|y: <T as View>::V| true implies seq_view(s1).to_multiset().count(y)
            == seq_view(s2).to_multiset().count(y) by {
            let m1 = seq_view(s1).to_multiset();
            let m2 = seq_view(s2).to_multiset();
            if y == x@ {
                assert(m1.remove(x@).count(y) == m1.count(y) - 1);
                assert(m2.remove(x@).count(y) == m2.count(y) - 1);
            } else {
                assert(m1.remove(x@).count(y) == m1.count(y));
                assert(m2.remove(x@).count(y) == m2.count(y));
            }
        }
        assert(seq_view(s1).to_multiset() =~= seq_view(s2).to_multiset());
    }
}

} // verus!
