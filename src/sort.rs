//! A stable insertion sort over items that carry a total preorder.
use vstd::prelude::*;
use vstd::multiset::Multiset;
use vstd::seq_lib::lemma_multiset_commutative;

verus! {

broadcast use vstd::seq_lib::group_to_multiset_ensures;

/// A total preorder used to arrange items for output.
pub trait Ordered: Sized {
    spec fn precedes_spec(&self, other: &Self) -> bool;

    proof fn lemma_precedes_total(a: &Self, b: &Self)
        ensures
            a.precedes_spec(b) || b.precedes_spec(a),
    ;

    proof fn lemma_precedes_trans(a: &Self, b: &Self, c: &Self)
        requires
            a.precedes_spec(b),
            b.precedes_spec(c),
        ensures
            a.precedes_spec(c),
    ;

    fn precedes(&self, other: &Self) -> (r: bool)
        ensures
            r == self.precedes_spec(other),
    ;
}

pub open spec fn is_sorted<T: Ordered>(s: Seq<T>) -> bool {
    forall|i: int, j: int| 0 <= i < j < s.len() ==> s[i].precedes_spec(&s[j])
}

/// Where `sort_items` inserts `x` into the sorted prefix `out`: before the
/// first item that `x` does not follow.
pub open spec fn insert_pos<T: Ordered>(out: Seq<T>, x: T) -> nat
    decreases out.len(),
{
    if out.len() == 0 {
        0
    } else if !out[0].precedes_spec(&x) {
        0
    } else {
        1 + insert_pos(out.drop_first(), x)
    }
}

/// The order that `sort_items` produces.
pub open spec fn sorted_spec<T: Ordered>(s: Seq<T>) -> Seq<T>
    decreases s.len(),
{
    if s.len() == 0 {
        Seq::empty()
    } else {
        let out = sorted_spec(s.drop_last());
        out.insert(insert_pos(out, s.last()) as int, s.last())
    }
}

proof fn lemma_insert_pos<T: Ordered>(out: Seq<T>, x: T, p: int)
    requires
        0 <= p <= out.len(),
        forall|k: int| 0 <= k < p ==> out[k].precedes_spec(&x),
        p == out.len() || !out[p].precedes_spec(&x),
    ensures
        insert_pos(out, x) == p,
    decreases p,
{
    if p > 0 {
        lemma_insert_pos(out.drop_first(), x, p - 1);
    }
}

proof fn lemma_insert_multiset<T>(s: Seq<T>, pos: int, x: T)
    requires
        0 <= pos <= s.len(),
    ensures
        s.insert(pos, x).to_multiset() =~= s.to_multiset().insert(x),
{
    let left = s.subrange(0, pos);
    let right = s.subrange(pos, s.len() as int);
    assert(s =~= left + right);
    assert(s.insert(pos, x) =~= left.push(x) + right);
    lemma_multiset_commutative(left.push(x), right);
    lemma_multiset_commutative(left, right);
}

/// Sorts `v`; items that neither precedes strictly keep their relative order.
pub fn sort_items<T: Ordered>(v: Vec<T>) -> (r: Vec<T>)
    ensures
        is_sorted(r@),
        r@.to_multiset() == v@.to_multiset(),
        r@ == sorted_spec(v@),
{
    let mut rest = v;
    let mut out: Vec<T> = Vec::new();
    assert(v@.take(0) =~= Seq::<T>::empty());
    assert(v@.skip(0) =~= v@);
    while rest.len() > 0
        invariant
            is_sorted(out@),
            out@.to_multiset().add(rest@.to_multiset()) == v@.to_multiset(),
            out@ == sorted_spec(v@.take(v@.len() - rest@.len())),
            rest@.len() <= v@.len(),
            rest@ == v@.skip(v@.len() - rest@.len()),
        decreases rest.len(),
    {
        let ghost rest0 = rest@;
        let x = rest.remove(0);
        let mut pos: usize = 0;
        while pos < out.len() && out[pos].precedes(&x)
            invariant
                pos <= out.len(),
                forall|k: int| 0 <= k < pos ==> out@[k].precedes_spec(&x),
            decreases out.len() - pos,
        {
            pos = pos + 1;
        }
        let ghost out0 = out@;
        proof {
            lemma_insert_pos(out0, x, pos as int);
            let done = v@.len() - rest0.len();
            assert(0 <= done < v@.len());
            assert(rest0[0] == v@[done]);
            assert(x == rest0[0]);
            assert(v@.take(done + 1).drop_last() =~= v@.take(done));
            assert(v@.take(done + 1).last() == x);
            assert(rest@ =~= v@.skip(done + 1));
            lemma_insert_multiset(out0, pos as int, x);
            assert(rest0.to_multiset() =~= rest@.to_multiset().insert(x)) by {
                assert(rest@ == rest0.remove(0));
            }
            if pos < out0.len() {
                T::lemma_precedes_total(&out0[pos as int], &x);
            }
        }
        out.insert(pos, x);
        proof {
            let s = out@;
            assert(s == out0.insert(pos as int, x));
            assert forall|i: int, j: int| 0 <= i < j < s.len() implies s[i].precedes_spec(
                &s[j],
            ) by {
                if j < pos {
                    assert(s[i] == out0[i] && s[j] == out0[j]);
                } else if j == pos {
                    assert(s[i] == out0[i]);
                } else if i == pos {
                    assert(s[j] == out0[j - 1]);
                    if j - 1 > pos {
                        T::lemma_precedes_trans(&x, &out0[pos as int], &out0[j - 1]);
                    }
                } else if i < pos {
                    assert(s[i] == out0[i] && s[j] == out0[j - 1]);
                } else {
                    assert(s[i] == out0[i - 1] && s[j] == out0[j - 1]);
                }
            }
        }
    }
    proof {
        assert(rest@.to_multiset() =~= Multiset::empty());
        assert(v@.take(v@.len() as int) =~= v@);
    }
    out
}

proof fn lemma_insert_pos_bounds<T: Ordered>(out: Seq<T>, x: T)
    ensures
        insert_pos(out, x) <= out.len(),
        forall|k: int| 0 <= k < insert_pos(out, x) ==> out[k].precedes_spec(&x),
        insert_pos(out, x) < out.len() ==> !out[insert_pos(out, x) as int].precedes_spec(&x),
    decreases out.len(),
{
    if out.len() > 0 && out[0].precedes_spec(&x) {
        lemma_insert_pos_bounds(out.drop_first(), x);
        assert forall|k: int| 0 <= k < insert_pos(out, x) implies out[k].precedes_spec(&x) by {
            if k > 0 {
                assert(out[k] == out.drop_first()[k - 1]);
            }
        }
    }
}

proof fn lemma_insert_keeps_sorted<T: Ordered>(out: Seq<T>, x: T)
    requires
        is_sorted(out),
    ensures
        is_sorted(out.insert(insert_pos(out, x) as int, x)),
{
    lemma_insert_pos_bounds(out, x);
    let pos = insert_pos(out, x) as int;
    let s = out.insert(pos, x);
    if pos < out.len() {
        T::lemma_precedes_total(&out[pos], &x);
    }
    assert forall|i: int, j: int| 0 <= i < j < s.len() implies s[i].precedes_spec(&s[j]) by {
        if j < pos {
            assert(s[i] == out[i] && s[j] == out[j]);
        } else if j == pos {
            assert(s[i] == out[i]);
        } else if i == pos {
            assert(s[j] == out[j - 1]);
            if j - 1 > pos {
                T::lemma_precedes_trans(&x, &out[pos], &out[j - 1]);
            }
        } else if i < pos {
            assert(s[i] == out[i] && s[j] == out[j - 1]);
        } else {
            assert(s[i] == out[i - 1] && s[j] == out[j - 1]);
        }
    }
}

/// `sorted_spec` sorts and permutes.
pub proof fn lemma_sorted_spec<T: Ordered>(s: Seq<T>)
    ensures
        is_sorted(sorted_spec(s)),
        sorted_spec(s).to_multiset() == s.to_multiset(),
    decreases s.len(),
{
    if s.len() == 0 {
        assert(sorted_spec(s).to_multiset() =~= s.to_multiset());
    } else {
        let rest = s.drop_last();
        lemma_sorted_spec(rest);
        let out = sorted_spec(rest);
        lemma_insert_pos_bounds(out, s.last());
        lemma_insert_keeps_sorted(out, s.last());
        lemma_insert_multiset(out, insert_pos(out, s.last()) as int, s.last());
        assert(s =~= rest.push(s.last()));
        assert(rest.push(s.last()).to_multiset() =~= rest.to_multiset().insert(s.last()));
    }
}

/// Items that precede each other both ways are the same item.
pub open spec fn ties_are_equal<T: Ordered>(s: Seq<T>) -> bool {
    forall|i: int, j: int|
        0 <= i < s.len() && 0 <= j < s.len() && s[i].precedes_spec(&s[j]) && s[j].precedes_spec(
            &s[i],
        ) ==> s[i] == s[j]
}

/// Two sorted arrangements of the same items, where ties are equal items, are
/// the same sequence.
pub proof fn lemma_sorted_unique<T: Ordered>(a: Seq<T>, b: Seq<T>)
    requires
        is_sorted(a),
        is_sorted(b),
        a.to_multiset() == b.to_multiset(),
        ties_are_equal(a),
    ensures
        a == b,
    decreases a.len(),
{
    a.to_multiset_ensures();
    b.to_multiset_ensures();
    if a.len() == 0 {
        assert(b.len() == 0);
        assert(a =~= b);
    } else {
        assert(b.len() == a.len());
        assert(a.to_multiset().count(b[0]) > 0);
        assert(b.to_multiset().count(a[0]) > 0);
        let i = choose|i: int| 0 <= i < a.len() && a[i] == b[0];
        let j = choose|j: int| 0 <= j < b.len() && b[j] == a[0];
        if i > 0 {
            assert(a[0].precedes_spec(&a[i]));
        } else {
            T::lemma_precedes_total(&a[0], &a[0]);
        }
        if j > 0 {
            assert(b[0].precedes_spec(&b[j]));
        } else {
            T::lemma_precedes_total(&b[0], &b[0]);
        }
        assert(a[0] == a[i]);
        assert(a[0] == b[0]);
        let a1 = a.drop_first();
        let b1 = b.drop_first();
        assert(a1 =~= a.remove(0));
        assert(b1 =~= b.remove(0));
        assert(a1.to_multiset() =~= b1.to_multiset());
        assert forall|x: int, y: int| 0 <= x < y < a1.len() implies a1[x].precedes_spec(&a1[y]) by {
            assert(a1[x] == a[x + 1] && a1[y] == a[y + 1]);
        }
        assert forall|x: int, y: int| 0 <= x < y < b1.len() implies b1[x].precedes_spec(&b1[y]) by {
            assert(b1[x] == b[x + 1] && b1[y] == b[y + 1]);
        }
        assert forall|x: int, y: int|
            0 <= x < a1.len() && 0 <= y < a1.len() && a1[x].precedes_spec(&a1[y])
                && a1[y].precedes_spec(&a1[x]) implies a1[x] == a1[y] by {
            assert(a1[x] == a[x + 1] && a1[y] == a[y + 1]);
        }
        lemma_sorted_unique(a1, b1);
        assert(a =~= seq![a[0]] + a1);
        assert(b =~= seq![b[0]] + b1);
    }
}

} // verus!
