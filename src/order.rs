use vstd::multiset::*;
use vstd::prelude::*;
use vstd::relations::*;
use vstd::seq_lib::*;

use crate::text::{lex_le, name_le};

verus! {

/// A value that is ordered by a name.
pub trait Named {
    spec fn sort_key(&self) -> Seq<char>;

    fn name_str(&self) -> (r: &str)
        ensures
            r@ == self.sort_key(),
    ;
}

impl Named for String {
    open spec fn sort_key(&self) -> Seq<char> {
        self@
    }

    fn name_str(&self) -> (r: &str) {
        self.as_str()
    }
}

/// `x` put into `s` just before the first element whose name it does not follow.
pub open spec fn insert_sorted<T: Named>(x: T, s: Seq<T>) -> Seq<T>
    decreases s.len(),
{
    if s.len() == 0 {
        seq![x]
    } else if lex_le(x.sort_key(), s[0].sort_key()) {
        seq![x] + s
    } else {
        seq![s[0]] + insert_sorted(x, s.drop_first())
    }
}

/// `s` arranged in ascending order of names (see `lex_le`), by insertion.
pub open spec fn sorted_by_name<T: Named>(s: Seq<T>) -> Seq<T>
    decreases s.len(),
{
    if s.len() == 0 {
        s
    } else {
        insert_sorted(s[0], sorted_by_name(s.drop_first()))
    }
}

proof fn lemma_insert_at<T: Named>(x: T, s: Seq<T>, i: int)
    requires
        0 <= i <= s.len(),
        forall|j: int| 0 <= j < i ==> !lex_le(x.sort_key(), #[trigger] s[j].sort_key()),
        i == s.len() || lex_le(x.sort_key(), s[i].sort_key()),
    ensures
        insert_sorted(x, s) == s.insert(i, x),
    decreases s.len(),
{
    if i == 0 {
        if s.len() == 0 {
            assert(seq![x] =~= s.insert(0, x));
        } else {
            assert(seq![x] + s =~= s.insert(0, x));
        }
    } else {
        let rest = s.drop_first();
        assert(forall|j: int| 0 <= j < i - 1 ==> rest[j] == s[j + 1]);
        assert(!lex_le(x.sort_key(), s[0].sort_key()));
        lemma_insert_at(x, rest, i - 1);
        assert(seq![s[0]] + rest.insert(i - 1, x) =~= s.insert(i, x));
    }
}

/// The elements of `v` in ascending order of names.
pub fn sort_by_name<T: Named>(v: Vec<T>) -> (r: Vec<T>)
    ensures
        r@ == sorted_by_name(v@),
{
    let ghost s = v@;
    let n = v.len();
    let mut v = v;
    let mut out: Vec<T> = Vec::new();
    assert(s.subrange(n as int, n as int) =~= Seq::<T>::empty());
    while v.len() > 0
        invariant
            n == s.len(),
            v.len() <= n,
            v@ == s.subrange(0, v.len() as int),
            out@ == sorted_by_name(s.subrange(v.len() as int, n as int)),
        decreases v.len(),
    {
        let x = v.pop().unwrap();
        let ghost k = v.len() as int;
        let ghost tail = s.subrange(k, n as int);
        assert(x == s[k]);
        assert(v@ =~= s.subrange(0, k));
        assert(tail.drop_first() =~= s.subrange(k + 1, n as int));
        assert(tail[0] == x);
        let mut i: usize = 0;
        let mut found = false;
        while i < out.len() && !found
            invariant
                i <= out.len(),
                forall|j: int| 0 <= j < i ==> !lex_le(x.sort_key(), #[trigger] out@[j].sort_key()),
                found ==> i < out.len() && lex_le(x.sort_key(), out@[i as int].sort_key()),
            decreases out.len() - i + (if found { 0int } else { 1int }),
        {
            if name_le(x.name_str(), out[i].name_str()) {
                found = true;
            } else {
                i = i + 1;
            }
        }
        proof {
            lemma_insert_at(x, out@, i as int);
        }
        out.insert(i, x);
    }
    assert(s.subrange(0, n as int) =~= s);
    out
}

/// Orders values by their names (see `lex_le`).
pub open spec fn name_order<T: Named>() -> spec_fn(T, T) -> bool {
    |a: T, b: T| lex_le(a.sort_key(), b.sort_key())
}

proof fn lemma_lex_reflexive(a: Seq<char>)
    ensures
        lex_le(a, a),
    decreases a.len(),
{
    if a.len() > 0 {
        lemma_lex_reflexive(a.drop_first());
    }
}

proof fn lemma_lex_connected(a: Seq<char>, b: Seq<char>)
    ensures
        lex_le(a, b) || lex_le(b, a),
    decreases a.len(),
{
    if a.len() > 0 && b.len() > 0 {
        if a[0] == b[0] {
            lemma_lex_connected(a.drop_first(), b.drop_first());
        } else {
            assert((a[0] as int) != (b[0] as int));
        }
    }
}

proof fn lemma_lex_transitive(a: Seq<char>, b: Seq<char>, c: Seq<char>)
    requires
        lex_le(a, b),
        lex_le(b, c),
    ensures
        lex_le(a, c),
    decreases a.len(),
{
    if a.len() > 0 && b.len() > 0 && c.len() > 0 && a[0] == b[0] && b[0] == c[0] {
        lemma_lex_transitive(a.drop_first(), b.drop_first(), c.drop_first());
    }
}

proof fn lemma_lex_antisymmetric(a: Seq<char>, b: Seq<char>)
    requires
        lex_le(a, b),
        lex_le(b, a),
    ensures
        a == b,
    decreases a.len(),
{
    if a.len() > 0 && b.len() > 0 {
        if a[0] == b[0] {
            lemma_lex_antisymmetric(a.drop_first(), b.drop_first());
            assert(a =~= seq![a[0]] + a.drop_first());
            assert(b =~= seq![b[0]] + b.drop_first());
        }
    } else {
        assert(a =~= b);
    }
}

/// The order on names is a total order.
pub proof fn lex_le_is_total_order()
    ensures
        total_ordering(|a: Seq<char>, b: Seq<char>| lex_le(a, b)),
{
    let leq = |a: Seq<char>, b: Seq<char>| lex_le(a, b);
    assert forall|a: Seq<char>| #[trigger] leq(a, a) by {
        lemma_lex_reflexive(a);
    }
    assert forall|a: Seq<char>, b: Seq<char>| #[trigger] leq(a, b) && #[trigger] leq(b, a) implies a
        == b by {
        lemma_lex_antisymmetric(a, b);
    }
    assert forall|a: Seq<char>, b: Seq<char>, c: Seq<char>| #[trigger]
        leq(a, b) && #[trigger] leq(b, c) implies leq(a, c) by {
        lemma_lex_transitive(a, b, c);
    }
    assert forall|a: Seq<char>, b: Seq<char>| #[trigger] leq(a, b) || #[trigger] leq(b, a) by {
        lemma_lex_connected(a, b);
    }
}

proof fn lemma_insert_sorted<T: Named>(x: T, t: Seq<T>)
    requires
        sorted_by(t, name_order::<T>()),
    ensures
        sorted_by(insert_sorted(x, t), name_order::<T>()),
        insert_sorted(x, t).to_multiset() == t.to_multiset().insert(x),
    decreases t.len(),
{
    broadcast use group_to_multiset_ensures, lemma_multiset_commutative, group_multiset_axioms;

    let leq = name_order::<T>();
    if t.len() == 0 {
        assert(seq![x] =~= t.push(x));
    } else if lex_le(x.sort_key(), t[0].sort_key()) {
        let r = seq![x] + t;
        assert forall|i: int, j: int| 0 <= i < j < r.len() implies #[trigger] leq(r[i], r[j]) by {
            if i == 0 {
                if j > 1 {
                    assert(leq(t[0], t[j - 1]));
                    lemma_lex_transitive(x.sort_key(), t[0].sort_key(), t[j - 1].sort_key());
                }
            } else {
                assert(leq(t[i - 1], t[j - 1]));
            }
        }
        assert(seq![x] =~= Seq::<T>::empty().push(x));
        assert(r.to_multiset() =~= t.to_multiset().insert(x));
    } else {
        let t1 = t.drop_first();
        assert(sorted_by(t1, leq)) by {
            assert forall|i: int, j: int| 0 <= i < j < t1.len() implies #[trigger] leq(
                t1[i],
                t1[j],
            ) by {
                assert(leq(t[i + 1], t[j + 1]));
            }
        }
        lemma_insert_sorted(x, t1);
        let ins = insert_sorted(x, t1);
        let r = seq![t[0]] + ins;
        lemma_lex_connected(x.sort_key(), t[0].sort_key());
        assert forall|k: int| 0 <= k < ins.len() implies #[trigger] leq(t[0], ins[k]) by {
            assert(ins.contains(ins[k]));
            assert(ins.to_multiset().count(ins[k]) > 0);
            if ins[k] != x {
                assert(t1.to_multiset().count(ins[k]) > 0);
                assert(t1.contains(ins[k]));
                let m = choose|m: int| 0 <= m < t1.len() && t1[m] == ins[k];
                assert(leq(t[0], t[m + 1]));
            }
        }
        assert forall|i: int, j: int| 0 <= i < j < r.len() implies #[trigger] leq(r[i], r[j]) by {
            if i == 0 {
                assert(leq(t[0], ins[j - 1]));
            } else {
                assert(leq(ins[i - 1], ins[j - 1]));
            }
        }
        assert(t =~= seq![t[0]] + t1);
        assert(seq![t[0]] =~= Seq::<T>::empty().push(t[0]));
        assert(r.to_multiset() =~= t.to_multiset().insert(x));
    }
}

/// Arranging by name puts the elements in ascending order of name and keeps exactly
/// the same elements.
pub proof fn sorted_by_name_sorts<T: Named>(s: Seq<T>)
    ensures
        sorted_by(sorted_by_name(s), name_order::<T>()),
        sorted_by_name(s).to_multiset() == s.to_multiset(),
    decreases s.len(),
{
    broadcast use group_to_multiset_ensures, lemma_multiset_commutative, group_multiset_axioms;

    if s.len() > 0 {
        sorted_by_name_sorts(s.drop_first());
        lemma_insert_sorted(s[0], sorted_by_name(s.drop_first()));
        assert(s =~= seq![s[0]] + s.drop_first());
        assert(seq![s[0]] =~= Seq::<T>::empty().push(s[0]));
        assert(sorted_by_name(s).to_multiset() =~= s.to_multiset());
    }
}

/// No two elements share a name.
pub open spec fn names_distinct<T: Named>(s: Seq<T>) -> bool {
    forall|i: int, j: int| 0 <= i < j < s.len() ==> s[i].sort_key() != s[j].sort_key()
}

proof fn lemma_sorted_keys_unique<T: Named>(x: Seq<T>, y: Seq<T>)
    requires
        sorted_by(x, name_order::<T>()),
        sorted_by(y, name_order::<T>()),
        x.to_multiset() == y.to_multiset(),
    ensures
        x.len() == y.len(),
        forall|n: int| 0 <= n < x.len() ==> #[trigger] x[n].sort_key() == y[n].sort_key(),
    decreases x.len(),
{
    broadcast use group_to_multiset_ensures, group_multiset_axioms;

    let leq = name_order::<T>();
    assert(x.len() == x.to_multiset().len());
    assert(y.len() == y.to_multiset().len());
    if x.len() > 0 {
        assert(x.contains(x[0]));
        assert(y.to_multiset().count(x[0]) > 0);
        assert(y.contains(x[0]));
        let i = choose|i: int| 0 <= i < y.len() && y[i] == x[0];
        assert(y.contains(y[0]));
        assert(x.to_multiset().count(y[0]) > 0);
        assert(x.contains(y[0]));
        let j = choose|j: int| 0 <= j < x.len() && x[j] == y[0];
        let k = x[0].sort_key();
        if i > 0 {
            assert(leq(y[0], y[i]));
        } else {
            lemma_lex_reflexive(k);
        }
        if j > 0 {
            assert(leq(x[0], x[j]));
        } else {
            lemma_lex_reflexive(k);
        }
        lemma_lex_antisymmetric(k, y[0].sort_key());
        assert forall|m: int| 0 <= m <= i implies #[trigger] y[m].sort_key() == k by {
            if 0 < m {
                assert(leq(y[0], y[m]));
            } else {
                lemma_lex_reflexive(k);
            }
            if m < i {
                assert(leq(y[m], y[i]));
            } else {
                lemma_lex_reflexive(k);
            }
            lemma_lex_antisymmetric(k, y[m].sort_key());
        }
        let x1 = x.drop_first();
        let y1 = y.remove(i);
        assert(sorted_by(x1, leq)) by {
            assert forall|a: int, b: int| 0 <= a < b < x1.len() implies #[trigger] leq(
                x1[a],
                x1[b],
            ) by {
                assert(leq(x[a + 1], x[b + 1]));
            }
        }
        assert(sorted_by(y1, leq)) by {
            assert forall|a: int, b: int| 0 <= a < b < y1.len() implies #[trigger] leq(
                y1[a],
                y1[b],
            ) by {
                let a2 = if a < i {
                    a
                } else {
                    a + 1
                };
                let b2 = if b < i {
                    b
                } else {
                    b + 1
                };
                assert(y1[a] == y[a2] && y1[b] == y[b2]);
                assert(leq(y[a2], y[b2]));
            }
        }
        assert(x.remove(0) =~= x1);
        assert(x1.to_multiset() == x.to_multiset().remove(x[0]));
        assert(y1.to_multiset() == y.to_multiset().remove(y[i]));
        lemma_sorted_keys_unique(x1, y1);
        assert forall|n: int| 0 <= n < x.len() implies #[trigger] x[n].sort_key()
            == y[n].sort_key() by {
            if n > 0 {
                assert(x[n] == x1[n - 1]);
                assert(x1[n - 1].sort_key() == y1[n - 1].sort_key());
                if n - 1 < i {
                    assert(y1[n - 1] == y[n - 1]);
                    assert(y[n - 1].sort_key() == k);
                    assert(y[n].sort_key() == k);
                } else {
                    assert(y1[n - 1] == y[n]);
                }
            }
        }
    } else {
        assert(y.len() == 0);
    }
}

/// Whatever order the elements come in, arranging them by name gives the same
/// sequence of names.
pub proof fn sorted_names_ignore_listing_order<T: Named>(s1: Seq<T>, s2: Seq<T>)
    requires
        s1.to_multiset() == s2.to_multiset(),
    ensures
        sorted_by_name(s1).len() == sorted_by_name(s2).len(),
        forall|n: int|
            0 <= n < sorted_by_name(s1).len() ==> #[trigger] sorted_by_name(s1)[n].sort_key()
                == sorted_by_name(s2)[n].sort_key(),
{
    sorted_by_name_sorts(s1);
    sorted_by_name_sorts(s2);
    lemma_sorted_keys_unique(sorted_by_name(s1), sorted_by_name(s2));
}

/// Elements with distinct names come out of the arrangement by name in the same
/// order, whatever order they went in.
pub proof fn sorted_by_name_ignores_listing_order<T: Named>(s1: Seq<T>, s2: Seq<T>)
    requires
        s1.to_multiset() == s2.to_multiset(),
        names_distinct(s1),
    ensures
        sorted_by_name(s1) == sorted_by_name(s2),
{
    broadcast use group_to_multiset_ensures, group_multiset_axioms;

    let x = sorted_by_name(s1);
    let y = sorted_by_name(s2);
    sorted_names_ignore_listing_order(s1, s2);
    sorted_by_name_sorts(s1);
    sorted_by_name_sorts(s2);
    assert(s1.no_duplicates()) by {
        assert forall|i: int, j: int| 0 <= i < s1.len() && 0 <= j < s1.len() && i != j implies s1[i]
            != s1[j] by {
            if i < j {
                assert(s1[i].sort_key() != s1[j].sort_key());
            } else {
                assert(s1[j].sort_key() != s1[i].sort_key());
            }
        }
    }
    s1.lemma_multiset_has_no_duplicates();
    y.lemma_multiset_has_no_duplicates_conv();
    assert forall|n: int| 0 <= n < x.len() implies x[n] == y[n] by {
        assert(x.contains(x[n]));
        assert(y.to_multiset().count(x[n]) > 0);
        assert(y.contains(x[n]));
        let m = choose|m: int| 0 <= m < y.len() && y[m] == x[n];
        if m != n {
            assert(y[m] != y[n]);
            assert(s1.to_multiset().count(y[m]) > 0);
            assert(s1.to_multiset().count(y[n]) > 0);
            assert(s1.contains(y[m]));
            assert(s1.contains(y[n]));
            let p = choose|p: int| 0 <= p < s1.len() && s1[p] == y[m];
            let q = choose|q: int| 0 <= q < s1.len() && s1[q] == y[n];
            assert(x[n].sort_key() == y[n].sort_key());
            if p < q {
                assert(s1[p].sort_key() != s1[q].sort_key());
            } else {
                assert(s1[q].sort_key() != s1[p].sort_key());
            }
        }
    }
    assert(x =~= y);
}

} // verus!
