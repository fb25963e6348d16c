//! The order of strings (that of `Ord for str`) and sorted, duplicate-free
//! string sequences built on it.
use vstd::prelude::*;
use crate::text::{chars_of, views};

verus! {

/// `a` comes strictly before `b`: lexicographic order over code points, which
/// is the byte order of their UTF-8 encodings that `Ord for str` uses.
pub open spec fn str_lt(a: Seq<char>, b: Seq<char>) -> bool
    decreases a.len(),
{
    if a.len() == 0 {
        b.len() > 0
    } else if b.len() == 0 {
        false
    } else if a[0] != b[0] {
        (a[0] as int) < (b[0] as int)
    } else {
        str_lt(a.drop_first(), b.drop_first())
    }
}

/// No string comes before itself.
pub proof fn lemma_str_lt_irreflexive(a: Seq<char>)
    ensures
        !str_lt(a, a),
    decreases a.len(),
{
    if a.len() > 0 {
        lemma_str_lt_irreflexive(a.drop_first());
    }
}

/// The order is transitive.
pub proof fn lemma_str_lt_transitive(a: Seq<char>, b: Seq<char>, c: Seq<char>)
    requires
        str_lt(a, b),
        str_lt(b, c),
    ensures
        str_lt(a, c),
    decreases a.len(),
{
    if a.len() > 0 && b.len() > 0 && c.len() > 0 && a[0] == b[0] && b[0] == c[0] {
        lemma_str_lt_transitive(a.drop_first(), b.drop_first(), c.drop_first());
    }
}

/// Two distinct strings are ordered one way or the other, and not both.
pub proof fn lemma_str_lt_total(a: Seq<char>, b: Seq<char>)
    ensures
        a != b ==> (str_lt(a, b) || str_lt(b, a)),
        !(str_lt(a, b) && str_lt(b, a)),
    decreases a.len(),
{
    if a.len() > 0 && b.len() > 0 {
        if a[0] == b[0] {
            lemma_str_lt_total(a.drop_first(), b.drop_first());
            if a.drop_first() == b.drop_first() {
                assert forall|k: int| 0 <= k < a.len() implies a[k] == b[k] by {
                    if k > 0 {
                        assert(a[k] == a.drop_first()[k - 1]);
                        assert(b[k] == b.drop_first()[k - 1]);
                    }
                }
                assert(a =~= b);
            }
        }
    } else if a.len() == 0 && b.len() == 0 {
        assert(a =~= b);
    }
}

/// Whether `a` comes strictly before `b`.
pub fn str_less(a: &str, b: &str) -> (r: bool)
    ensures
        r == str_lt(a@, b@),
{
    let x = chars_of(a);
    let y = chars_of(b);
    let mut i: usize = 0;
    assert(a@.skip(0) =~= a@);
    assert(b@.skip(0) =~= b@);
    while i < x.len() && i < y.len()
        invariant
            x@ == a@,
            y@ == b@,
            i <= x.len(),
            i <= y.len(),
            str_lt(a@, b@) == str_lt(a@.skip(i as int), b@.skip(i as int)),
        decreases x.len() - i,
    {
        if x[i] != y[i] {
            return x[i] < y[i];
        }
        assert(a@.skip(i as int).drop_first() =~= a@.skip(i + 1));
        assert(b@.skip(i as int).drop_first() =~= b@.skip(i + 1));
        i = i + 1;
    }
    i < y.len()
}

/// `s` is in strictly increasing order (so it holds no string twice).
pub open spec fn strictly_sorted(s: Seq<Seq<char>>) -> bool {
    forall|i: int, j: int| 0 <= i < j < s.len() ==> str_lt(#[trigger] s[i], #[trigger] s[j])
}

/// Adds `s` to the strictly sorted `v` at its place, unless `v` holds it already
/// (what `BTreeSet::insert` does to the set's contents).
pub fn insert_sorted(v: &mut Vec<String>, s: String)
    requires
        strictly_sorted(views(old(v)@)),
    ensures
        strictly_sorted(views(final(v)@)),
        views(final(v)@).to_set() == views(old(v)@).to_set().insert(s@),
        views(old(v)@).contains(s@) ==> final(v)@ == old(v)@,
{
    let ghost old_v = views(v@);
    let mut p: usize = 0;
    while p < v.len() && str_less(v[p].as_str(), s.as_str())
        invariant
            p <= v.len(),
            views(v@) == old_v,
            strictly_sorted(old_v),
            forall|k: int| 0 <= k < p ==> str_lt(#[trigger] old_v[k], s@),
        decreases v.len() - p,
    {
        p = p + 1;
    }
    if p < v.len() && crate::text::str_eq(v[p].as_str(), s.as_str()) {
        assert(views(v@)[p as int] == s@);
        assert(views(v@).to_set() =~= old_v.to_set().insert(s@)) by {
            assert(old_v.contains(s@));
        }
        return;
    }
    proof {
        if p < v.len() {
            assert(old_v[p as int] == v@[p as int]@);
            lemma_str_lt_total(old_v[p as int], s@);
            assert forall|k: int| p <= k < old_v.len() implies str_lt(s@, #[trigger] old_v[k]) by {
                if k > p {
                    lemma_str_lt_transitive(s@, old_v[p as int], old_v[k]);
                }
            }
        }
        assert forall|k: int| 0 <= k < old_v.len() implies old_v[k] != s@ by {
            lemma_str_lt_irreflexive(s@);
        }
    }
    v.insert(p, s);
    proof {
        let nv = views(v@);
        assert(nv =~= old_v.insert(p as int, s@));
        assert forall|i: int, j: int| 0 <= i < j < nv.len() implies str_lt(#[trigger] nv[i], #[trigger] nv[j]) by {
            if j < p {
            } else if j == p {
            } else if i < p {
                lemma_str_lt_transitive(nv[i], s@, nv[j]);
            } else if i == p {
            } else {
            }
        }
        assert(nv.to_set() =~= old_v.to_set().insert(s@)) by {
            assert forall|x: Seq<char>| nv.to_set().contains(x) implies old_v.to_set().insert(s@).contains(x) by {
                let k = choose|k: int| 0 <= k < nv.len() && nv[k] == x;
                if k < p {
                    assert(old_v[k] == x);
                } else if k > p {
                    assert(old_v[k - 1] == x);
                }
            }
            assert forall|x: Seq<char>| old_v.to_set().insert(s@).contains(x) implies nv.to_set().contains(x) by {
                if x == s@ {
                    assert(nv[p as int] == x);
                } else {
                    let k = choose|k: int| 0 <= k < old_v.len() && old_v[k] == x;
                    if k < p {
                        assert(nv[k] == x);
                    } else {
                        assert(nv[k + 1] == x);
                    }
                }
            }
        }
    }
}


/// `s` is in non-decreasing order.
pub open spec fn non_decreasing(s: Seq<Seq<char>>) -> bool {
    forall|i: int, j: int| 0 <= i < j < s.len() ==> !str_lt(#[trigger] s[j], #[trigger] s[i])
}

/// `v` in non-decreasing order: the same strings, each as often (what
/// `sort` on a `Vec<String>` gives).
pub fn sort_strings(v: &Vec<String>) -> (r: Vec<String>)
    ensures
        non_decreasing(views(r@)),
        r@.to_multiset() == v@.to_multiset(),
        views(r@).to_multiset() == views(v@).to_multiset(),
{
    broadcast use vstd::seq_lib::group_to_multiset_ensures;

    let mut r: Vec<String> = Vec::new();
    let mut i: usize = 0;
    while i < v.len()
        invariant
            i <= v.len(),
            non_decreasing(views(r@)),
            r@.to_multiset() == v@.take(i as int).to_multiset(),
            views(r@).to_multiset() == views(v@.take(i as int)).to_multiset(),
        decreases v.len() - i,
    {
        let x = v[i].clone();
        let ghost old_r = r@;
        let mut p: usize = 0;
        while p < r.len() && !str_less(x.as_str(), r[p].as_str())
            invariant
                p <= r.len(),
                r@ == old_r,
                forall|k: int| 0 <= k < p ==> !str_lt(x@, #[trigger] views(old_r)[k]),
            decreases r.len() - p,
        {
            p = p + 1;
        }
        r.insert(p, x);
        proof {
            let ov = views(old_r);
            let nv = views(r@);
            assert(r@ == old_r.insert(p as int, x));
            assert(nv =~= ov.insert(p as int, x@));
            if p < ov.len() {
                assert(str_lt(x@, ov[p as int]));
            }
            assert forall|a: int, b: int| 0 <= a < b < nv.len() implies !str_lt(#[trigger] nv[b], #[trigger] nv[a]) by {
                if b < p {
                } else if b == p {
                } else if a < p {
                    assert(nv[b] == ov[b - 1]);
                    assert(nv[a] == ov[a]);
                    if str_lt(nv[b], nv[a]) {
                        lemma_str_lt_total(ov[p as int], ov[b - 1]);
                        if b - 1 > p {
                            lemma_str_lt_total(ov[b - 1], ov[p as int]);
                        }
                        if ov[p as int] == ov[b - 1] {
                            lemma_str_lt_transitive(x@, ov[p as int], ov[a]);
                        } else {
                            lemma_str_lt_transitive(x@, ov[p as int], ov[b - 1]);
                            lemma_str_lt_transitive(x@, ov[b - 1], ov[a]);
                        }
                        lemma_str_lt_total(x@, ov[a]);
                    }
                } else if a == p {
                    assert(nv[b] == ov[b - 1]);
                    if b - 1 > p {
                        lemma_str_lt_total(ov[p as int], ov[b - 1]);
                        if ov[p as int] != ov[b - 1] {
                            lemma_str_lt_transitive(x@, ov[p as int], ov[b - 1]);
                        }
                    }
                    lemma_str_lt_total(x@, ov[b - 1]);
                } else {
                    assert(nv[b] == ov[b - 1]);
                    assert(nv[a] == ov[a - 1]);
                }
            }
            assert(r@.remove(p as int) =~= old_r);
            assert(r@[p as int] == x);
            assert(v@.take(i + 1) =~= v@.take(i as int).push(v@[i as int]));
            let m = r@.to_multiset();
            r@.to_multiset_ensures();
            v@.take(i as int).to_multiset_ensures();
            assert(r@.remove(p as int).to_multiset() =~= m.remove(r@[p as int]));
            assert(r@.contains(x));
            assert(m.count(x) > 0);
            assert(m =~= m.remove(x).insert(x));
            assert(r@.to_multiset() =~= old_r.to_multiset().insert(x));
            assert(x == v@[i as int]);
            let vm = nv.to_multiset();
            nv.to_multiset_ensures();
            views(v@.take(i as int)).to_multiset_ensures();
            assert(nv.remove(p as int) =~= ov);
            assert(nv.remove(p as int).to_multiset() =~= vm.remove(nv[p as int]));
            assert(nv.contains(x@));
            assert(vm.count(x@) > 0);
            assert(vm =~= vm.remove(x@).insert(x@));
            assert(views(v@.take(i + 1)) =~= views(v@.take(i as int)).push(x@));
        }
        i = i + 1;
    }
    assert(v@.take(v.len() as int) =~= v@);
    r
}


/// Two sequences in non-decreasing order that hold the same strings, each as
/// often, are equal: sorting gives one result only.
pub proof fn lemma_sorted_permutation_unique(x: Seq<Seq<char>>, y: Seq<Seq<char>>)
    requires
        non_decreasing(x),
        non_decreasing(y),
        x.to_multiset() == y.to_multiset(),
    ensures
        x == y,
    decreases x.len(),
{
    x.to_multiset_ensures();
    y.to_multiset_ensures();
    if x.len() == 0 {
        assert(y.len() == 0);
        assert(x =~= y);
    } else {
        assert(y.len() == x.len());
        assert(x.contains(x[0]));
        assert(x.to_multiset().count(x[0]) > 0);
        assert(y.to_multiset().count(x[0]) > 0);
        assert(y.contains(x[0]));
        let j = choose|j: int| 0 <= j < y.len() && y[j] == x[0];
        assert(y.contains(y[0]));
        assert(y.to_multiset().count(y[0]) > 0);
        assert(x.to_multiset().count(y[0]) > 0);
        assert(x.contains(y[0]));
        let k = choose|k: int| 0 <= k < x.len() && x[k] == y[0];
        if j > 0 {
            assert(!str_lt(y[j], y[0]));
        }
        if k > 0 {
            assert(!str_lt(x[k], x[0]));
        }
        lemma_str_lt_total(x[0], y[0]);
        assert(x[0] == y[0]);
        let xt = x.drop_first();
        let yt = y.drop_first();
        assert(x.remove(0) =~= xt);
        assert(y.remove(0) =~= yt);
        assert(xt.to_multiset() =~= yt.to_multiset());
        assert(non_decreasing(xt)) by {
            assert forall|a: int, b: int| 0 <= a < b < xt.len() implies !str_lt(#[trigger] xt[b], #[trigger] xt[a]) by {
                assert(xt[a] == x[a + 1] && xt[b] == x[b + 1]);
            }
        }
        assert(non_decreasing(yt)) by {
            assert forall|a: int, b: int| 0 <= a < b < yt.len() implies !str_lt(#[trigger] yt[b], #[trigger] yt[a]) by {
                assert(yt[a] == y[a + 1] && yt[b] == y[b + 1]);
            }
        }
        lemma_sorted_permutation_unique(xt, yt);
        assert forall|a: int| 0 <= a < x.len() implies x[a] == y[a] by {
            if a > 0 {
                assert(x[a] == xt[a - 1] && y[a] == yt[a - 1]);
            }
        }
        assert(x =~= y);
    }
}

} // verus!
