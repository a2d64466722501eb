//! Orderings and sorted, duplicate-free collections: the lexicographic
//! order of strings (the order of `str`'s `Ord`) and insertion into
//! strictly increasing vectors.

use vstd::prelude::*;
use crate::text::{chars_eq, views};

verus! {

/// `a` comes strictly before `b` in the lexicographic order of their
/// characters' code points (the order of `str`'s `Ord`).
pub open spec fn lex_lt(a: Seq<char>, b: Seq<char>) -> bool
    decreases a.len(),
{
    if a.len() == 0 {
        b.len() > 0
    } else if b.len() == 0 {
        false
    } else if a[0] != b[0] {
        a[0] < b[0]
    } else {
        lex_lt(a.drop_first(), b.drop_first())
    }
}

/// No string comes before itself.
pub proof fn lemma_lex_irreflexive(a: Seq<char>)
    ensures
        !lex_lt(a, a),
    decreases a.len(),
{
    if a.len() > 0 {
        lemma_lex_irreflexive(a.drop_first());
    }
}

/// The order is transitive.
pub proof fn lemma_lex_transitive(a: Seq<char>, b: Seq<char>, c: Seq<char>)
    requires
        lex_lt(a, b),
        lex_lt(b, c),
    ensures
        lex_lt(a, c),
    decreases a.len(),
{
    if a.len() > 0 && b.len() > 0 && c.len() > 0 && a[0] == b[0] && b[0] == c[0] {
        lemma_lex_transitive(a.drop_first(), b.drop_first(), c.drop_first());
    }
}

/// Distinct strings are ordered one way or the other.
pub proof fn lemma_lex_total(a: Seq<char>, b: Seq<char>)
    requires
        a != b,
    ensures
        lex_lt(a, b) || lex_lt(b, a),
    decreases a.len(),
{
    if a.len() > 0 && b.len() > 0 && a[0] == b[0] {
        if a.drop_first() == b.drop_first() {
            assert(a =~= seq![a[0]] + a.drop_first());
            assert(b =~= seq![b[0]] + b.drop_first());
        }
        lemma_lex_total(a.drop_first(), b.drop_first());
    } else if a.len() > 0 && b.len() > 0 && a[0] != b[0] {
    } else if a.len() == 0 && b.len() == 0 {
        assert(a =~= b);
    }
}

/// The order is asymmetric.
pub proof fn lemma_lex_asymmetric(a: Seq<char>, b: Seq<char>)
    requires
        lex_lt(a, b),
    ensures
        !lex_lt(b, a),
{
    if lex_lt(b, a) {
        lemma_lex_transitive(a, b, a);
        lemma_lex_irreflexive(a);
    }
}

/// Compares two strings.
pub fn chars_lt(a: &Vec<char>, b: &Vec<char>) -> (r: bool)
    ensures
        r == lex_lt(a@, b@),
{
    let mut i: usize = 0;
    assert(a@.skip(0) =~= a@);
    assert(b@.skip(0) =~= b@);
    while i < a.len() && i < b.len() && a[i] == b[i]
        invariant
            i <= a.len(),
            i <= b.len(),
            lex_lt(a@, b@) == lex_lt(a@.skip(i as int), b@.skip(i as int)),
        decreases a.len() - i,
    {
        assert(a@.skip(i as int).drop_first() =~= a@.skip(i + 1));
        assert(b@.skip(i as int).drop_first() =~= b@.skip(i + 1));
        i += 1;
    }
    if i == a.len() {
        i < b.len()
    } else if i == b.len() {
        false
    } else {
        assert(a@.skip(i as int)[0] == a@[i as int]);
        assert(b@.skip(i as int)[0] == b@[i as int]);
        a[i] < b[i]
    }
}

/// Strictly increasing in the lexicographic order: sorted, no duplicates.
pub open spec fn strictly_sorted(s: Seq<Seq<char>>) -> bool {
    forall|i: int, j: int| 0 <= i < j < s.len() ==> lex_lt(s[i], s[j])
}

/// Inserts `x` into a strictly increasing vector, unless it is there.
pub fn insert_sorted(v: &mut Vec<Vec<char>>, x: Vec<char>)
    requires
        strictly_sorted(views(old(v)@)),
    ensures
        strictly_sorted(views(final(v)@)),
        views(final(v)@).to_set() == views(old(v)@).to_set().insert(x@),
{
    let ghost s = views(v@);
    let mut i: usize = 0;
    while i < v.len() && chars_lt(&v[i], &x)
        invariant
            i <= v.len(),
            views(v@) == s,
            forall|j: int| 0 <= j < i ==> lex_lt(#[trigger] s[j], x@),
        decreases v.len() - i,
    {
        i += 1;
    }
    if i < v.len() && chars_eq(&v[i], &x) {
        assert(s.to_set().insert(x@) =~= s.to_set()) by {
            assert(s[i as int] == x@);
        }
        return;
    }
    proof {
        if i < v.len() {
            assert(s[i as int] != x@);
            lemma_lex_total(s[i as int], x@);
        }
    }
    v.insert(i, x);
    proof {
        let t = views(v@);
        assert(t =~= s.insert(i as int, x@));
        assert forall|a: int, b: int| 0 <= a < b < t.len() implies lex_lt(t[a], t[b]) by {
            if b < i {
            } else if a < i && b == i {
            } else if a < i {
                assert(t[b] == s[b - 1]);
                if a < b - 1 {
                } 
            } else if a == i {
                assert(t[b] == s[b - 1]);
                if b - 1 > i {
                    lemma_lex_transitive(x@, s[i as int], s[b - 1]);
                }
            } else {
                assert(t[a] == s[a - 1]);
                assert(t[b] == s[b - 1]);
            }
        }
        assert(t.to_set() =~= s.to_set().insert(x@)) by {
            assert forall|e: Seq<char>| t.to_set().contains(e) implies s.to_set().insert(x@).contains(e) by {
                let k = choose|k: int| 0 <= k < t.len() && t[k] == e;
                if k < i {
                    assert(s[k] == e);
                } else if k > i {
                    assert(s[k - 1] == e);
                }
            }
            assert forall|e: Seq<char>| s.to_set().insert(x@).contains(e) implies t.to_set().contains(e) by {
                if e == x@ {
                    assert(t[i as int] == e);
                } else {
                    let k = choose|k: int| 0 <= k < s.len() && s[k] == e;
                    if k < i {
                        assert(t[k] == e);
                    } else {
                        assert(t[k + 1] == e);
                    }
                }
            }
        }
    }
}

/// Strictly increasing numbers: sorted, no duplicates.
pub open spec fn strictly_increasing(s: Seq<u32>) -> bool {
    forall|i: int, j: int| 0 <= i < j < s.len() ==> s[i] < s[j]
}

/// Inserts `x` into a strictly increasing vector, unless it is there.
pub fn insert_sorted_u32(v: &mut Vec<u32>, x: u32)
    requires
        strictly_increasing(old(v)@),
    ensures
        strictly_increasing(final(v)@),
        final(v)@.to_set() == old(v)@.to_set().insert(x),
{
    let ghost s = v@;
    let mut i: usize = 0;
    while i < v.len() && v[i] < x
        invariant
            i <= v.len(),
            v@ == s,
            forall|j: int| 0 <= j < i ==> #[trigger] s[j] < x,
        decreases v.len() - i,
    {
        i += 1;
    }
    if i < v.len() && v[i] == x {
        assert(s.to_set().insert(x) =~= s.to_set()) by {
            assert(s[i as int] == x);
        }
        return;
    }
    v.insert(i, x);
    proof {
        let t = v@;
        assert(t =~= s.insert(i as int, x));
        assert forall|a: int, b: int| 0 <= a < b < t.len() implies t[a] < t[b] by {
            if a >= i && b > i {
                assert(t[b] == s[b - 1]);
            }
            if a > i {
                assert(t[a] == s[a - 1]);
            }
        }
        assert(t.to_set() =~= s.to_set().insert(x)) by {
            assert forall|e: u32| t.to_set().contains(e) implies s.to_set().insert(x).contains(e) by {
                let k = choose|k: int| 0 <= k < t.len() && t[k] == e;
                if k < i {
                    assert(s[k] == e);
                } else if k > i {
                    assert(s[k - 1] == e);
                }
            }
            assert forall|e: u32| s.to_set().insert(x).contains(e) implies t.to_set().contains(e) by {
                if e == x {
                    assert(t[i as int] == e);
                } else {
                    let k = choose|k: int| 0 <= k < s.len() && s[k] == e;
                    if k < i {
                        assert(t[k] == e);
                    } else {
                        assert(t[k + 1] == e);
                    }
                }
            }
        }
    }
}

/// Items ordered by a text key.
pub trait Keyed {
    /// The key of the item.
    spec fn key_view(&self) -> Seq<char>;

    /// The key of the item.
    fn key_chars(&self) -> (r: Vec<char>)
        ensures
            r@ == self.key_view();
}

/// `x` inserted after every item whose key does not come after its key.
pub open spec fn insert_keyed<T: Keyed>(s: Seq<T>, x: T) -> Seq<T>
    decreases s.len(),
{
    if s.len() == 0 {
        seq![x]
    } else if lex_lt(x.key_view(), s[0].key_view()) {
        seq![x] + s
    } else {
        seq![s[0]] + insert_keyed(s.drop_first(), x)
    }
}

/// The items sorted by key, items with equal keys in their order (a stable
/// sort).
pub open spec fn sort_keyed<T: Keyed>(s: Seq<T>) -> Seq<T>
    decreases s.len(),
{
    if s.len() == 0 {
        s
    } else {
        insert_keyed(sort_keyed(s.drop_last()), s.last())
    }
}

proof fn lemma_insert_keyed_at<T: Keyed>(s: Seq<T>, x: T, j: int)
    requires
        0 <= j <= s.len(),
        forall|k: int| 0 <= k < j ==> !lex_lt(x.key_view(), (#[trigger] s[k]).key_view()),
        j == s.len() || lex_lt(x.key_view(), s[j].key_view()),
    ensures
        insert_keyed(s, x) == s.insert(j, x),
    decreases s.len(),
{
    if s.len() == 0 {
        assert(s.insert(j, x) =~= seq![x]);
    } else if j == 0 {
        assert(s.insert(0, x) =~= seq![x] + s);
    } else {
        let t = s.drop_first();
        assert forall|k: int| 0 <= k < j - 1 implies !lex_lt(x.key_view(), (#[trigger] t[k]).key_view()) by {
            assert(t[k] == s[k + 1]);
        }
        if j < s.len() {
            assert(t[j - 1] == s[j]);
        }
        assert(!lex_lt(x.key_view(), s[0].key_view()));
        lemma_insert_keyed_at(t, x, j - 1);
        assert(seq![s[0]] + t.insert(j - 1, x) =~= s.insert(j, x));
    }
}

/// Sorts items by key, stably.
pub fn stable_sort_by_key<T: Keyed>(items: Vec<T>) -> (r: Vec<T>)
    ensures
        r@ == sort_keyed(items@),
{
    let ghost all = items@;
    let mut src = items;
    let mut rev: Vec<T> = Vec::new();
    let n0 = src.len();
    assert(all.len() == n0);
    while src.len() > 0
        invariant
            src@.len() + rev@.len() == all.len(),
            all.len() <= usize::MAX,
            src@ == all.take(src@.len() as int),
            forall|i: int| 0 <= i < rev@.len() ==> #[trigger] rev@[i] == all[all.len() - 1 - i],
        decreases src.len(),
    {
        let t = src.pop().unwrap();
        assert(t == all[all.len() - 1 - rev@.len()]);
        rev.push(t);
        assert(src@ =~= all.take(src@.len() as int));
    }
    let mut out: Vec<T> = Vec::new();
    let mut keys: Vec<Vec<char>> = Vec::new();
    let mut k: usize = 0;
    assert(all.take(0) =~= Seq::<T>::empty());
    while rev.len() > 0
        invariant
            k + rev@.len() == all.len(),
            all.len() <= usize::MAX,
            forall|i: int| 0 <= i < rev@.len() ==> #[trigger] rev@[i] == all[all.len() - 1 - i],
            out@ == sort_keyed(all.take(k as int)),
            keys@.len() == out@.len(),
            forall|j: int| 0 <= j < keys@.len() ==> (#[trigger] keys@[j])@ == out@[j].key_view(),
        decreases rev.len(),
    {
        let t = rev.pop().unwrap();
        assert(t == all[k as int]);
        let key = t.key_chars();
        let mut j: usize = 0;
        while j < keys.len() && !chars_lt(&key, &keys[j])
            invariant
                j <= keys.len(),
                keys@.len() == out@.len(),
                forall|q: int| 0 <= q < keys@.len() ==> (#[trigger] keys@[q])@ == out@[q].key_view(),
                key@ == t.key_view(),
                forall|q: int| 0 <= q < j ==> !lex_lt(t.key_view(), (#[trigger] out@[q]).key_view()),
            decreases keys.len() - j,
        {
            j += 1;
        }
        proof {
            lemma_insert_keyed_at(out@, t, j as int);
            assert(all.take(k + 1).drop_last() =~= all.take(k as int));
            assert(all.take(k + 1).last() == t);
        }
        let ghost old_keys = keys@;
        let ghost old_out = out@;
        out.insert(j, t);
        keys.insert(j, key);
        proof {
            assert forall|q: int| 0 <= q < keys@.len() implies (#[trigger] keys@[q])@ == out@[q].key_view() by {
                if q < j {
                    assert(keys@[q] == old_keys[q]);
                    assert(out@[q] == old_out[q]);
                } else if q > j {
                    assert(keys@[q] == old_keys[q - 1]);
                    assert(out@[q] == old_out[q - 1]);
                }
            }
        }
        k += 1;
    }
    assert(all.take(k as int) =~= all);
    out
}

/// Items in order of their keys (items with equal keys in any order).
pub open spec fn sorted_by_key<T: Keyed>(s: Seq<T>) -> bool {
    forall|i: int, j: int| 0 <= i < j < s.len() ==> !lex_lt(s[j].key_view(), s[i].key_view())
}

proof fn lemma_insert_keyed_props<T: Keyed>(s: Seq<T>, x: T)
    requires
        sorted_by_key(s),
    ensures
        insert_keyed(s, x).to_multiset() == s.to_multiset().insert(x),
        sorted_by_key(insert_keyed(s, x)),
    decreases s.len(),
{
    broadcast use vstd::seq_lib::group_to_multiset_ensures, vstd::multiset::group_multiset_axioms;

    if s.len() == 0 {
        assert(seq![x] =~= Seq::<T>::empty().push(x));
        assert(s.to_multiset() =~= vstd::multiset::Multiset::empty());
    } else if lex_lt(x.key_view(), s[0].key_view()) {
        let r = seq![x] + s;
        vstd::seq_lib::lemma_multiset_commutative(seq![x], s);
        assert(seq![x] =~= Seq::<T>::empty().push(x));
        assert(Seq::<T>::empty().to_multiset() =~= vstd::multiset::Multiset::empty());
        assert(r.to_multiset() =~= s.to_multiset().insert(x));
        assert forall|i: int, j: int| 0 <= i < j < r.len() implies !lex_lt(r[j].key_view(), r[i].key_view()) by {
            if i == 0 {
                assert(r[j] == s[j - 1]);
                if lex_lt(s[j - 1].key_view(), x.key_view()) {
                    lemma_lex_transitive(s[j - 1].key_view(), x.key_view(), s[0].key_view());
                    if j - 1 == 0 {
                        lemma_lex_irreflexive(s[0].key_view());
                    }
                }
            } else {
                assert(r[i] == s[i - 1]);
                assert(r[j] == s[j - 1]);
            }
        }
    } else {
        let t = s.drop_first();
        assert forall|i: int, j: int| 0 <= i < j < t.len() implies !lex_lt(t[j].key_view(), t[i].key_view()) by {
            assert(t[i] == s[i + 1]);
            assert(t[j] == s[j + 1]);
        }
        lemma_insert_keyed_props(t, x);
        let it = insert_keyed(t, x);
        let r = seq![s[0]] + it;
        vstd::seq_lib::lemma_multiset_commutative(seq![s[0]], it);
        vstd::seq_lib::lemma_multiset_commutative(seq![s[0]], t);
        assert(seq![s[0]] + t =~= s);
        assert(r.to_multiset() =~= s.to_multiset().insert(x));
        assert forall|i: int, j: int| 0 <= i < j < r.len() implies !lex_lt(r[j].key_view(), r[i].key_view()) by {
            if i == 0 {
                assert(r[j] == it[j - 1]);
                let e = it[j - 1];
                assert(it.contains(e));
                assert(it.to_multiset().count(e) > 0);
                if e != x {
                    assert(t.to_multiset().count(e) > 0);
                    assert(t.contains(e));
                    let k = choose|k: int| 0 <= k < t.len() && t[k] == e;
                    assert(s[k + 1] == e);
                }
            } else {
                assert(r[i] == it[i - 1]);
                assert(r[j] == it[j - 1]);
            }
        }
    }
}

/// A stable sort by key keeps every item and orders the items by key.
pub proof fn law_sort_keyed<T: Keyed>(s: Seq<T>)
    ensures
        sort_keyed(s).to_multiset() == s.to_multiset(),
        sorted_by_key(sort_keyed(s)),
    decreases s.len(),
{
    broadcast use vstd::seq_lib::group_to_multiset_ensures;

    if s.len() > 0 {
        law_sort_keyed(s.drop_last());
        lemma_insert_keyed_props(sort_keyed(s.drop_last()), s.last());
        assert(s.drop_last().push(s.last()) =~= s);
    } else {
        assert(s.to_multiset() =~= vstd::multiset::Multiset::empty());
    }
}

} // verus!
