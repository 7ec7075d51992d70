//! The order names are listed in: character by character, as the standard
//! string ordering does, and stable sorting by such a key.

use vstd::prelude::*;

use crate::text::chars_of;

verus! {

/// Whether key `a` sorts before key `b`: character by character, a key
/// before any longer key it begins.
pub open spec fn key_less(a: Seq<char>, b: Seq<char>) -> bool
    decreases a.len(),
{
    if a.len() == 0 {
        b.len() > 0
    } else if b.len() == 0 {
        false
    } else if a[0] != b[0] {
        (a[0] as int) < (b[0] as int)
    } else {
        key_less(a.drop_first(), b.drop_first())
    }
}

pub proof fn lemma_key_less_irreflexive(a: Seq<char>)
    ensures
        !key_less(a, a),
    decreases a.len(),
{
    if a.len() > 0 {
        lemma_key_less_irreflexive(a.drop_first());
    }
}

pub proof fn lemma_key_less_transitive(a: Seq<char>, b: Seq<char>, c: Seq<char>)
    requires
        key_less(a, b),
        key_less(b, c),
    ensures
        key_less(a, c),
    decreases a.len(),
{
    if a.len() > 0 && b.len() > 0 && c.len() > 0 && a[0] == b[0] && b[0] == c[0] {
        lemma_key_less_transitive(a.drop_first(), b.drop_first(), c.drop_first());
    }
}

pub proof fn lemma_key_less_total(a: Seq<char>, b: Seq<char>)
    ensures
        key_less(a, b) || key_less(b, a) || a == b,
    decreases a.len(),
{
    if a.len() > 0 && b.len() > 0 {
        if a[0] == b[0] {
            lemma_key_less_total(a.drop_first(), b.drop_first());
            if a.drop_first() == b.drop_first() {
                assert(a =~= seq![a[0]] + a.drop_first());
                assert(b =~= seq![b[0]] + b.drop_first());
            }
        }
    } else if a.len() == 0 && b.len() == 0 {
        assert(a =~= b);
    }
}

/// Which way two keys sort.
pub enum Order {
    Before,
    Same,
    After,
}

pub fn key_order(a: &Vec<char>, b: &str) -> (o: Order)
    ensures
        o is Before <==> key_less(a@, b@),
        o is Same <==> a@ == b@,
        o is After <==> key_less(b@, a@),
{
    let bc = chars_of(b);
    key_order_chars(a, &bc)
}

/// Which way two keys sort.
pub fn key_order_chars(a: &Vec<char>, bc: &Vec<char>) -> (o: Order)
    ensures
        o is Before <==> key_less(a@, bc@),
        o is Same <==> a@ == bc@,
        o is After <==> key_less(bc@, a@),
{
    let mut i: usize = 0;
    proof {
        assert(a@.subrange(0, a@.len() as int) =~= a@);
        assert(bc@.subrange(0, bc@.len() as int) =~= bc@);
    }
    while i < a.len() && i < bc.len() && a[i] == bc[i]
        invariant
            0 <= i <= a@.len(),
            i <= bc@.len(),
            key_less(a@.subrange(i as int, a@.len() as int), bc@.subrange(i as int, bc@.len() as int))
                == key_less(a@, bc@),
            key_less(bc@.subrange(i as int, bc@.len() as int), a@.subrange(i as int, a@.len() as int))
                == key_less(bc@, a@),
            (a@.subrange(i as int, a@.len() as int) == bc@.subrange(i as int, bc@.len() as int)) == (
            a@ == bc@),
        decreases a@.len() - i,
    {
        proof {
            let x = a@.subrange(i as int, a@.len() as int);
            let y = bc@.subrange(i as int, bc@.len() as int);
            assert(x.drop_first() =~= a@.subrange(i + 1, a@.len() as int));
            assert(y.drop_first() =~= bc@.subrange(i + 1, bc@.len() as int));
            assert(x[0] == y[0]);
            if x.drop_first() == y.drop_first() {
                assert(x =~= seq![x[0]] + x.drop_first());
                assert(y =~= seq![y[0]] + y.drop_first());
            }
            if x == y {
                assert(x.drop_first() =~= y.drop_first());
            }
        }
        i = i + 1;
    }
    let ghost x = a@.subrange(i as int, a@.len() as int);
    let ghost y = bc@.subrange(i as int, bc@.len() as int);
    proof {
        lemma_key_less_irreflexive(x);
        lemma_key_less_total(x, y);
        if x.len() > 0 && y.len() > 0 {
            assert(x[0] == a@[i as int] && y[0] == bc@[i as int]);
            if x[0] != y[0] {
                assert(x != y);
            }
        }
        if x.len() == 0 && y.len() > 0 || x.len() > 0 && y.len() == 0 {
            assert(x.len() != y.len());
        }
    }
    if i == a.len() && i == bc.len() {
        proof {
            assert(x =~= y);
        }
        Order::Same
    } else if i == a.len() {
        Order::Before
    } else if i == bc.len() {
        Order::After
    } else if a[i] < bc[i] {
        Order::Before
    } else {
        Order::After
    }
}

/// Items paired with their sort keys, each key by its characters.
pub open spec fn keyed<T>(v: Seq<(Vec<char>, T)>) -> Seq<(Seq<char>, T)> {
    v.map_values(|p: (Vec<char>, T)| (p.0@, p.1))
}

/// How many leading items of `s` have a key not after `k`: where an item
/// keyed `k` goes to come after its equals.
pub open spec fn upper<T>(s: Seq<(Seq<char>, T)>, k: Seq<char>) -> int
    decreases s.len(),
{
    if s.len() == 0 {
        0
    } else if key_less(k, s[0].0) {
        0
    } else {
        1 + upper(s.drop_first(), k)
    }
}

/// `s` stably sorted by key: each item in turn placed after every item already
/// placed whose key is not after its own, so equal keys keep their order.
pub open spec fn sorted_by_key<T>(s: Seq<(Seq<char>, T)>) -> Seq<(Seq<char>, T)>
    decreases s.len(),
{
    if s.len() == 0 {
        Seq::empty()
    } else {
        let r = sorted_by_key(s.drop_last());
        r.insert(upper(r, s.last().0), s.last())
    }
}

proof fn lemma_upper_bound<T>(s: Seq<(Seq<char>, T)>, k: Seq<char>)
    ensures
        0 <= upper(s, k) <= s.len(),
    decreases s.len(),
{
    if s.len() > 0 {
        lemma_upper_bound(s.drop_first(), k);
    }
}

/// Sort items by their keys, stably (see [`sorted_by_key`]).
pub fn sort_by_key<T>(items: Vec<(Vec<char>, T)>) -> (out: Vec<(Vec<char>, T)>)
    ensures
        keyed(out@) == sorted_by_key(keyed(items@)),
{
    let ghost orig = keyed(items@);
    let ghost n = items@.len();
    let mut rest = items;
    let mut out: Vec<(Vec<char>, T)> = Vec::new();
    proof {
        assert(orig.subrange(0, 0) =~= Seq::<(Seq<char>, T)>::empty());
        assert(keyed(rest@) =~= orig.subrange(0, n as int));
    }
    while rest.len() > 0
        invariant
            0 <= rest@.len() <= n,
            orig.len() == n,
            keyed(rest@) == orig.subrange(n - rest@.len(), n as int),
            keyed(out@) == sorted_by_key(orig.subrange(0, n - rest@.len())),
        decreases rest@.len(),
    {
        let ghost k = n - rest@.len();
        let ghost before = rest@;
        proof {
            assert(keyed(before)[0] == (before[0].0@, before[0].1));
            assert(keyed(before)[0] == orig[k]);
        }
        let x = rest.remove(0);
        proof {
            assert(rest@ =~= before.subrange(1, before.len() as int));
            assert forall|i: int| 0 <= i < rest@.len() implies #[trigger] keyed(rest@)[i] == orig[k + 1 + i] by {
                assert(keyed(before)[i + 1] == orig[k + 1 + i]);
                assert(rest@[i] == before[i + 1]);
            }
            assert(keyed(rest@) =~= orig.subrange(k + 1, n as int));
            assert(orig[k] == (x.0@, x.1));
            let pre = orig.subrange(0, k + 1);
            assert(pre.drop_last() =~= orig.subrange(0, k));
            assert(pre.last() == orig[k]);
        }
        let ghost placed = keyed(out@);
        let mut j: usize = 0;
        proof {
            assert(placed.subrange(0, placed.len() as int) =~= placed);
        }
        while j < out.len() && !matches!(key_order_chars(&x.0, &out[j].0), Order::Before)
            invariant
                0 <= j <= out@.len(),
                placed == keyed(out@),
                upper(placed, x.0@) == j + upper(placed.subrange(j as int, placed.len() as int), x.0@),
            decreases out@.len() - j,
        {
            proof {
                let t = placed.subrange(j as int, placed.len() as int);
                assert(t.drop_first() =~= placed.subrange(j + 1, placed.len() as int));
                assert(t[0].0 == out@[j as int].0@);
            }
            j = j + 1;
        }
        proof {
            let t = placed.subrange(j as int, placed.len() as int);
            if j < out@.len() {
                assert(t[0].0 == out@[j as int].0@);
            }
            assert(upper(placed, x.0@) == j);
            lemma_upper_bound(placed, x.0@);
        }
        let ghost xv = (x.0@, x.1);
        out.insert(j, x);
        proof {
            assert(keyed(out@) =~= placed.insert(j as int, xv));
        }
    }
    out
}

/// Stable sorting puts keys in order: no item comes after one whose key sorts
/// after its own.
pub proof fn law_sorting_orders_keys<T>(s: Seq<(Seq<char>, T)>)
    ensures
        sorted_by_key(s).len() == s.len(),
        forall|i: int, j: int|
            0 <= i < j < s.len() ==> !key_less(#[trigger] sorted_by_key(s)[j].0, #[trigger] sorted_by_key(s)[i].0),
    decreases s.len(),
{
    if s.len() > 0 {
        let r = sorted_by_key(s.drop_last());
        law_sorting_orders_keys(s.drop_last());
        let x = s.last();
        let u = upper(r, x.0);
        lemma_upper_bound(r, x.0);
        lemma_upper_facts(r, x.0);
        let q = r.insert(u, x);
        assert forall|i: int, j: int| 0 <= i < j < q.len() implies !key_less(#[trigger] q[j].0, #[trigger] q[i].0) by {
            if j < u {
                assert(q[i] == r[i] && q[j] == r[j]);
            } else if j == u {
                assert(q[i] == r[i]);
            } else if i == u {
                assert(q[j] == r[j - 1]);
                if key_less(r[j - 1].0, x.0) {
                    if u < r.len() {
                        assert(key_less(x.0, r[u].0));
                        if j - 1 > u {
                            assert(!key_less(r[j - 1].0, r[u].0));
                            lemma_key_less_transitive(r[j - 1].0, x.0, r[u].0);
                        } else {
                            lemma_key_less_transitive(x.0, r[u].0, x.0);
                            lemma_key_less_irreflexive(x.0);
                        }
                    }
                }
            } else if i < u {
                assert(q[i] == r[i] && q[j] == r[j - 1]);
                if i < j - 1 {
                } else {
                    assert(i == j - 1);
                    lemma_key_less_irreflexive(r[i].0);
                }
            } else {
                assert(q[i] == r[i - 1] && q[j] == r[j - 1]);
            }
        }
    }
}

proof fn lemma_upper_facts<T>(s: Seq<(Seq<char>, T)>, k: Seq<char>)
    ensures
        forall|i: int| 0 <= i < upper(s, k) ==> !key_less(k, #[trigger] s[i].0),
        upper(s, k) < s.len() ==> key_less(k, s[upper(s, k)].0),
    decreases s.len(),
{
    lemma_upper_bound(s, k);
    if s.len() > 0 && !key_less(k, s[0].0) {
        lemma_upper_facts(s.drop_first(), k);
        lemma_upper_bound(s.drop_first(), k);
        assert forall|i: int| 0 <= i < upper(s, k) implies !key_less(k, #[trigger] s[i].0) by {
            if i > 0 {
                assert(s[i] == s.drop_first()[i - 1]);
            }
        }
        if upper(s, k) < s.len() {
            assert(s[upper(s, k)] == s.drop_first()[upper(s, k) - 1]);
        }
    }
}

/// The items of `s` each replaced by `g` of itself, keys kept.
pub open spec fn map_vals<A, B>(s: Seq<(Seq<char>, A)>, g: spec_fn(A) -> B) -> Seq<(Seq<char>, B)> {
    s.map_values(|p: (Seq<char>, A)| (p.0, g(p.1)))
}

proof fn lemma_upper_map<A, B>(s: Seq<(Seq<char>, A)>, k: Seq<char>, g: spec_fn(A) -> B)
    ensures
        upper(map_vals(s, g), k) == upper(s, k),
    decreases s.len(),
{
    if s.len() > 0 {
        assert(map_vals(s, g).drop_first() =~= map_vals(s.drop_first(), g));
        lemma_upper_map(s.drop_first(), k, g);
    }
}

/// Sorting looks at keys only: changing the items without touching their keys
/// and then sorting gives the same as sorting and then changing them.
pub proof fn lemma_sort_commutes<A, B>(s: Seq<(Seq<char>, A)>, g: spec_fn(A) -> B)
    ensures
        sorted_by_key(map_vals(s, g)) == map_vals(sorted_by_key(s), g),
    decreases s.len(),
{
    if s.len() > 0 {
        assert(map_vals(s, g).drop_last() =~= map_vals(s.drop_last(), g));
        lemma_sort_commutes(s.drop_last(), g);
        let r = sorted_by_key(s.drop_last());
        lemma_upper_map(r, s.last().0, g);
        lemma_upper_bound(r, s.last().0);
        let u = upper(r, s.last().0);
        assert(map_vals(r, g).insert(u, (s.last().0, g(s.last().1))) =~= map_vals(r.insert(u, s.last()), g));
    }
}

/// Sorting only reorders: every item of the sorted sequence is an item of
/// the original.
pub proof fn lemma_sorted_items_come_from<T>(s: Seq<(Seq<char>, T)>)
    ensures
        sorted_by_key(s).len() == s.len(),
        forall|i: int| 0 <= i < s.len() ==> s.contains(#[trigger] sorted_by_key(s)[i]),
    decreases s.len(),
{
    if s.len() > 0 {
        let r = sorted_by_key(s.drop_last());
        lemma_sorted_items_come_from(s.drop_last());
        let x = s.last();
        let u = upper(r, x.0);
        lemma_upper_bound(r, x.0);
        let q = r.insert(u, x);
        assert forall|i: int| 0 <= i < s.len() implies s.contains(#[trigger] q[i]) by {
            if i < u {
                assert(q[i] == r[i]);
                let j = choose|j: int| 0 <= j < s.drop_last().len() && s.drop_last()[j] == r[i];
                assert(s[j] == r[i]);
            } else if i == u {
                assert(s[s.len() - 1] == x);
            } else {
                assert(q[i] == r[i - 1]);
                let j = choose|j: int| 0 <= j < s.drop_last().len() && s.drop_last()[j] == r[i - 1];
                assert(s[j] == r[i - 1]);
            }
        }
    }
}

/// The items of `s` keyed `k`, in the order `s` has them.
pub open spec fn keyed_as<T>(s: Seq<(Seq<char>, T)>, k: Seq<char>) -> Seq<(Seq<char>, T)>
    decreases s.len(),
{
    if s.len() == 0 {
        Seq::empty()
    } else if s.last().0 == k {
        keyed_as(s.drop_last(), k).push(s.last())
    } else {
        keyed_as(s.drop_last(), k)
    }
}

proof fn lemma_keyed_as_concat<T>(a: Seq<(Seq<char>, T)>, b: Seq<(Seq<char>, T)>, k: Seq<char>)
    ensures
        keyed_as(a + b, k) == keyed_as(a, k) + keyed_as(b, k),
    decreases b.len(),
{
    if b.len() == 0 {
        assert(a + b =~= a);
        assert(keyed_as(a, k) + keyed_as(b, k) =~= keyed_as(a, k));
    } else {
        lemma_keyed_as_concat(a, b.drop_last(), k);
        assert((a + b).drop_last() =~= a + b.drop_last());
        assert((a + b).last() == b.last());
        if b.last().0 == k {
            assert(keyed_as(a, k) + keyed_as(b.drop_last(), k).push(b.last()) =~= (keyed_as(a, k) + keyed_as(
                b.drop_last(),
                k,
            )).push(b.last()));
        }
    }
}

proof fn lemma_keyed_as_none<T>(s: Seq<(Seq<char>, T)>, k: Seq<char>)
    requires
        forall|i: int| 0 <= i < s.len() ==> (#[trigger] s[i]).0 != k,
    ensures
        keyed_as(s, k) == Seq::<(Seq<char>, T)>::empty(),
    decreases s.len(),
{
    if s.len() > 0 {
        assert(s.last() == s[s.len() - 1]);
        assert forall|i: int| 0 <= i < s.drop_last().len() implies (#[trigger] s.drop_last()[i]).0 != k by {
            assert(s.drop_last()[i] == s[i]);
        }
        lemma_keyed_as_none(s.drop_last(), k);
    }
}

/// Stable sorting keeps what it sorts: for every key, the items with that key
/// are exactly those of the input, in the input's order. With
/// [`law_sorting_orders_keys`], the sorted sequence is the input reordered by
/// key, equal keys keeping their order.
pub proof fn law_sorting_keeps_equal_keys_in_order<T>(s: Seq<(Seq<char>, T)>, k: Seq<char>)
    ensures
        keyed_as(sorted_by_key(s), k) == keyed_as(s, k),
    decreases s.len(),
{
    if s.len() > 0 {
        let r = sorted_by_key(s.drop_last());
        law_sorting_keeps_equal_keys_in_order(s.drop_last(), k);
        law_sorting_orders_keys(s.drop_last());
        let x = s.last();
        let u = upper(r, x.0);
        lemma_upper_bound(r, x.0);
        lemma_upper_facts(r, x.0);
        let front = r.subrange(0, u);
        let back = r.subrange(u, r.len() as int);
        assert(r =~= front + back);
        assert(r.insert(u, x) =~= front + seq![x] + back);
        lemma_keyed_as_concat(front, back, k);
        lemma_keyed_as_concat(front + seq![x], back, k);
        lemma_keyed_as_concat(front, seq![x], k);
        assert(seq![x].drop_last() =~= Seq::<(Seq<char>, T)>::empty());
        assert(seq![x].last() == x);
        assert(sorted_by_key(s) == r.insert(u, x));
        assert(s.last() == x);
        if x.0 == k {
            lemma_key_less_irreflexive(k);
            assert forall|i: int| 0 <= i < back.len() implies (#[trigger] back[i]).0 != k by {
                assert(u < r.len());
                assert(back[i] == r[u + i]);
                assert(key_less(x.0, r[u].0));
                if i > 0 {
                    assert(!key_less(r[u + i].0, r[u].0));
                    if r[u + i].0 == k {
                        assert(key_less(r[u + i].0, r[u].0));
                    }
                }
            }
            lemma_keyed_as_none(back, k);
            assert(keyed_as(seq![x].drop_last(), k) =~= Seq::<(Seq<char>, T)>::empty());
            assert(keyed_as(seq![x], k) == Seq::<(Seq<char>, T)>::empty().push(x));
            assert(keyed_as(seq![x], k) =~= seq![x]);
            assert(keyed_as(s, k) == keyed_as(r, k).push(x));
            assert(keyed_as(front, k) + seq![x] + Seq::<(Seq<char>, T)>::empty() =~= (keyed_as(front, k) + Seq::<
                (Seq<char>, T),
            >::empty()).push(x));
        } else {
            assert(seq![x].last() == x);
            assert(keyed_as(seq![x].drop_last(), k) =~= Seq::<(Seq<char>, T)>::empty());
            assert(keyed_as(seq![x], k) =~= Seq::<(Seq<char>, T)>::empty());
            assert(keyed_as(s, k) == keyed_as(r, k));
            assert(keyed_as(front, k) + Seq::<(Seq<char>, T)>::empty() =~= keyed_as(front, k));
        }
    }
}

} // verus!
