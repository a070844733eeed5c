//! Lists of names: membership, order, removal.

use vstd::prelude::*;

use crate::text::{chars_of, same_text};

verus! {

/// The texts of a list of strings.
pub open spec fn views(v: Seq<String>) -> Seq<Seq<char>> {
    v.map_values(|s: String| s@)
}

/// Whether `name` is one of `v`.
pub fn contains_name(v: &Vec<String>, name: &str) -> (r: bool)
    ensures
        r == views(v@).contains(name@),
{
    for i in 0..v.len()
        invariant
            forall|j: int| 0 <= j < i ==> (#[trigger] v@[j])@ != name@,
    {
        if same_text(v[i].as_str(), name) {
            assert(views(v@)[i as int] == name@);
            return true;
        }
    }
    assert(!views(v@).contains(name@)) by {
        if views(v@).contains(name@) {
            let j = choose|j: int| 0 <= j < views(v@).len() && views(v@)[j] == name@;
            assert(v@[j]@ == name@);
        }
    }
    false
}

/// The test whether a text differs from `x`.
pub open spec fn differs(x: Seq<char>) -> spec_fn(Seq<char>) -> bool {
    |e: Seq<char>| e != x
}

/// The elements of `s` that differ from `x`, in order.
pub open spec fn without(s: Seq<Seq<char>>, x: Seq<char>) -> Seq<Seq<char>> {
    s.filter(differs(x))
}

/// Filtering twice is the same as once, and what is left passes the filter.
pub proof fn lemma_filter_settles(s: Seq<Seq<char>>, p: spec_fn(Seq<char>) -> bool)
    ensures
        s.filter(p).filter(p) == s.filter(p),
        forall|i: int| 0 <= i < s.filter(p).len() ==> p(#[trigger] s.filter(p)[i]),
    decreases s.len(),
{
    reveal(Seq::filter);
    if s.len() > 0 {
        lemma_filter_settles(s.drop_last(), p);
        let f = s.drop_last().filter(p);
        if p(s.last()) {
            assert(f.push(s.last()).drop_last() =~= f);
        }
    }
}

/// A filtered sequence holds what the sequence holds and the test keeps.
pub proof fn lemma_filter_contains(s: Seq<Seq<char>>, p: spec_fn(Seq<char>) -> bool, x: Seq<char>)
    ensures
        s.filter(p).contains(x) == (s.contains(x) && p(x)),
    decreases s.len(),
{
    reveal(Seq::filter);
    if s.len() > 0 {
        let t = s.drop_last();
        lemma_filter_contains(t, p, x);
        assert(s.contains(x) == (t.contains(x) || s.last() == x)) by {
            if s.contains(x) {
                let i = choose|i: int| 0 <= i < s.len() && s[i] == x;
                if i < t.len() {
                    assert(t[i] == x);
                }
            }
            if t.contains(x) {
                let i = choose|i: int| 0 <= i < t.len() && t[i] == x;
                assert(s[i] == x);
            }
            assert(s[s.len() - 1] == s.last());
        }
        if p(s.last()) {
            let f = t.filter(p);
            let g = f.push(s.last());
            assert(g.contains(x) == (f.contains(x) || s.last() == x)) by {
                if g.contains(x) {
                    let i = choose|i: int| 0 <= i < g.len() && g[i] == x;
                    if i < f.len() {
                        assert(f[i] == x);
                    }
                }
                if f.contains(x) {
                    let i = choose|i: int| 0 <= i < f.len() && f[i] == x;
                    assert(g[i] == x);
                }
                assert(g[g.len() - 1] == s.last());
            }
        }
    }
}

/// Removes every occurrence of `name`.
pub fn remove_name(v: &mut Vec<String>, name: &str)
    ensures
        views(final(v)@) == without(views(old(v)@), name@),
{
    let mut kept: Vec<String> = Vec::new();
    let ghost keep = differs(name@);
    for i in 0..v.len()
        invariant
            v@ == old(v)@,
            keep == differs(name@),
            views(kept@) == views(v@).take(i as int).filter(keep),
    {
        proof {
            assert(views(v@).take(i + 1).drop_last() =~= views(v@).take(i as int));
            assert(views(v@).take(i + 1).last() == v@[i as int]@);
            reveal(Seq::filter);
        }
        if !same_text(v[i].as_str(), name) {
            let ghost before = kept@;
            kept.push(v[i].clone());
            assert(views(kept@) =~= views(before).push(v@[i as int]@));
        }
    }
    assert(views(v@).take(v@.len() as int) =~= views(v@));
    *v = kept;
}

/// The list that holds `name` alone.
pub fn only(name: &str) -> (r: Vec<String>)
    ensures
        views(r@) == seq![name@],
{
    let mut r: Vec<String> = Vec::new();
    r.push(name.to_owned());
    assert(views(r@) =~= seq![name@]);
    r
}

// ===== Order =====

/// Whether `a` comes before `b` in the order of code points, or equals it.
pub open spec fn text_le(a: Seq<char>, b: Seq<char>) -> bool
    decreases a.len(),
{
    if a.len() == 0 {
        true
    } else if b.len() == 0 {
        false
    } else if a[0] == b[0] {
        text_le(a.drop_first(), b.drop_first())
    } else {
        a[0] < b[0]
    }
}

/// Whether a list of texts is in ascending order.
pub open spec fn sorted_texts(s: Seq<Seq<char>>) -> bool {
    forall|i: int, j: int| 0 <= i <= j < s.len() ==> text_le(#[trigger] s[i], #[trigger] s[j])
}

fn le_text(a: &str, b: &str) -> (r: bool)
    ensures
        r == text_le(a@, b@),
{
    let x: Vec<char> = chars_of(a);
    let y: Vec<char> = chars_of(b);
    let mut i: usize = 0;
    assert(x@.skip(0) =~= x@);
    assert(y@.skip(0) =~= y@);
    while i < x.len()
        invariant
            i <= x@.len(),
            i <= y@.len(),
            x@ == a@,
            y@ == b@,
            text_le(a@, b@) == text_le(x@.skip(i as int), y@.skip(i as int)),
        decreases x@.len() - i,
    {
        if i >= y.len() {
            return false;
        }
        if x[i] != y[i] {
            return x[i] < y[i];
        }
        assert(x@.skip(i as int).drop_first() =~= x@.skip(i + 1));
        assert(y@.skip(i as int).drop_first() =~= y@.skip(i + 1));
        i = i + 1;
    }
    true
}

proof fn lemma_text_le_refl(a: Seq<char>)
    ensures
        text_le(a, a),
    decreases a.len(),
{
    if a.len() > 0 {
        lemma_text_le_refl(a.drop_first());
    }
}

proof fn lemma_text_le_total(a: Seq<char>, b: Seq<char>)
    ensures
        text_le(a, b) || text_le(b, a),
    decreases a.len(),
{
    if a.len() > 0 && b.len() > 0 && a[0] == b[0] {
        lemma_text_le_total(a.drop_first(), b.drop_first());
    }
}

proof fn lemma_text_le_trans(a: Seq<char>, b: Seq<char>, c: Seq<char>)
    requires
        text_le(a, b),
        text_le(b, c),
    ensures
        text_le(a, c),
    decreases a.len(),
{
    if a.len() > 0 && b.len() > 0 && c.len() > 0 && a[0] == b[0] && b[0] == c[0] {
        lemma_text_le_trans(a.drop_first(), b.drop_first(), c.drop_first());
    }
}

/// Inserts `name` into a sorted list, keeping it sorted.
fn insert_sorted(v: &mut Vec<String>, name: String)
    requires
        sorted_texts(views(old(v)@)),
    ensures
        sorted_texts(views(final(v)@)),
        exists|k: int|
            0 <= k <= old(v)@.len() && #[trigger] views(old(v)@).insert(k, name@) == views(
                final(v)@,
            ),
{
    let mut k: usize = 0;
    while k < v.len() && le_text(v[k].as_str(), name.as_str())
        invariant
            v@ == old(v)@,
            k <= v@.len(),
            forall|j: int| 0 <= j < k ==> text_le((#[trigger] v@[j])@, name@),
        decreases v@.len() - k,
    {
        k = k + 1;
    }
    let ghost s = views(v@);
    let ghost n = name@;
    proof {
        if k < v@.len() {
            lemma_text_le_total(v@[k as int]@, n);
        }
        assert forall|j: int| k <= j < s.len() implies text_le(n, #[trigger] s[j]) by {
            assert(text_le(s[k as int], s[j]));
            lemma_text_le_trans(n, s[k as int], s[j]);
        }
        assert forall|j: int| 0 <= j < k implies text_le(#[trigger] s[j], n) by {
            assert(text_le(v@[j]@, n));
        }
        lemma_text_le_refl(n);
    }
    v.insert(k, name);
    proof {
        let t = views(v@);
        assert(t =~= s.insert(k as int, n));
        assert forall|i: int, j: int| 0 <= i <= j < t.len() implies text_le(
            #[trigger] t[i],
            #[trigger] t[j],
        ) by {
            let i0 = if i < k { i } else { i - 1 };
            let j0 = if j < k { j } else { j - 1 };
            if i == k && j == k {
            } else if i == k {
                assert(t[j] == s[j0]);
            } else if j == k {
                assert(t[i] == s[i0]);
            } else {
                assert(t[i] == s[i0] && t[j] == s[j0]);
            }
        }
    }
}

/// Sorts a list of names in ascending order.
pub fn sort_names(v: &Vec<String>) -> (r: Vec<String>)
    ensures
        sorted_texts(views(r@)),
        views(r@).to_multiset() == views(v@).to_multiset(),
{
    let mut r: Vec<String> = Vec::new();
    assert(views(v@).take(0) =~= views(r@));
    for i in 0..v.len()
        invariant
            sorted_texts(views(r@)),
            views(r@).to_multiset() == views(v@).take(i as int).to_multiset(),
    {
        let ghost before = views(r@);
        let name: String = v[i].clone();
        insert_sorted(&mut r, name);
        proof {
            broadcast use vstd::seq_lib::group_to_multiset_ensures;
            let k = choose|k: int|
                0 <= k <= before.len() && #[trigger] before.insert(k, name@) == views(r@);
            lemma_insert_multiset(before, k, name@);
            assert(views(v@).take(i + 1) =~= views(v@).take(i as int).push(v@[i as int]@));
        }
    }
    assert(views(v@).take(v@.len() as int) =~= views(v@));
    r
}

proof fn lemma_insert_multiset<A>(s: Seq<A>, k: int, x: A)
    requires
        0 <= k <= s.len(),
    ensures
        s.insert(k, x).to_multiset() == s.to_multiset().insert(x),
{
    broadcast use vstd::seq_lib::group_to_multiset_ensures;
    let t = s.insert(k, x);
    assert(t.remove(k) =~= s);
    assert(t[k] == x);
    assert(t.to_multiset().count(x) > 0);
    assert(t.to_multiset() =~= s.to_multiset().insert(x));
}

// ===== Laws =====

/// Taking a name out of a list takes out every occurrence of it and nothing
/// else, and keeps the order: a list in two parts loses it part by part.
pub proof fn law_without_takes_out_one_name(
    a: Seq<Seq<char>>,
    b: Seq<Seq<char>>,
    name: Seq<char>,
    other: Seq<char>,
)
    ensures
        without(a + b, name) == without(a, name) + without(b, name),
        without(seq![name], name).len() == 0,
        other != name ==> without(seq![other], name) == seq![other],
        without(a, name).contains(other) == (a.contains(other) && other != name),
{
    Seq::filter_distributes_over_add(a, b, differs(name));
    lemma_filter_contains(a, differs(name), other);
    reveal_with_fuel(Seq::filter, 2);
    assert(seq![name].drop_last() =~= Seq::<Seq<char>>::empty());
    assert(seq![other].drop_last() =~= Seq::<Seq<char>>::empty());
    assert(Seq::<Seq<char>>::empty().push(other) =~= seq![other]);
}

/// Texts are ordered as in a dictionary: a text comes before every longer one
/// that begins with it, and where two differ the first character in which they
/// do decides.
pub proof fn law_text_order(
    p: Seq<char>,
    c: char,
    d: char,
    a: Seq<char>,
    b: Seq<char>,
)
    requires
        c < d,
    ensures
        text_le(p, p + a),
        a.len() > 0 ==> !text_le(p + a, p),
        text_le(p.push(c) + a, p.push(d) + b),
        !text_le(p.push(d) + b, p.push(c) + a),
    decreases p.len(),
{
    if p.len() == 0 {
        assert(p + a =~= a);
    } else {
        let q = p.drop_first();
        law_text_order(q, c, d, a, b);
        assert((p + a).drop_first() =~= q + a);
        assert((p.push(c) + a).drop_first() =~= q.push(c) + a);
        assert((p.push(d) + b).drop_first() =~= q.push(d) + b);
    }
}

} // verus!
