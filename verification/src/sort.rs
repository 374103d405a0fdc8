//! Sorting by a text: stable, in the order of texts.

use vstd::prelude::*;
use vstd::string::*;
use crate::text;

verus! {

/// A value that is ordered by a text.
pub trait Sorted {
    /// The text by which the value is ordered.
    spec fn sort_text(&self) -> Seq<char>;
}

/// A value that is ordered by a text which it can show.
pub trait SortKey: Sorted {
    /// The text by which the value is ordered.
    fn sort_str(&self) -> (r: &str)
        ensures
            r@ == self.sort_text(),
    ;
}

impl Sorted for Seq<char> {
    open spec fn sort_text(&self) -> Seq<char> {
        *self
    }
}

impl Sorted for String {
    open spec fn sort_text(&self) -> Seq<char> {
        self@
    }
}

impl SortKey for String {
    fn sort_str(&self) -> (r: &str) {
        self.as_str()
    }
}

/// How many values at the start of `s` come before the text `key`.
pub open spec fn run_before<T: Sorted>(s: Seq<T>, key: Seq<char>) -> nat
    decreases s.len(),
{
    if s.len() > 0 && text::text_lt(s[0].sort_text(), key) {
        1 + run_before(s.drop_first(), key)
    } else {
        0
    }
}

/// The values of `s` in order: each goes before the later ones that do not
/// come before it.
pub open spec fn stable_sorted<T: Sorted>(s: Seq<T>) -> Seq<T>
    decreases s.len(),
{
    if s.len() == 0 {
        seq![]
    } else {
        let rest = stable_sorted(s.drop_first());
        rest.insert(run_before(rest, s[0].sort_text()) as int, s[0])
    }
}

/// Whether no value of `s` comes before an earlier one.
pub open spec fn in_order<T: Sorted>(s: Seq<T>) -> bool {
    forall|i: int, j: int|
        0 <= i < j < s.len() ==> !text::text_lt(
            (#[trigger] s[j]).sort_text(),
            (#[trigger] s[i]).sort_text(),
        )
}

pub proof fn lemma_run_before<T: Sorted>(s: Seq<T>, key: Seq<char>, p: int)
    requires
        0 <= p <= s.len(),
        forall|i: int| 0 <= i < p ==> text::text_lt((#[trigger] s[i]).sort_text(), key),
        p < s.len() ==> !text::text_lt(s[p].sort_text(), key),
    ensures
        run_before(s, key) == p,
    decreases s.len(),
{
    if p > 0 {
        assert(text::text_lt(s[0].sort_text(), key));
        assert forall|i: int| 0 <= i < p - 1 implies text::text_lt(
            (#[trigger] s.drop_first()[i]).sort_text(),
            key,
        ) by {
            assert(s.drop_first()[i] == s[i + 1]);
        }
        lemma_run_before(s.drop_first(), key, p - 1);
    }
}

pub proof fn lemma_run_before_splits<T: Sorted>(s: Seq<T>, key: Seq<char>)
    ensures
        run_before(s, key) <= s.len(),
        forall|i: int|
            0 <= i < run_before(s, key) ==> text::text_lt((#[trigger] s[i]).sort_text(), key),
        run_before(s, key) < s.len() ==> !text::text_lt(
            s[run_before(s, key) as int].sort_text(),
            key,
        ),
    decreases s.len(),
{
    if s.len() > 0 && text::text_lt(s[0].sort_text(), key) {
        lemma_run_before_splits(s.drop_first(), key);
        assert forall|i: int| 0 <= i < run_before(s, key) implies text::text_lt(
            (#[trigger] s[i]).sort_text(),
            key,
        ) by {
            if i > 0 {
                assert(s.drop_first()[i - 1] == s[i]);
            }
        }
    }
}

/// `a` not after `b` and `b` before `c`: then `a` before `c`.
proof fn lemma_le_lt(a: Seq<char>, b: Seq<char>, c: Seq<char>)
    requires
        !text::text_lt(b, a),
        text::text_lt(b, c),
    ensures
        text::text_lt(a, c),
{
    text::lemma_text_lt_total(a, b);
    if a != b {
        text::lemma_text_lt_transitive(a, b, c);
    }
}

/// Sorting gives the same values, in order.
pub proof fn law_sorting_orders_the_same_values<T: Sorted>(s: Seq<T>)
    ensures
        in_order(stable_sorted(s)),
        stable_sorted(s).to_multiset() == s.to_multiset(),
        stable_sorted(s).len() == s.len(),
    decreases s.len(),
{
    broadcast use vstd::seq_lib::group_to_multiset_ensures;

    if s.len() == 0 {
        assert(stable_sorted(s) =~= s);
    } else {
        let x = s[0];
        let key = x.sort_text();
        let rest = stable_sorted(s.drop_first());
        law_sorting_orders_the_same_values(s.drop_first());
        lemma_run_before_splits(rest, key);
        let p = run_before(rest, key) as int;
        let r = rest.insert(p, x);
        assert forall|i: int, j: int| 0 <= i < j < r.len() implies !text::text_lt(
            (#[trigger] r[j]).sort_text(),
            (#[trigger] r[i]).sort_text(),
        ) by {
            let oi = if i < p {
                i
            } else {
                i - 1
            };
            let oj = if j < p {
                j
            } else {
                j - 1
            };
            if i != p {
                assert(r[i] == rest[oi]);
            }
            if j != p {
                assert(r[j] == rest[oj]);
            }
            if i == p {
                // `x` against a later value: that one does not come before it.
                if text::text_lt(rest[oj].sort_text(), key) {
                    if oj > p {
                        lemma_le_lt(rest[p].sort_text(), rest[oj].sort_text(), key);
                    }
                }
            } else if j == p {
                if text::text_lt(key, rest[oi].sort_text()) {
                    text::lemma_text_lt_transitive(
                        key,
                        rest[oi].sort_text(),
                        key,
                    );
                    text::lemma_text_lt_irreflexive(key);
                }
            } else {
                assert(oi < oj);
            }
        }
        assert(s =~= seq![x] + s.drop_first());
        assert(r =~= rest.take(p) + seq![x] + rest.skip(p));
        vstd::seq_lib::lemma_multiset_commutative(rest.take(p), rest.skip(p));
        assert(rest =~= rest.take(p) + rest.skip(p));
        vstd::seq_lib::lemma_multiset_commutative(rest.take(p) + seq![x], rest.skip(p));
        vstd::seq_lib::lemma_multiset_commutative(rest.take(p), seq![x]);
        vstd::seq_lib::lemma_multiset_commutative(seq![x], s.drop_first());
        assert(r.to_multiset() =~= s.to_multiset());
    }
}

/// Sorting and then mapping is mapping and then sorting, where the mapping
/// keeps the text by which values are ordered.
pub proof fn lemma_sorting_maps<T: Sorted, U: Sorted>(s: Seq<T>, f: spec_fn(T) -> U)
    requires
        forall|x: T| (#[trigger] f(x)).sort_text() == x.sort_text(),
    ensures
        stable_sorted(s).map_values(f) == stable_sorted(s.map_values(f)),
    decreases s.len(),
{
    let m = s.map_values(f);
    if s.len() == 0 {
        assert(stable_sorted(s).map_values(f) =~= stable_sorted(m));
    } else {
        let rest = stable_sorted(s.drop_first());
        lemma_sorting_maps(s.drop_first(), f);
        assert(m.drop_first() =~= s.drop_first().map_values(f));
        lemma_run_maps(rest, f, s[0].sort_text());
        lemma_run_before_splits(rest, s[0].sort_text());
        assert(stable_sorted(s).map_values(f) =~= stable_sorted(m));
    }
}

pub proof fn lemma_run_maps<T: Sorted, U: Sorted>(s: Seq<T>, f: spec_fn(T) -> U, key: Seq<char>)
    requires
        forall|x: T| (#[trigger] f(x)).sort_text() == x.sort_text(),
    ensures
        run_before(s.map_values(f), key) == run_before(s, key),
    decreases s.len(),
{
    if s.len() > 0 {
        lemma_run_maps(s.drop_first(), f, key);
        assert(s.map_values(f).drop_first() =~= s.drop_first().map_values(f));
        assert(s.map_values(f)[0] == f(s[0]));
    }
}

/// Where `key` goes in a list in order: behind all values that come before it.
pub fn find_place<T: SortKey>(v: &Vec<T>, key: &str) -> (p: usize)
    requires
        in_order(v@),
    ensures
        p == run_before(v@, key@),
        p <= v@.len(),
{
    let mut lo: usize = 0;
    let mut hi: usize = v.len();
    while lo < hi
        invariant
            lo <= hi <= v@.len(),
            in_order(v@),
            forall|i: int| 0 <= i < lo ==> text::text_lt((#[trigger] v@[i]).sort_text(), key@),
            forall|i: int|
                hi <= i < v@.len() ==> !text::text_lt((#[trigger] v@[i]).sort_text(), key@),
        decreases hi - lo,
    {
        let mid: usize = lo + (hi - lo) / 2;
        if text::text_before(v[mid].sort_str(), key) {
            proof {
                assert forall|i: int| 0 <= i < mid + 1 implies text::text_lt(
                    (#[trigger] v@[i]).sort_text(),
                    key@,
                ) by {
                    if i < mid {
                        lemma_le_lt(v@[i].sort_text(), v@[mid as int].sort_text(), key@);
                    }
                }
            }
            lo = mid + 1;
        } else {
            proof {
                assert forall|i: int| mid <= i < v@.len() implies !text::text_lt(
                    (#[trigger] v@[i]).sort_text(),
                    key@,
                ) by {
                    if i > mid && text::text_lt(v@[i].sort_text(), key@) {
                        lemma_le_lt(v@[mid as int].sort_text(), v@[i].sort_text(), key@);
                    }
                }
            }
            hi = mid;
        }
    }
    proof {
        lemma_run_before(v@, key@, lo as int);
    }
    lo
}

/// Sorts by the text of each value, and keeps the order of those with equal
/// texts.
pub fn sort_stably<T: SortKey>(items: Vec<T>) -> (r: Vec<T>)
    ensures
        r@ == stable_sorted(items@),
{
    let mut items = items;
    let ghost all = items@;
    let mut r: Vec<T> = Vec::new();
    assert(all.skip(all.len() as int) =~= Seq::<T>::empty());
    assert(all.take(all.len() as int) =~= all);
    while items.len() > 0
        invariant
            items@.len() <= all.len(),
            items@ == all.take(items@.len() as int),
            r@ == stable_sorted(all.skip(items@.len() as int)),
        decreases items@.len(),
    {
        let ghost n = items@.len() as int;
        match items.pop() {
            Some(x) => {
                proof {
                    law_sorting_orders_the_same_values(all.skip(n));
                    assert(all.skip(n - 1).drop_first() =~= all.skip(n));
                    assert(all.skip(n - 1)[0] == x);
                }
                let p: usize = find_place(&r, x.sort_str());
                r.insert(p, x);
                assert(items@ =~= all.take(n - 1));
            },
            None => {},
        }
    }
    assert(all.skip(0) =~= all);
    r
}

/// Sorts strings.
pub fn sort_texts(v: Vec<String>) -> (r: Vec<String>)
    ensures
        text::texts(r@) == stable_sorted(text::texts(v@)),
{
    proof {
        lemma_sorting_maps(v@, |s: String| s@);
    }
    sort_stably(v)
}

/// Sorted texts are in the order of texts.
pub proof fn law_sorted_texts_ascend(s: Seq<Seq<char>>, i: int, j: int)
    requires
        0 <= i < j < s.len(),
    ensures
        !text::text_lt(stable_sorted(s)[j], stable_sorted(s)[i]),
        s.contains(stable_sorted(s)[i]),
        stable_sorted(s).contains(s[i]),
{
    law_sorting_orders_the_same_values(s);
    let r = stable_sorted(s);
    assert(!text::text_lt(r[j].sort_text(), r[i].sort_text()));
    s.to_multiset_ensures();
    r.to_multiset_ensures();
    assert(r.contains(r[i]));
    assert(r.to_multiset().count(r[i]) > 0);
    assert(s.contains(s[i]));
    assert(s.to_multiset().count(s[i]) > 0);
}

/// What is in order stays as it is: values with one text keep their order.
pub proof fn law_sorting_is_stable<T: Sorted>(s: Seq<T>)
    requires
        forall|i: int, j: int|
            0 <= i < j < s.len() ==> !text::text_lt(
                (#[trigger] s[j]).sort_text(),
                (#[trigger] s[i]).sort_text(),
            ),
    ensures
        stable_sorted(s) == s,
    decreases s.len(),
{
    if s.len() > 0 {
        let rest = s.drop_first();
        assert forall|i: int, j: int| 0 <= i < j < rest.len() implies !text::text_lt(
            (#[trigger] rest[j]).sort_text(),
            (#[trigger] rest[i]).sort_text(),
        ) by {
            assert(rest[i] == s[i + 1] && rest[j] == s[j + 1]);
        }
        law_sorting_is_stable(rest);
        if rest.len() > 0 {
            assert(rest[0] == s[1]);
            assert(!text::text_lt(s[1].sort_text(), s[0].sort_text()));
        }
        assert(run_before(rest, s[0].sort_text()) == 0);
        assert(rest.insert(0, s[0]) =~= s);
    } else {
        assert(stable_sorted(s) =~= s);
    }
}

/// Values with one and the same text come in the order in which they came.
pub proof fn law_equal_values_keep_their_order<T: Sorted>(s: Seq<T>, key: Seq<char>)
    ensures
        stable_sorted(s).filter(|x: T| x.sort_text() == key) == s.filter(
            |x: T| x.sort_text() == key,
        ),
    decreases s.len(),
{
    let fits = |x: T| x.sort_text() == key;
    if s.len() == 0 {
        assert(stable_sorted(s) =~= s);
    } else {
        let rest = stable_sorted(s.drop_first());
        let x = s[0];
        let p = run_before(rest, x.sort_text()) as int;
        law_equal_values_keep_their_order(s.drop_first(), key);
        lemma_run_before_splits(rest, x.sort_text());
        let one = seq![x];
        let front = rest.take(p);
        let back = rest.skip(p);
        assert(stable_sorted(s) =~= front + one + back);
        assert(rest =~= front + back);
        assert(s =~= one + s.drop_first());
        Seq::filter_distributes_over_add(front, one, fits);
        Seq::filter_distributes_over_add(front + one, back, fits);
        Seq::filter_distributes_over_add(front, back, fits);
        Seq::filter_distributes_over_add(one, s.drop_first(), fits);
        if fits(x) {
            assert forall|i: int| 0 <= i < front.len() implies !fits(#[trigger] front[i]) by {
                assert(text::text_lt(rest[i].sort_text(), key));
                text::lemma_text_lt_irreflexive(key);
            }
            lemma_nothing_to_filter(front, fits);
            assert(front.filter(fits) + one.filter(fits) + back.filter(fits) =~= one.filter(fits) + (
            front.filter(fits) + back.filter(fits)));
        } else {
            lemma_nothing_to_filter(one, fits);
            assert(front.filter(fits) + one.filter(fits) + back.filter(fits) =~= front.filter(fits)
                + back.filter(fits));
            assert(one.filter(fits) + s.drop_first().filter(fits) =~= s.drop_first().filter(fits));
        }
    }
}

proof fn lemma_nothing_to_filter<T>(s: Seq<T>, p: spec_fn(T) -> bool)
    requires
        forall|i: int| 0 <= i < s.len() ==> !p(#[trigger] s[i]),
    ensures
        s.filter(p) == Seq::<T>::empty(),
    decreases s.len(),
{
    reveal(Seq::filter);
    if s.len() > 0 {
        assert forall|i: int| 0 <= i < s.drop_last().len() implies !p(
            #[trigger] s.drop_last()[i],
        ) by {
            assert(s.drop_last()[i] == s[i]);
        }
        assert(!p(s[s.len() - 1]));
        lemma_nothing_to_filter(s.drop_last(), p);
    }
}

} // verus!
