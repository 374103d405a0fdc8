//! Reservoir sampling over the positions of a stream, and why it is uniform.
//!
//! Item `t` of the stream comes with a draw from `0..=t`. The first `k` items
//! are kept; each later one replaces the item in the slot that was drawn, if
//! the draw names a slot.

use vstd::prelude::*;

verus! {

/// The positions kept once item `t` has been offered with the given draw.
pub open spec fn place(kept: Seq<int>, k: nat, t: int, draw: int) -> Seq<int> {
    if kept.len() < k {
        kept.push(t)
    } else if 0 <= draw < k {
        kept.update(draw, t)
    } else {
        kept
    }
}

/// The positions kept of a stream, item `t` of which came with draw `draws[t]`.
pub open spec fn kept(k: nat, draws: Seq<int>) -> Seq<int>
    decreases draws.len(),
{
    if draws.len() == 0 {
        seq![]
    } else {
        place(kept(k, draws.drop_last()), k, draws.len() - 1, draws.last())
    }
}

/// Sampling is without replacement: the kept positions are positions of the
/// stream, no two alike, and as many as there are slots or items.
pub proof fn law_kept_positions_are_distinct(k: nat, draws: Seq<int>)
    ensures
        kept(k, draws).no_duplicates(),
        forall|i: int|
            0 <= i < kept(k, draws).len() ==> 0 <= #[trigger] kept(k, draws)[i] < draws.len(),
        kept(k, draws).len() == if draws.len() < k {
            draws.len()
        } else {
            k
        },
    decreases draws.len(),
{
    if draws.len() > 0 {
        law_kept_positions_are_distinct(k, draws.drop_last());
    }
}

/// A stream no longer than the sample is kept whole, in order.
pub proof fn law_short_stream_is_kept_whole(k: nat, draws: Seq<int>)
    requires
        draws.len() <= k,
    ensures
        kept(k, draws) == Seq::new(draws.len(), |i: int| i),
    decreases draws.len(),
{
    if draws.len() > 0 {
        law_short_stream_is_kept_whole(k, draws.drop_last());
    }
    assert(kept(k, draws) =~= Seq::new(draws.len(), |i: int| i));
}

/// The product of the numbers from one to `n`.
pub open spec fn factorial(n: nat) -> nat
    decreases n,
{
    if n == 0 {
        1
    } else {
        n * factorial((n - 1) as nat)
    }
}

/// In how many ways the draws for the items `t..n`, each from `0..=item`, turn
/// the kept positions into exactly the set `goal`.
pub open spec fn ways(k: nat, held: Seq<int>, t: nat, n: nat, goal: Set<int>) -> nat
    decreases n - t, t + 2,
{
    if t >= n {
        if held.to_set() == goal {
            1
        } else {
            0
        }
    } else {
        ways_below(k, held, t, n, goal, t + 1)
    }
}

/// In how many of these ways the draw for item `t` is below `limit`.
pub open spec fn ways_below(
    k: nat,
    held: Seq<int>,
    t: nat,
    n: nat,
    goal: Set<int>,
    limit: nat,
) -> nat
    decreases n - t, limit,
    when t < n
{
    if limit == 0 {
        0
    } else {
        ways_below(k, held, t, n, goal, (limit - 1) as nat) + ways(
            k,
            place(held, k, t as int, limit - 1),
            t + 1,
            n,
            goal,
        )
    }
}

/// The members of `goal` that are positions below `t`.
spec fn goal_below(goal: Set<int>, t: nat) -> Set<int> {
    goal.filter(|x: int| x < t)
}

/// How many of the first `c` slots hold a position outside `wanted`.
spec fn spare(held: Seq<int>, wanted: Set<int>, c: nat) -> nat
    decreases c,
{
    if c == 0 {
        0
    } else {
        spare(held, wanted, (c - 1) as nat) + if wanted.contains(held[c - 1]) {
            0nat
        } else {
            1nat
        }
    }
}

proof fn lemma_factorial_positive(n: nat)
    ensures
        factorial(n) > 0,
    decreases n,
{
    if n > 0 {
        lemma_factorial_positive((n - 1) as nat);
        assert(n * factorial((n - 1) as nat) > 0) by (nonlinear_arith)
            requires
                n > 0,
                factorial((n - 1) as nat) > 0,
        ;
    }
}

/// Slots that hold distinct positions: those outside `wanted` are as many as
/// the slots less the members of `wanted` among them.
proof fn lemma_spare_count(held: Seq<int>, wanted: Set<int>, c: nat)
    requires
        c <= held.len(),
        held.no_duplicates(),
        wanted.finite(),
    ensures
        held.take(c as int).to_set().intersect(wanted).finite(),
        spare(held, wanted, c) + held.take(c as int).to_set().intersect(wanted).len() == c,
    decreases c,
{
    let here = held.take(c as int).to_set().intersect(wanted);
    if c == 0 {
        assert(here =~= Set::<int>::empty());
    } else {
        let p = (c - 1) as nat;
        lemma_spare_count(held, wanted, p);
        let before = held.take(p as int).to_set().intersect(wanted);
        let x = held[p as int];
        assert(held.take(c as int) =~= held.take(p as int).push(x));
        assert(!held.take(p as int).contains(x)) by {
            if held.take(p as int).contains(x) {
                let i = choose|i: int| 0 <= i < p && held.take(p as int)[i] == x;
                assert(held[i] == held[p as int]);
            }
        }
        assert forall|y: int| here.contains(y) == (before.contains(y) || (y == x
            && wanted.contains(x))) by {
            if held.take(c as int).contains(y) {
                let i = choose|i: int| 0 <= i < c && held.take(c as int)[i] == y;
                if i < p {
                    assert(held.take(p as int)[i] == y);
                }
            }
            if held.take(p as int).contains(y) {
                let i = choose|i: int| 0 <= i < p && held.take(p as int)[i] == y;
                assert(held.take(c as int)[i] == y);
            }
            assert(held.take(c as int)[p as int] == x);
        }
        if wanted.contains(x) {
            assert(here =~= before.insert(x));
        } else {
            assert(here =~= before);
        }
    }
}

/// A sum over draws whose terms are `each` where the draw meets the condition
/// and nothing elsewhere. Draws that name a slot meet it where the slot holds
/// a position outside `wanted`; draws that name none meet it if `beyond` says so.
proof fn lemma_sum_of_draws(
    k: nat,
    held: Seq<int>,
    t: nat,
    n: nat,
    goal: Set<int>,
    wanted: Set<int>,
    each: nat,
    beyond: bool,
    limit: nat,
)
    requires
        t < n,
        held.len() == k,
        limit <= t + 1,
        forall|j: int|
            0 <= j < limit ==> #[trigger] ways(k, place(held, k, t as int, j), t + 1, n, goal)
                == if j < k {
                if wanted.contains(held[j]) {
                    0
                } else {
                    each
                }
            } else if beyond {
                each
            } else {
                0
            },
    ensures
        ways_below(k, held, t, n, goal, limit) == each * (spare(held, wanted, if limit < k {
            limit
        } else {
            k
        }) + if beyond && limit > k {
            (limit - k) as nat
        } else {
            0nat
        }),
    decreases limit,
{
    if limit > 0 {
        let p = (limit - 1) as nat;
        lemma_sum_of_draws(k, held, t, n, goal, wanted, each, beyond, p);
        let count_before = spare(held, wanted, if p < k {
            p
        } else {
            k
        }) + if beyond && p > k {
            (p - k) as nat
        } else {
            0nat
        };
        let count = spare(held, wanted, if limit < k {
            limit
        } else {
            k
        }) + if beyond && limit > k {
            (limit - k) as nat
        } else {
            0nat
        };
        let term = ways(k, place(held, k, t as int, p as int), t + 1, n, goal);
        assert(term == each * (count - count_before)) by {
            assert(count - count_before == 0 || count - count_before == 1);
            assert(each * 0 == 0 && each * 1 == each) by (nonlinear_arith);
        }
        assert(each * count_before + each * (count - count_before) == each * count)
            by (nonlinear_arith);
    } else {
        assert(each * 0 == 0) by (nonlinear_arith);
    }
}

proof fn lemma_cancel(x: nat, y: nat, z: nat)
    requires
        x > 0,
        x * y == x * z,
    ensures
        y == z,
{
    assert(y == z) by (nonlinear_arith)
        requires
            x > 0,
            x * y == x * z,
    ;
}

/// A slot that holds a position outside `wanted`.
proof fn lemma_some_spare(held: Seq<int>, wanted: Set<int>, c: nat) -> (j: int)
    requires
        spare(held, wanted, c) > 0,
    ensures
        0 <= j < c,
        !wanted.contains(held[j]),
    decreases c,
{
    if wanted.contains(held[c - 1]) {
        lemma_some_spare(held, wanted, (c - 1) as nat)
    } else {
        c - 1
    }
}

/// Replacing what slot `j` holds by a new position drops the one and adds the
/// other.
proof fn lemma_replaced(held: Seq<int>, j: int, t: int)
    requires
        0 <= j < held.len(),
        held.no_duplicates(),
        !held.contains(t),
    ensures
        forall|x: int| #[trigger]
            held.update(j, t).to_set().contains(x) == (x == t || (held.to_set().contains(x) && x
                != held[j])),
{
    let h = held.update(j, t);
    assert forall|x: int| #[trigger]
        h.to_set().contains(x) == (x == t || (held.to_set().contains(x) && x != held[j])) by {
        if h.contains(x) {
            let i = choose|i: int| 0 <= i < h.len() && h[i] == x;
            if i != j {
                assert(held[i] == x);
            }
        }
        if held.contains(x) && x != held[j] {
            let i = choose|i: int| 0 <= i < held.len() && held[i] == x;
            assert(h[i] == x);
        }
        assert(h[j] == t);
        assert(held.contains(held[j]));
    }
}

/// What the number of ways is from any state on the way: nothing, once a
/// member of the goal has been dropped or passed over; else it depends on how
/// many members of the goal are still to come alone.
proof fn lemma_ways(k: nat, held: Seq<int>, t: nat, n: nat, goal: Set<int>)
    requires
        k <= t <= n,
        held.len() == k,
        held.no_duplicates(),
        forall|i: int| 0 <= i < k ==> 0 <= #[trigger] held[i] < t,
        goal.finite(),
        goal.len() == k,
        forall|x: int| #[trigger] goal.contains(x) ==> 0 <= x < n,
    ensures
        goal_below(goal, t).finite(),
        goal_below(goal, t).len() <= k,
        !goal_below(goal, t).subset_of(held.to_set()) ==> ways(k, held, t, n, goal) == 0,
        goal_below(goal, t).subset_of(held.to_set()) ==> factorial(
            (t - goal_below(goal, t).len()) as nat,
        ) * ways(k, held, t, n, goal) == factorial((k - goal_below(goal, t).len()) as nat)
            * factorial((n - k) as nat),
    decreases n - t,
{
    let wanted = goal_below(goal, t);
    assert(wanted.subset_of(goal));
    vstd::set_lib::lemma_len_subset(wanted, goal);
    held.unique_seq_to_set();
    let f = factorial((n - k) as nat);
    if t == n {
        assert(wanted =~= goal);
        if wanted.subset_of(held.to_set()) {
            vstd::set_lib::lemma_subset_equality(goal, held.to_set());
            assert(f * 1 == 1 * f);
        } else {
            assert(held.to_set() != goal);
        }
    } else {
        let next_wanted = goal_below(goal, t + 1);
        let u = t + 1;
        // What each draw leads to.
        assert forall|j: int| 0 <= j <= t implies {
            let h = #[trigger] place(held, k, t as int, j);
            &&& h.len() == k
            &&& h.no_duplicates()
            &&& forall|i: int| 0 <= i < k ==> 0 <= #[trigger] h[i] < u
        } by {}
        if !wanted.subset_of(held.to_set()) {
            let lost = choose|x: int| wanted.contains(x) && !held.to_set().contains(x);
            assert(!held.contains(lost));
            assert forall|j: int| 0 <= j < t + 1 implies #[trigger] ways(
                k,
                place(held, k, t as int, j),
                u,
                n,
                goal,
            ) == 0 by {
                let h = place(held, k, t as int, j);
                lemma_ways(k, h, u, n, goal);
                assert(next_wanted.contains(lost));
                assert(!h.contains(lost)) by {
                    if h.contains(lost) {
                        let i = choose|i: int| 0 <= i < h.len() && h[i] == lost;
                        if h[i] != t {
                            assert(held[i] == lost);
                        }
                    }
                }
            }
            lemma_sum_of_draws(k, held, t, n, goal, wanted, 0, false, t + 1);
            assert(0 * spare(held, wanted, k) == 0) by (nonlinear_arith);
        } else {
            lemma_spare_count(held, wanted, k);
            assert(held.take(k as int) =~= held);
            assert(held.to_set().intersect(wanted) =~= wanted);
            let tau = wanted.len();
            assert(spare(held, wanted, k) == k - tau);
            if !goal.contains(t as int) {
                assert(next_wanted =~= wanted);
                lemma_ways(k, held, u, n, goal);
                let each = ways(k, held, u, n, goal);
                let a = (t - tau) as nat;
                lemma_factorial_positive(a + 1);
                assert forall|j: int| 0 <= j < t + 1 implies #[trigger] ways(
                    k,
                    place(held, k, t as int, j),
                    u,
                    n,
                    goal,
                ) == if j < k {
                    if wanted.contains(held[j]) {
                        0
                    } else {
                        each
                    }
                } else {
                    each
                } by {
                    let h = place(held, k, t as int, j);
                    lemma_ways(k, h, u, n, goal);
                    if j < k {
                        lemma_replaced(held, j, t as int);
                        if !wanted.contains(held[j]) {
                            assert(wanted.subset_of(h.to_set()));
                            lemma_cancel(factorial(a + 1), ways(k, h, u, n, goal), each);
                        }
                    }
                }
                lemma_sum_of_draws(k, held, t, n, goal, wanted, each, true, t + 1);
                assert(spare(held, wanted, k) + (t + 1 - k) == a + 1);
                assert(factorial(a + 1) == (a + 1) * factorial(a));
                assert(factorial(a) * (each * (a + 1)) == ((a + 1) * factorial(a)) * each)
                    by (nonlinear_arith);
            } else {
                assert(next_wanted =~= wanted.insert(t as int));
                assert(!wanted.contains(t as int));
                assert(next_wanted.subset_of(goal));
                vstd::set_lib::lemma_len_subset(next_wanted, goal);
                assert(next_wanted.len() == tau + 1);
                let b = (k - tau - 1) as nat;
                let g = factorial((t - tau) as nat);
                lemma_factorial_positive((t - tau) as nat);
                let j0 = lemma_some_spare(held, wanted, k);
                let each = ways(k, place(held, k, t as int, j0), u, n, goal);
                lemma_ways(k, place(held, k, t as int, j0), u, n, goal);
                lemma_replaced(held, j0, t as int);
                assert(next_wanted.subset_of(place(held, k, t as int, j0).to_set()));
                assert forall|j: int| 0 <= j < t + 1 implies #[trigger] ways(
                    k,
                    place(held, k, t as int, j),
                    u,
                    n,
                    goal,
                ) == if j < k {
                    if wanted.contains(held[j]) {
                        0
                    } else {
                        each
                    }
                } else {
                    0
                } by {
                    let h = place(held, k, t as int, j);
                    lemma_ways(k, h, u, n, goal);
                    if j < k {
                        lemma_replaced(held, j, t as int);
                        if wanted.contains(held[j]) {
                            assert(next_wanted.contains(held[j]));
                        } else {
                            assert(next_wanted.subset_of(h.to_set()));
                            lemma_cancel(g, ways(k, h, u, n, goal), each);
                        }
                    } else {
                        assert(!held.contains(t as int));
                        assert(next_wanted.contains(t as int));
                    }
                }
                lemma_sum_of_draws(k, held, t, n, goal, wanted, each, false, t + 1);
                assert(factorial(b + 1) == (b + 1) * factorial(b));
                assert(g * (each * (b + 1)) == (b + 1) * (g * each)) by (nonlinear_arith);
                assert((b + 1) * (factorial(b) * f) == ((b + 1) * factorial(b)) * f)
                    by (nonlinear_arith);
            }
        }
    }
}

/// Sampling is uniform. Once the first `k` items of a stream of `n` are kept,
/// the later draws are `(k + 1) * ... * n` in number, all equally likely, and
/// each set of `k` positions is what exactly `(n - k)!` of them end with: no
/// set of that size is likelier than another.
pub proof fn law_every_sample_is_equally_likely(k: nat, n: nat, goal: Set<int>)
    requires
        k <= n,
        goal.finite(),
        goal.len() == k,
        forall|x: int| #[trigger] goal.contains(x) ==> 0 <= x < n,
    ensures
        ways(k, Seq::new(k, |i: int| i), k, n, goal) == factorial((n - k) as nat),
{
    let first = Seq::new(k, |i: int| i);
    let wanted = goal_below(goal, k);
    lemma_ways(k, first, k, n, goal);
    assert(wanted.subset_of(first.to_set())) by {
        assert forall|x: int| wanted.contains(x) implies first.to_set().contains(x) by {
            assert(first[x] == x);
        }
    }
    let u = factorial((k - wanted.len()) as nat);
    lemma_factorial_positive((k - wanted.len()) as nat);
    lemma_cancel(u, ways(k, first, k, n, goal), factorial((n - k) as nat));
}

} // verus!
