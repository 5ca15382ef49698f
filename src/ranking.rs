//! Ranking of nodes by how many path steps occupy them.
use vstd::prelude::*;

verus! {

/// A node identifier paired with its occupancy count.
pub type Occupancy = (u64, usize);

/// `s` with `x` placed after every entry whose count is at most `x`'s,
/// walking in from the back (the insertion step of a stable sort).
pub open spec fn insert_by_count(s: Seq<Occupancy>, x: Occupancy) -> Seq<Occupancy>
    decreases s.len(),
{
    if s.len() == 0 {
        seq![x]
    } else if s.last().1 <= x.1 {
        s.push(x)
    } else {
        insert_by_count(s.drop_last(), x).push(s.last())
    }
}

/// The stable ascending sort of `s` by count.
pub open spec fn sort_by_count(s: Seq<Occupancy>) -> Seq<Occupancy>
    decreases s.len(),
{
    if s.len() == 0 {
        s
    } else {
        insert_by_count(sort_by_count(s.drop_last()), s.last())
    }
}

/// Adjacent entries never decrease in count.
pub open spec fn counts_non_decreasing(s: Seq<Occupancy>) -> bool {
    forall|i: int| 0 <= i < s.len() - 1 ==> #[trigger] s[i].1 <= s[i + 1].1
}

/// The sum of all counts.
pub open spec fn count_sum(s: Seq<Occupancy>) -> int
    decreases s.len(),
{
    if s.len() == 0 {
        0
    } else {
        count_sum(s.drop_last()) + s.last().1
    }
}

proof fn lemma_insert_sorted(s: Seq<Occupancy>, x: Occupancy)
    requires
        counts_non_decreasing(s),
    ensures
        counts_non_decreasing(insert_by_count(s, x)),
        insert_by_count(s, x).len() == s.len() + 1,
        count_sum(insert_by_count(s, x)) == count_sum(s) + x.1,
        insert_by_count(s, x).last().1 == if s.len() == 0 || s.last().1 <= x.1 { x.1 } else { s.last().1 },
    decreases s.len(),
{
    if s.len() == 0 {
        assert(count_sum(seq![x].drop_last()) == 0) by {
            assert(seq![x].drop_last() =~= Seq::<Occupancy>::empty());
        }
    } else if s.last().1 <= x.1 {
        assert(s.push(x).drop_last() =~= s);
    } else {
        let t = s.drop_last();
        assert(counts_non_decreasing(t)) by {
            assert forall|i: int| 0 <= i < t.len() - 1 implies #[trigger] t[i].1 <= t[i + 1].1 by {
                assert(s[i].1 <= s[i + 1].1);
            }
        }
        lemma_insert_sorted(t, x);
        let u = insert_by_count(t, x);
        assert(u.push(s.last()).drop_last() =~= u);
        if t.len() > 0 {
            assert(s[t.len() - 1].1 <= s[t.len() as int].1);
        }
    }
}

/// The sort yields counts in non-decreasing order, one entry per input
/// entry, with the same total count.
pub proof fn lemma_sort_by_count(s: Seq<Occupancy>)
    ensures
        counts_non_decreasing(sort_by_count(s)),
        sort_by_count(s).len() == s.len(),
        count_sum(sort_by_count(s)) == count_sum(s),
    decreases s.len(),
{
    if s.len() > 0 {
        lemma_sort_by_count(s.drop_last());
        lemma_insert_sorted(sort_by_count(s.drop_last()), s.last());
    }
}

/// The stable merge of two sequences, built from the back: on equal counts
/// the entry of `b` goes last, so entries of `a` precede those of `b`.
pub open spec fn merge_by_count(a: Seq<Occupancy>, b: Seq<Occupancy>) -> Seq<Occupancy>
    decreases a.len() + b.len(),
{
    if a.len() == 0 {
        b
    } else if b.len() == 0 {
        a
    } else if a.last().1 > b.last().1 {
        merge_by_count(a.drop_last(), b).push(a.last())
    } else {
        merge_by_count(a, b.drop_last()).push(b.last())
    }
}

proof fn lemma_insert_merge(a: Seq<Occupancy>, b: Seq<Occupancy>, x: Occupancy)
    ensures
        insert_by_count(merge_by_count(a, b), x) == merge_by_count(a, insert_by_count(b, x)),
    decreases a.len() + b.len(),
{
    let e = Seq::<Occupancy>::empty();
    assert(insert_by_count(e, x) == seq![x]);
    assert(seq![x].drop_last() =~= e);
    assert(seq![x].last() == x);
    if a.len() == 0 {
    } else if b.len() == 0 {
        let a1 = a.drop_last();
        assert(merge_by_count(a, b) == a);
        assert(merge_by_count(a1, e) == a1);
        assert(merge_by_count(a, e) == a);
        lemma_insert_merge(a1, b, x);
        assert(a1.push(a.last()) =~= a);
        if a.last().1 <= x.1 {
            assert(merge_by_count(a, seq![x]) == merge_by_count(a, e).push(x));
        } else {
            assert(merge_by_count(a, seq![x]) == merge_by_count(a1, seq![x]).push(a.last()));
            assert(insert_by_count(a, x) == insert_by_count(a1, x).push(a.last()));
        }
    } else if a.last().1 > b.last().1 {
        lemma_insert_merge(a.drop_last(), b, x);
        let m1 = merge_by_count(a.drop_last(), b);
        assert(m1.push(a.last()).drop_last() =~= m1);
        assert(merge_by_count(a, b) == m1.push(a.last()));
        let c = insert_by_count(b, x);
        if a.last().1 <= x.1 {
            assert(b.push(x).drop_last() =~= b);
            assert(c == b.push(x));
            assert(merge_by_count(a, c) == merge_by_count(a, b).push(x));
        } else {
            assert(c.len() > 0 && c.last().1 < a.last().1) by {
                if b.last().1 <= x.1 {
                    assert(c == b.push(x));
                } else {
                    assert(c == insert_by_count(b.drop_last(), x).push(b.last()));
                }
            }
            assert(merge_by_count(a, c) == merge_by_count(a.drop_last(), c).push(a.last()));
        }
    } else {
        lemma_insert_merge(a, b.drop_last(), x);
        let m1 = merge_by_count(a, b.drop_last());
        assert(m1.push(b.last()).drop_last() =~= m1);
        assert(merge_by_count(a, b) == m1.push(b.last()));
        if b.last().1 <= x.1 {
            assert(b.push(x).drop_last() =~= b);
            assert(merge_by_count(a, b.push(x)) == merge_by_count(a, b).push(x));
        } else {
            let c = insert_by_count(b.drop_last(), x);
            assert(c.push(b.last()).drop_last() =~= c);
            assert(insert_by_count(b, x) == c.push(b.last()));
            assert(merge_by_count(a, c.push(b.last())) == merge_by_count(a, c).push(b.last()));
        }
    }
}

/// Sorting a concatenation is merging the sorted halves.
proof fn lemma_sort_concat(s1: Seq<Occupancy>, s2: Seq<Occupancy>)
    ensures
        sort_by_count(s1 + s2) == merge_by_count(sort_by_count(s1), sort_by_count(s2)),
    decreases s2.len(),
{
    if s2.len() == 0 {
        assert(s1 + s2 =~= s1);
    } else {
        let t = s2.drop_last();
        lemma_sort_concat(s1, t);
        assert((s1 + s2).drop_last() =~= s1 + t);
        assert((s1 + s2).last() == s2.last());
        lemma_insert_merge(sort_by_count(s1), sort_by_count(t), s2.last());
    }
}

/// Merges two vectors into the stable merge of their contents.
fn merge(a: Vec<Occupancy>, b: Vec<Occupancy>) -> (r: Vec<Occupancy>)
    requires
        a@.len() + b@.len() <= usize::MAX,
    ensures
        r@ == merge_by_count(a@, b@),
{
    let n = a.len() + b.len();
    let mut out: Vec<Occupancy> = Vec::new();
    let mut k: usize = 0;
    while k < n
        invariant
            k <= n,
            out@.len() == k,
        decreases n - k,
    {
        out.push((0, 0));
        k = k + 1;
    }
    let mut i: usize = a.len();
    let mut j: usize = b.len();
    proof {
        assert(a@.subrange(0, i as int) =~= a@);
        assert(b@.subrange(0, j as int) =~= b@);
        assert(merge_by_count(a@, b@) + out@.subrange(n as int, n as int) =~= merge_by_count(a@, b@));
    }
    while i > 0 || j > 0
        invariant
            i <= a@.len(),
            j <= b@.len(),
            out@.len() == n,
            n == a@.len() + b@.len(),
            merge_by_count(a@, b@) == merge_by_count(a@.subrange(0, i as int), b@.subrange(0, j as int))
                + out@.subrange(i + j, n as int),
        decreases i + j,
    {
        let ghost sa = a@.subrange(0, i as int);
        let ghost sb = b@.subrange(0, j as int);
        let ghost old_out = out@;
        let k = i + j - 1;
        if j == 0 || (i > 0 && a[i - 1].1 > b[j - 1].1) {
            let x = a[i - 1];
            out.set(k, x);
            proof {
                assert(sa.drop_last() =~= a@.subrange(0, i - 1));
                if j == 0 {
                    assert(sb =~= Seq::<Occupancy>::empty());
                    assert(merge_by_count(sa.drop_last(), sb) == sa.drop_last());
                }
                assert(merge_by_count(sa, sb) == merge_by_count(sa.drop_last(), sb).push(x));
                assert(out@.subrange(k as int, n as int) =~= seq![x] + old_out.subrange(k + 1, n as int));
                assert(merge_by_count(sa.drop_last(), sb).push(x) + old_out.subrange(k + 1, n as int)
                    =~= merge_by_count(sa.drop_last(), sb) + out@.subrange(k as int, n as int));
            }
            i = i - 1;
        } else {
            let x = b[j - 1];
            out.set(k, x);
            proof {
                assert(sb.drop_last() =~= b@.subrange(0, j - 1));
                assert(merge_by_count(sa, sb) == merge_by_count(sa, sb.drop_last()).push(x));
                assert(out@.subrange(k as int, n as int) =~= seq![x] + old_out.subrange(k + 1, n as int));
                assert(merge_by_count(sa, sb.drop_last()).push(x) + old_out.subrange(k + 1, n as int)
                    =~= merge_by_count(sa, sb.drop_last()) + out@.subrange(k as int, n as int));
            }
            j = j - 1;
        }
    }
    proof {
        assert(a@.subrange(0, 0) =~= Seq::<Occupancy>::empty());
        assert(b@.subrange(0, 0) =~= Seq::<Occupancy>::empty());
        assert(out@.subrange(0, n as int) =~= out@);
    }
    out
}

/// Sorts `nodes[lo..hi]` stably by count.
fn merge_sort(nodes: &Vec<Occupancy>, lo: usize, hi: usize) -> (r: Vec<Occupancy>)
    requires
        lo <= hi <= nodes@.len(),
    ensures
        r@ == sort_by_count(nodes@.subrange(lo as int, hi as int)),
    decreases hi - lo,
{
    if hi - lo <= 1 {
        let mut out: Vec<Occupancy> = Vec::new();
        if hi - lo == 1 {
            out.push(nodes[lo]);
            proof {
                let s = nodes@.subrange(lo as int, hi as int);
                assert(s.drop_last() =~= Seq::<Occupancy>::empty());
                assert(sort_by_count(s.drop_last()) == Seq::<Occupancy>::empty());
                assert(insert_by_count(Seq::<Occupancy>::empty(), s.last()) == seq![s.last()]);
                assert(out@ =~= seq![s.last()]);
            }
        } else {
            proof {
                assert(nodes@.subrange(lo as int, hi as int) =~= Seq::<Occupancy>::empty());
            }
        }
        out
    } else {
        let mid = lo + (hi - lo) / 2;
        let left = merge_sort(nodes, lo, mid);
        let right = merge_sort(nodes, mid, hi);
        proof {
            let s1 = nodes@.subrange(lo as int, mid as int);
            let s2 = nodes@.subrange(mid as int, hi as int);
            assert(s1 + s2 =~= nodes@.subrange(lo as int, hi as int));
            lemma_sort_concat(s1, s2);
            lemma_sort_by_count(s1);
            lemma_sort_by_count(s2);
            assert(left@.len() + right@.len() == hi - lo);
        }
        merge(left, right)
    }
}

/// Sorts `nodes` ascending by count; entries with equal counts keep
/// their input order.
pub fn rank_by_occupancy(nodes: Vec<Occupancy>) -> (r: Vec<Occupancy>)
    ensures
        r@ == sort_by_count(nodes@),
        counts_non_decreasing(r@),
        r@.len() == nodes@.len(),
        count_sum(r@) == count_sum(nodes@),
{
    let r = merge_sort(&nodes, 0, nodes.len());
    proof {
        assert(nodes@.subrange(0, nodes@.len() as int) =~= nodes@);
        lemma_sort_by_count(nodes@);
    }
    r
}

} // verus!
