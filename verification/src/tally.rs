//! Counting labels and ranking them by how often they occur.

use vstd::prelude::*;
use vstd::string::*;

use crate::text::{
    before, comes_before, lemma_before_irreflexive, lemma_before_total, lemma_before_transitive,
    same, texts,
};

verus! {

/// How often `l` occurs among `labels`.
pub open spec fn times(labels: Seq<Seq<char>>, l: Seq<char>) -> nat
    decreases labels.len(),
{
    if labels.len() == 0 {
        0
    } else {
        times(labels.drop_last(), l) + if labels.last() == l {
            1nat
        } else {
            0
        }
    }
}

/// What a list of counted labels holds.
pub open spec fn counts(v: Seq<(String, usize)>) -> Seq<(Seq<char>, nat)> {
    v.map_values(|p: (String, usize)| (p.0@, p.1 as nat))
}

/// Whether `r` lists each of `labels` once, with how often it occurs.
pub open spec fn is_tally(r: Seq<(Seq<char>, nat)>, labels: Seq<Seq<char>>) -> bool {
    &&& forall|i: int|
        0 <= i < r.len() ==> labels.contains((#[trigger] r[i]).0) && r[i].1 == times(
            labels,
            r[i].0,
        )
    &&& forall|i: int, j: int|
        0 <= i < j < r.len() ==> (#[trigger] r[i]).0 != (#[trigger] r[j]).0
    &&& forall|l: Seq<char>|
        #[trigger] labels.contains(l) ==> exists|i: int| 0 <= i < r.len() && (#[trigger] r[i]).0 == l
}

/// Whether `a` ranks ahead of `b`: it is counted more often, or as often and
/// comes before in the order of texts.
pub open spec fn ahead(a: (Seq<char>, nat), b: (Seq<char>, nat)) -> bool {
    a.1 > b.1 || (a.1 == b.1 && before(a.0, b.0))
}

/// Whether `r` is in order of rank.
pub open spec fn ranked(r: Seq<(Seq<char>, nat)>) -> bool {
    forall|i: int, j: int| 0 <= i < j < r.len() ==> ahead(#[trigger] r[i], #[trigger] r[j])
}

/// Whether `r` is the ranking of `labels`: each of them once, with how often
/// it occurs, most frequent first and equals in the order of texts.
pub open spec fn is_ranking(r: Seq<(Seq<char>, nat)>, labels: Seq<Seq<char>>) -> bool {
    is_tally(r, labels) && ranked(r)
}

/// A label occurs at most as often as there are labels, and at least once
/// where it is among them.
pub proof fn lemma_times_bound(labels: Seq<Seq<char>>, l: Seq<char>)
    ensures
        times(labels, l) <= labels.len(),
        labels.contains(l) ==> times(labels, l) > 0,
        times(labels, l) > 0 ==> labels.contains(l),
    decreases labels.len(),
{
    if labels.len() > 0 {
        lemma_times_bound(labels.drop_last(), l);
        if labels.contains(l) && labels.last() != l {
            let i = choose|i: int| 0 <= i < labels.len() && labels[i] == l;
            assert(labels.drop_last()[i] == l);
        }
        if labels.drop_last().contains(l) {
            let i = choose|i: int|
                0 <= i < labels.drop_last().len() && labels.drop_last()[i] == l;
            assert(labels[i] == l);
        }
    }
}

/// Counts each label, in the order in which they first occur.
pub fn tally(labels: &Vec<String>) -> (r: Vec<(String, usize)>)
    ensures
        is_tally(counts(r@), texts(labels@)),
{
    let mut r: Vec<(String, usize)> = Vec::new();
    let ghost all = texts(labels@);
    let mut i: usize = 0;
    while i < labels.len()
        invariant
            i <= labels@.len(),
            all == texts(labels@),
            is_tally(counts(r@), all.take(i as int)),
        decreases labels@.len() - i,
    {
        let ghost seen = all.take(i as int);
        let ghost next = all.take(i + 1);
        let ghost l = labels@[i as int]@;
        let ghost c = counts(r@);
        proof {
            assert(next.drop_last() == seen);
            assert(next == seen.push(l));
            assert(forall|k: Seq<char>| #[trigger] next.contains(k) <==> seen.contains(k) || k == l)
                by {
                assert(next[i as int] == l);
                assert forall|k: Seq<char>| seen.contains(k) implies next.contains(k) by {
                    let x = choose|x: int| 0 <= x < seen.len() && seen[x] == k;
                    assert(next[x] == k);
                }
            }
            lemma_times_bound(seen, l);
        }
        let mut k: usize = 0;
        while k < r.len() && !same(r[k].0.as_str(), labels[i].as_str())
            invariant
                k <= r@.len(),
                i < labels@.len(),
                l == labels@[i as int]@,
                c == counts(r@),
                forall|x: int| 0 <= x < k ==> (#[trigger] c[x]).0 != l,
            decreases r@.len() - k,
        {
            assert(c[k as int].0 == r@[k as int].0@);
            k += 1;
        }
        if k < r.len() {
            assert(c[k as int].0 == l);
            assert(c[k as int].1 == r@[k as int].1);
            let label = r[k].0.clone();
            let n: usize = r[k].1;
            r.set(k, (label, n + 1));
            assert(counts(r@) == c.update(k as int, (l, (n + 1) as nat)));
            proof {
                let d = counts(r@);
                assert forall|x: Seq<char>| #[trigger] next.contains(x) implies exists|y: int|
                    0 <= y < d.len() && (#[trigger] d[y]).0 == x by {
                    if x == l {
                        assert(d[k as int].0 == x);
                    } else {
                        assert(seen.contains(x));
                        let y = choose|y: int| 0 <= y < c.len() && (#[trigger] c[y]).0 == x;
                        assert(d[y].0 == x);
                    }
                }
            }
        } else {
            r.push((labels[i].clone(), 1));
            assert(counts(r@) == c.push((l, 1)));
            proof {
                let d = counts(r@);
                assert(!seen.contains(l));
                assert forall|x: Seq<char>| #[trigger] next.contains(x) implies exists|y: int|
                    0 <= y < d.len() && (#[trigger] d[y]).0 == x by {
                    if x == l {
                        assert(d[k as int].0 == x);
                    } else {
                        assert(seen.contains(x));
                        let y = choose|y: int| 0 <= y < c.len() && (#[trigger] c[y]).0 == x;
                        assert(d[y].0 == x);
                    }
                }
            }
        }
        i += 1;
    }
    assert(all.take(i as int) == all);
    r
}

/// Of two counted labels that differ, one ranks ahead of the other, and not
/// both; and the order is transitive.
pub proof fn lemma_ahead(a: (Seq<char>, nat), b: (Seq<char>, nat), c: (Seq<char>, nat))
    ensures
        a.0 != b.0 ==> ahead(a, b) || ahead(b, a),
        !(ahead(a, b) && ahead(b, a)),
        ahead(a, b) && ahead(b, c) ==> ahead(a, c),
{
    lemma_before_total(a.0, b.0);
    if before(a.0, b.0) && before(b.0, c.0) {
        lemma_before_transitive(a.0, b.0, c.0);
    }
}

fn goes_ahead(a: &(String, usize), b: &(String, usize)) -> (r: bool)
    ensures
        r == ahead((a.0@, a.1 as nat), (b.0@, b.1 as nat)),
{
    a.1 > b.1 || (a.1 == b.1 && comes_before(a.0.as_str(), b.0.as_str()))
}

/// Puts `x` into its place in a list in order of rank.
fn insert_ranked(list: &mut Vec<(String, usize)>, x: (String, usize))
    requires
        ranked(counts(old(list)@)),
        forall|i: int| 0 <= i < old(list)@.len() ==> (#[trigger] counts(old(list)@)[i]).0 != x.0@,
    ensures
        ranked(counts(final(list)@)),
        exists|k: int|
            0 <= k <= old(list)@.len() && counts(final(list)@) == #[trigger] counts(
                old(list)@,
            ).insert(k, (x.0@, x.1 as nat)),
{
    let ghost c = counts(list@);
    let ghost v = (x.0@, x.1 as nat);
    let mut k: usize = 0;
    while k < list.len() && goes_ahead(&list[k], &x)
        invariant
            k <= list@.len(),
            c == counts(list@),
            v == (x.0@, x.1 as nat),
            forall|i: int| 0 <= i < k ==> ahead(#[trigger] c[i], v),
        decreases list@.len() - k,
    {
        assert(c[k as int] == (list@[k as int].0@, list@[k as int].1 as nat));
        k += 1;
    }
    list.insert(k, x);
    proof {
        let d = counts(list@);
        assert(d == c.insert(k as int, v));
        assert forall|i: int| k <= i < c.len() implies ahead(v, #[trigger] c[i]) by {
            lemma_ahead(c[k as int], v, v);
            lemma_ahead(v, c[k as int], c[i]);
        }
        assert forall|i: int, j: int| 0 <= i < j < d.len() implies ahead(
            #[trigger] d[i],
            #[trigger] d[j],
        ) by {
            let x = if i < k {
                i
            } else {
                i - 1
            };
            let y = if j < k {
                j
            } else {
                j - 1
            };
            if i != k && j != k {
                assert(d[i] == c[x] && d[j] == c[y]);
            } else if i == k {
                assert(d[j] == c[y]);
            } else {
                assert(d[i] == c[x]);
            }
        }
    }
}

proof fn lemma_tally_reordered(
    t: Seq<(Seq<char>, nat)>,
    r: Seq<(Seq<char>, nat)>,
    labels: Seq<Seq<char>>,
)
    requires
        is_tally(t, labels),
        ranked(r),
        forall|i: int| 0 <= i < r.len() ==> t.contains(#[trigger] r[i]),
        forall|i: int| 0 <= i < t.len() ==> r.contains(#[trigger] t[i]),
    ensures
        is_ranking(r, labels),
{
    assert forall|i: int| 0 <= i < r.len() implies labels.contains((#[trigger] r[i]).0) && r[i].1
        == times(labels, r[i].0) by {
        let k = choose|k: int| 0 <= k < t.len() && t[k] == r[i];
        assert(t[k] == r[i]);
    }
    assert forall|i: int, j: int| 0 <= i < j < r.len() implies (#[trigger] r[i]).0 != (
    #[trigger] r[j]).0 by {
        if r[i].0 == r[j].0 {
            assert(r[i].1 == r[j].1);
            lemma_before_irreflexive(r[i].0);
            assert(ahead(r[i], r[j]));
        }
    }
    assert forall|l: Seq<char>| #[trigger] labels.contains(l) implies exists|i: int|
        0 <= i < r.len() && (#[trigger] r[i]).0 == l by {
        let k = choose|k: int| 0 <= k < t.len() && (#[trigger] t[k]).0 == l;
        assert(r.contains(t[k]));
        let i = choose|i: int| 0 <= i < r.len() && r[i] == t[k];
        assert(r[i].0 == l);
    }
}

/// Counts the labels and ranks them, most frequent first.
pub fn rank(labels: &Vec<String>) -> (r: Vec<(String, usize)>)
    ensures
        is_ranking(counts(r@), texts(labels@)),
{
    let t = tally(labels);
    let ghost all = counts(t@);
    let ghost lab = texts(labels@);
    let mut r: Vec<(String, usize)> = Vec::new();
    let mut i: usize = 0;
    while i < t.len()
        invariant
            i <= t@.len(),
            all == counts(t@),
            is_tally(all, lab),
            ranked(counts(r@)),
            forall|k: int|
                0 <= k < r@.len() ==> all.take(i as int).contains(#[trigger] counts(r@)[k]),
            forall|k: int| 0 <= k < i ==> counts(r@).contains(#[trigger] all[k]),
        decreases t@.len() - i,
    {
        let ghost c = counts(r@);
        let ghost v = all[i as int];
        assert forall|k: int| 0 <= k < r@.len() implies (#[trigger] counts(r@)[k]).0 != v.0 by {
            assert(all.take(i as int).contains(c[k]));
            let x = choose|x: int| 0 <= x < i && all.take(i as int)[x] == c[k];
            assert(all[x] == c[k]);
        }
        let label = t[i].0.clone();
        let n: usize = t[i].1;
        insert_ranked(&mut r, (label, n));
        proof {
            let d = counts(r@);
            let p = choose|p: int| 0 <= p <= c.len() && d == #[trigger] c.insert(p, v);
            let now = all.take(i + 1);
            assert(now[i as int] == v);
            assert forall|k: int| 0 <= k < d.len() implies now.contains(#[trigger] d[k]) by {
                if k != p {
                    let y = if k < p {
                        k
                    } else {
                        k - 1
                    };
                    assert(d[k] == c[y]);
                    assert(all.take(i as int).contains(c[y]));
                    let x = choose|x: int| 0 <= x < i && all.take(i as int)[x] == c[y];
                    assert(now[x] == d[k]);
                }
            }
            assert forall|k: int| 0 <= k < i + 1 implies d.contains(#[trigger] all[k]) by {
                if k == i {
                    assert(d[p] == v);
                } else {
                    assert(c.contains(all[k]));
                    let y = choose|y: int| 0 <= y < c.len() && c[y] == all[k];
                    if y < p {
                        assert(d[y] == all[k]);
                    } else {
                        assert(d[y + 1] == all[k]);
                    }
                }
            }
        }
        i += 1;
    }
    proof {
        assert(all.take(i as int) == all);
        lemma_tally_reordered(all, counts(r@), lab);
    }
    r
}

proof fn lemma_ranking_index(r: Seq<(Seq<char>, nat)>, i: int, j: int)
    requires
        ranked(r),
        0 <= i < r.len(),
        0 <= j < r.len(),
        ahead(r[i], r[j]),
    ensures
        i < j,
{
    if j < i {
        lemma_ahead(r[i], r[j], r[j]);
    } else if i == j {
        lemma_before_irreflexive(r[i].0);
    }
}

proof fn lemma_ranking_shares(
    a: Seq<(Seq<char>, nat)>,
    b: Seq<(Seq<char>, nat)>,
    labels: Seq<Seq<char>>,
    i: int,
) -> (j: int)
    requires
        is_ranking(a, labels),
        is_ranking(b, labels),
        0 <= i < a.len(),
    ensures
        0 <= j < b.len(),
        b[j] == a[i],
{
    assert(labels.contains(a[i].0));
    let j = choose|j: int| 0 <= j < b.len() && (#[trigger] b[j]).0 == a[i].0;
    j
}

proof fn lemma_ranking_prefix(
    a: Seq<(Seq<char>, nat)>,
    b: Seq<(Seq<char>, nat)>,
    labels: Seq<Seq<char>>,
    n: int,
)
    requires
        is_ranking(a, labels),
        is_ranking(b, labels),
        0 <= n <= a.len(),
    ensures
        n <= b.len(),
        forall|i: int| 0 <= i < n ==> #[trigger] a[i] == b[i],
    decreases n,
{
    if n > 0 {
        lemma_ranking_prefix(a, b, labels, n - 1);
        let i = n - 1;
        let j = lemma_ranking_shares(a, b, labels, i);
        if j < i {
            assert(a[j] == b[j]);
        } else if j > i {
            let k = lemma_ranking_shares(b, a, labels, i);
            assert(ahead(b[i], b[j]));
            lemma_ranking_index(a, k, i);
            assert(a[k] == b[k]);
        }
    }
}

/// Labels have one ranking.
pub proof fn law_ranking_is_unique(
    a: Seq<(Seq<char>, nat)>,
    b: Seq<(Seq<char>, nat)>,
    labels: Seq<Seq<char>>,
)
    requires
        is_ranking(a, labels),
        is_ranking(b, labels),
    ensures
        a == b,
{
    lemma_ranking_prefix(a, b, labels, a.len() as int);
    lemma_ranking_prefix(b, a, labels, b.len() as int);
    assert(a =~= b);
}

/// The sum of the counts.
pub open spec fn total(r: Seq<(Seq<char>, nat)>) -> nat
    decreases r.len(),
{
    if r.len() == 0 {
        0
    } else {
        total(r.drop_last()) + r.last().1
    }
}

proof fn lemma_without(labels: Seq<Seq<char>>, l: Seq<char>)
    ensures
        ({
            let rest = labels.filter(|x: Seq<char>| x != l);
            &&& labels.len() == rest.len() + times(labels, l)
            &&& forall|k: Seq<char>| k != l ==> #[trigger] times(rest, k) == times(labels, k)
            &&& forall|k: Seq<char>| #[trigger] rest.contains(k) <==> labels.contains(k) && k != l
        }),
    decreases labels.len(),
{
    let f = |x: Seq<char>| x != l;
    let rest = labels.filter(f);
    reveal(Seq::filter);
    if labels.len() > 0 {
        let less = labels.drop_last();
        lemma_without(less, l);
        if labels.last() != l {
            assert(rest.drop_last() == less.filter(f));
        }
        assert forall|k: Seq<char>| k != l implies #[trigger] times(rest, k) == times(labels, k) by {
            assert(times(less.filter(f), k) == times(less, k));
        }
    }
    assert forall|k: Seq<char>| #[trigger] rest.contains(k) <==> labels.contains(k) && k != l by {
        lemma_times_bound(rest, k);
        lemma_times_bound(labels, k);
        if k == l {
            assert(!rest.contains(l)) by {
                if rest.contains(l) {
                    let i = choose|i: int| 0 <= i < rest.len() && rest[i] == l;
                    labels.lemma_filter_pred(f, i);
                }
            }
        } else {
            assert(times(rest, k) == times(labels, k));
        }
    }
}

/// Every label is counted once: the counts of a tally add up to the number of
/// labels.
pub proof fn law_counts_add_up(r: Seq<(Seq<char>, nat)>, labels: Seq<Seq<char>>)
    requires
        is_tally(r, labels),
    ensures
        total(r) == labels.len(),
    decreases r.len(),
{
    if r.len() == 0 {
        if labels.len() > 0 {
            assert(labels.contains(labels[0]));
        }
    } else {
        let l = r.last().0;
        let less = r.drop_last();
        let rest = labels.filter(|x: Seq<char>| x != l);
        lemma_without(labels, l);
        assert forall|i: int| 0 <= i < less.len() implies rest.contains((#[trigger] less[i]).0)
            && less[i].1 == times(rest, less[i].0) by {
            assert(less[i] == r[i]);
            assert(r[i].0 != r[r.len() - 1].0);
            assert(labels.contains(r[i].0));
            assert(times(rest, r[i].0) == times(labels, r[i].0));
        }
        assert forall|i: int, j: int| 0 <= i < j < less.len() implies (#[trigger] less[i]).0 != (
        #[trigger] less[j]).0 by {
            assert(r[i].0 != r[j].0);
        }
        assert forall|k: Seq<char>| #[trigger] rest.contains(k) implies exists|i: int|
            0 <= i < less.len() && (#[trigger] less[i]).0 == k by {
            assert(labels.contains(k) && k != l);
            let i = choose|i: int| 0 <= i < r.len() && (#[trigger] r[i]).0 == k;
            assert(less[i].0 == k);
        }
        law_counts_add_up(less, rest);
        assert(r[r.len() - 1].1 == times(labels, l));
    }
}

/// How many different labels there are.
pub fn distinct(labels: &Vec<String>) -> (n: usize)
    ensures
        n == texts(labels@).to_set().len(),
{
    let t = tally(labels);
    proof {
        let c = counts(t@);
        let names = c.map_values(|p: (Seq<char>, nat)| p.0);
        let all = texts(labels@);
        assert(names.no_duplicates()) by {
            assert forall|i: int, j: int|
                0 <= i < names.len() && 0 <= j < names.len() && i != j implies names[i]
                != names[j] by {
                if i < j {
                    assert(c[i].0 != c[j].0);
                } else {
                    assert(c[j].0 != c[i].0);
                }
            }
        }
        names.unique_seq_to_set();
        assert(names.to_set() =~= all.to_set()) by {
            assert forall|l: Seq<char>| names.to_set().contains(l) implies all.to_set().contains(
                l,
            ) by {
                let i = choose|i: int| 0 <= i < names.len() && names[i] == l;
                assert(all.contains(c[i].0));
            }
            assert forall|l: Seq<char>| all.to_set().contains(l) implies names.to_set().contains(
                l,
            ) by {
                assert(all.contains(l));
                let i = choose|i: int| 0 <= i < c.len() && (#[trigger] c[i]).0 == l;
                assert(names[i] == l);
            }
        }
    }
    t.len()
}

} // verus!
