use vstd::prelude::*;
use vstd::seq_lib::{to_multiset_build, to_multiset_contains};
use crate::config::{Raidz2Config, cost_of};

verus! {

/// The total price of a configuration, the key results are ranked by.
pub open spec fn cost_key(c: Raidz2Config) -> int {
    cost_of(c.disk_spec().cost as int, c.count_spec() as int)
}

/// `x` placed into `s` after every element whose price is at most its own,
/// counting from the back: where `s` is ranked, right after the last element
/// not dearer than `x`.
pub open spec fn insert_by_cost(s: Seq<Raidz2Config>, x: Raidz2Config) -> Seq<Raidz2Config>
    decreases s.len(),
{
    if s.len() == 0 {
        seq![x]
    } else if cost_key(s.last()) <= cost_key(x) {
        s.push(x)
    } else {
        insert_by_cost(s.drop_last(), x).push(s.last())
    }
}

/// `s` ranked by total price, ascending; configurations of equal price keep
/// their order in `s`.
pub open spec fn ranked_by_cost(s: Seq<Raidz2Config>) -> Seq<Raidz2Config>
    decreases s.len(),
{
    if s.len() == 0 {
        s
    } else {
        insert_by_cost(ranked_by_cost(s.drop_last()), s.last())
    }
}

/// Prices never fall along `s`.
pub open spec fn is_ranked(s: Seq<Raidz2Config>) -> bool {
    forall|i: int, j: int| 0 <= i < j < s.len() ==> cost_key(#[trigger] s[i]) <= cost_key(#[trigger] s[j])
}

/// Inserting at the position right after the last element not dearer than `x`
/// is `insert_by_cost`.
proof fn lemma_insert_at(s: Seq<Raidz2Config>, x: Raidz2Config, p: int)
    requires
        0 <= p <= s.len(),
        p == 0 || cost_key(s[p - 1]) <= cost_key(x),
        forall|q: int| p <= q < s.len() ==> cost_key(#[trigger] s[q]) > cost_key(x),
    ensures
        insert_by_cost(s, x) == s.insert(p, x),
    decreases s.len(),
{
    if s.len() == 0 {
        assert(s.insert(p, x) =~= seq![x]);
    } else if cost_key(s.last()) <= cost_key(x) {
        assert(s.insert(p, x) =~= s.push(x));
    } else {
        lemma_insert_at(s.drop_last(), x, p);
        assert(s.drop_last().insert(p, x).push(s.last()) =~= s.insert(p, x));
    }
}

/// `insert_by_cost` keeps a ranked sequence ranked and adds exactly `x`.
proof fn lemma_insert_ranked(s: Seq<Raidz2Config>, x: Raidz2Config)
    requires
        is_ranked(s),
    ensures
        is_ranked(insert_by_cost(s, x)),
        insert_by_cost(s, x).to_multiset() == s.to_multiset().insert(x),
    decreases s.len(),
{
    broadcast use to_multiset_build, to_multiset_contains, vstd::multiset::group_multiset_axioms;

    if s.len() == 0 {
        assert(seq![x] =~= Seq::<Raidz2Config>::empty().push(x));
    } else if cost_key(s.last()) <= cost_key(x) {
    } else {
        let t = s.drop_last();
        lemma_insert_ranked(t, x);
        assert(s =~= t.push(s.last()));
        let u = insert_by_cost(t, x);
        assert forall|i: int| 0 <= i < u.len() implies cost_key(#[trigger] u[i]) <= cost_key(s.last()) by {
            assert(u[i] == u[i]);
            assert(u.contains(u[i]));
            assert(t.to_multiset().insert(x).count(u[i]) > 0);
            if u[i] != x {
                assert(t.to_multiset().count(u[i]) > 0);
                assert(t.contains(u[i]));
                let k = choose|k: int| 0 <= k < t.len() && t[k] == u[i];
                assert(s[k] == u[i]);
            }
        }
    }
}

/// The ranking of any sequence is ranked by price and holds the same
/// configurations, each as often as the sequence does.
pub proof fn lemma_ranked_by_cost(s: Seq<Raidz2Config>)
    ensures
        is_ranked(ranked_by_cost(s)),
        ranked_by_cost(s).to_multiset() == s.to_multiset(),
    decreases s.len(),
{
    broadcast use to_multiset_build;

    if s.len() > 0 {
        lemma_ranked_by_cost(s.drop_last());
        lemma_insert_ranked(ranked_by_cost(s.drop_last()), s.last());
        assert(s =~= s.drop_last().push(s.last()));
    }
}

/// Ranks `configs` by total price, ascending; configurations of equal price
/// keep their order.
pub fn sort_by_cost(configs: &Vec<Raidz2Config>) -> (r: Vec<Raidz2Config>)
    ensures
        r@ == ranked_by_cost(configs@),
{
    let mut r: Vec<Raidz2Config> = Vec::new();
    let mut i: usize = 0;
    while i < configs.len()
        invariant
            0 <= i <= configs@.len(),
            r@ == ranked_by_cost(configs@.subrange(0, i as int)),
        decreases configs@.len() - i,
    {
        let x = configs[i];
        let key = x.total_cost();
        let mut p: usize = r.len();
        while p > 0 && r[p - 1].total_cost() > key
            invariant
                0 <= p <= r@.len(),
                key == cost_key(x),
                forall|q: int| p <= q < r@.len() ==> cost_key(#[trigger] r@[q]) > cost_key(x),
            decreases p,
        {
            p = p - 1;
        }
        proof {
            lemma_insert_at(r@, x, p as int);
            let prefix = configs@.subrange(0, i as int + 1);
            assert(prefix.drop_last() =~= configs@.subrange(0, i as int));
        }
        r.insert(p, x);
        i = i + 1;
    }
    proof {
        assert(configs@.subrange(0, configs@.len() as int) =~= configs@);
    }
    r
}

} // verus!
