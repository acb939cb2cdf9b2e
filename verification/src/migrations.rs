use std::collections::HashMap;
use vstd::prelude::*;

use crate::constants::ID;
use vstd::std_specs::iter::IteratorSpec;

verus! {

broadcast use vstd::std_specs::hash::group_hash_axioms;

/// The sum of all the counts in a map from identifiers to counts.
pub open spec fn total_count(m: Map<ID, usize>) -> int
    decreases m.dom().len(),
{
    if m.dom().finite() && m.dom().len() > 0 {
        let k = m.dom().choose();
        m[k] + total_count(m.remove(k))
    } else {
        0
    }
}

/// The map after one more migration of `id`: its count goes up by one, starting from
/// zero when absent.
pub open spec fn counted(m: Map<ID, usize>, id: ID) -> Map<ID, usize> {
    if m.contains_key(id) {
        m.insert(id, (m[id] + 1) as usize)
    } else {
        m.insert(id, 1)
    }
}

/// Counting one more migration of `id` stays within `usize`.
pub open spec fn can_count(m: Map<ID, usize>, id: ID) -> bool {
    m.contains_key(id) ==> m[id] < usize::MAX
}

/// The total of a map does not depend on which key is taken out first.
pub proof fn lemma_total_count_remove(m: Map<ID, usize>, k: ID)
    requires
        m.dom().finite(),
        m.contains_key(k),
    ensures
        total_count(m) == m[k] + total_count(m.remove(k)),
    decreases m.dom().len(),
{
    let c = m.dom().choose();
    if c != k {
        let mc = m.remove(c);
        let mk = m.remove(k);
        assert(mc.dom().len() < m.dom().len());
        lemma_total_count_remove(mc, k);
        lemma_total_count_remove(mk, c);
        assert(mc.remove(k) =~= mk.remove(c));
    }
}

/// A map whose counts are all zero totals zero.
pub proof fn lemma_total_count_zeros(m: Map<ID, usize>)
    requires
        forall|k: ID| #[trigger] m.contains_key(k) ==> m[k] == 0,
    ensures
        total_count(m) == 0,
    decreases m.dom().len(),
{
    if m.dom().finite() && m.dom().len() > 0 {
        let k = m.dom().choose();
        let mk = m.remove(k);
        assert forall|j: ID| #[trigger] mk.contains_key(j) implies mk[j] == 0 by {
            assert(m.contains_key(j));
        }
        lemma_total_count_zeros(mk);
    }
}

/// The total after counting one more migration of `id` is one more.
pub proof fn lemma_total_count_counted(m: Map<ID, usize>, id: ID)
    requires
        m.dom().finite(),
        can_count(m, id),
    ensures
        total_count(counted(m, id)) == total_count(m) + 1,
{
    let n = counted(m, id);
    lemma_total_count_remove(n, id);
    if m.contains_key(id) {
        lemma_total_count_remove(m, id);
        assert(n.remove(id) =~= m.remove(id));
    } else {
        assert(n.remove(id) =~= m);
    }
}

/// The sum of the counts of a sequence of (identifier, count) pairs.
pub open spec fn pair_sum(s: Seq<(ID, usize)>) -> int
    decreases s.len(),
{
    if s.len() == 0 {
        0
    } else {
        pair_sum(s.drop_last()) + s.last().1
    }
}

/// The pairs list exactly the entries of `m`, each once.
pub open spec fn lists_entries(s: Seq<(ID, usize)>, m: Map<ID, usize>) -> bool {
    &&& s.len() == m.dom().len()
    &&& s.no_duplicates()
    &&& forall|i: int| 0 <= i < s.len() ==> #[trigger] m.contains_key(s[i].0) && m[s[i].0] == s[i].1
}

proof fn lemma_pair_sum_is_total(s: Seq<(ID, usize)>, m: Map<ID, usize>)
    requires
        m.dom().finite(),
        lists_entries(s, m),
    ensures
        pair_sum(s) == total_count(m),
    decreases s.len(),
{
    if s.len() == 0 {
        assert(m.dom() =~= Set::<ID>::empty()) by {
            if exists|k: ID| m.dom().contains(k) {
                let k = choose|k: ID| m.dom().contains(k);
                assert(m.dom().len() > 0);
            }
        }
    } else {
        let (k, v) = s.last();
        assert(m.contains_key(s[s.len() - 1].0));
        let p = s.drop_last();
        let mk = m.remove(k);
        assert forall|i: int| 0 <= i < p.len() implies #[trigger] mk.contains_key(p[i].0) && mk[p[i].0]
            == p[i].1 by {
            assert(p[i] == s[i]);
            assert(m.contains_key(s[i].0) && m[s[i].0] == s[i].1);
            if s[i].0 == k {
                assert(s[i] == s[s.len() - 1]);
            }
        }
        lemma_total_count_remove(m, k);
        lemma_pair_sum_is_total(p, mk);
    }
}

/// Counts one more migration of `id` in `m`.
pub fn count_migration(m: &mut HashMap<ID, usize>, id: ID)
    requires
        can_count(old(m)@, id),
    ensures
        final(m)@ == counted(old(m)@, id),
{
    let next: usize = match m.get(&id) {
        Some(v) => *v + 1,
        None => 1,
    };
    m.insert(id, next);
}

/// The pairs an iterator over a map yields, as values.
pub open spec fn deref_pairs(s: Seq<(&ID, &usize)>) -> Seq<(ID, usize)> {
    s.map_values(|p: (&ID, &usize)| (*p.0, *p.1))
}

proof fn lemma_pair_sum_prefix(s: Seq<(ID, usize)>, i: int)
    requires
        0 <= i <= s.len(),
    ensures
        0 <= pair_sum(s.take(i)) <= pair_sum(s),
    decreases s.len(),
{
    if s.len() > 0 {
        if i == s.len() {
            assert(s.take(i) =~= s);
            lemma_pair_sum_prefix(s.drop_last(), i - 1);
            assert(s.drop_last().take(i - 1) =~= s.drop_last());
        } else {
            lemma_pair_sum_prefix(s.drop_last(), i);
            assert(s.drop_last().take(i) =~= s.take(i));
        }
    }
}

/// The total of the counts in `m`.
pub fn total_migrations(m: &HashMap<ID, usize>) -> (r: usize)
    requires
        total_count(m@) <= usize::MAX,
    ensures
        r == total_count(m@),
{
    let mut sum: usize = 0;
    let entries = m.iter();
    let ghost all = deref_pairs(entries.remaining());
    proof {
        let v = entries.remaining();
        assert(all.no_duplicates()) by {
            assert forall|i: int, j: int|
                0 <= i < all.len() && 0 <= j < all.len() && i != j implies all[i] != all[j] by {
                assert(v[i] != v[j]);
            }
        }
        assert forall|i: int| 0 <= i < all.len() implies #[trigger] m@.contains_key(all[i].0)
            && m@[all[i].0] == all[i].1 by {
            assert(m@.contains_key(*v[i].0));
        }
        lemma_pair_sum_is_total(all, m@);
    }
    for p in it: entries
        invariant
            all == deref_pairs(it.seq()),
            pair_sum(all) == total_count(m@),
            total_count(m@) <= usize::MAX,
            sum == pair_sum(all.take(it.index() as int)),
    {
        let ghost i = it.index() as int;
        proof {
            assert(all.take(i + 1).drop_last() =~= all.take(i));
            lemma_pair_sum_prefix(all, i + 1);
        }
        sum = sum + *p.1;
    }
    proof {
        assert(all.take(all.len() as int) =~= all);
    }
    sum
}

} // verus!
