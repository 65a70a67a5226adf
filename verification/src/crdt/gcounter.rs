//! Grow-only counter.
use super::replica_id::{
    lemma_bytes_lt_asym, lemma_bytes_lt_irrefl, lemma_bytes_lt_total, lemma_bytes_lt_trans,
    lemma_id_bytes_injective, replica_lt, IdOrder, ReplicaId, id_bytes,
};
use super::{Crdt, CrdtError};
use vstd::prelude::*;

verus! {

/// Grow-only counter: one monotonically increasing component per replica; merge
/// keeps the component-wise maximum.
#[derive(Debug, Eq, PartialEq)]
pub struct GCounter {
    components: Vec<(ReplicaId, u64)>,
}

/// The contents of a component list.
pub open spec fn entries_of(e: Seq<(ReplicaId, u64)>) -> Seq<(Seq<char>, u64)> {
    e.map_values(|p: (ReplicaId, u64)| (p.0@, p.1))
}

/// Components in strictly increasing replica order.
pub open spec fn sorted_ids(s: Seq<(Seq<char>, u64)>) -> bool {
    forall|i: int, j: int| 0 <= i < j < s.len() ==> replica_lt(#[trigger] s[i].0, #[trigger] s[j].0)
}

/// The component of `k`, when present.
pub open spec fn lookup(s: Seq<(Seq<char>, u64)>, k: Seq<char>) -> Option<u64>
    decreases s.len(),
{
    if s.len() == 0 {
        None
    } else if s[0].0 == k {
        Some(s[0].1)
    } else {
        lookup(s.drop_first(), k)
    }
}

/// The components as a map from replica to count.
pub open spec fn map_of(s: Seq<(Seq<char>, u64)>) -> Map<Seq<char>, u64> {
    Map::new(|k: Seq<char>| lookup(s, k) is Some, |k: Seq<char>| lookup(s, k)->0)
}

/// The count of `k` in `m`, zero when absent.
pub open spec fn count_of(m: Map<Seq<char>, u64>, k: Seq<char>) -> u64 {
    if m.dom().contains(k) {
        m[k]
    } else {
        0
    }
}

/// The component-wise maximum of two counters, over the union of their replicas.
pub open spec fn map_max(a: Map<Seq<char>, u64>, b: Map<Seq<char>, u64>) -> Map<Seq<char>, u64> {
    Map::new(
        |k: Seq<char>| a.dom().contains(k) || b.dom().contains(k),
        |k: Seq<char>|
            if count_of(a, k) >= count_of(b, k) {
                count_of(a, k)
            } else {
                count_of(b, k)
            },
    )
}

/// Sum of the first `n` components.
pub open spec fn sum_of(s: Seq<(Seq<char>, u64)>, n: int) -> int
    decreases n,
{
    if n <= 0 {
        0
    } else {
        sum_of(s, n - 1) + s[n - 1].1
    }
}

impl GCounter {
    /// The components, in replica order.
    pub closed spec fn entries(&self) -> Seq<(Seq<char>, u64)> {
        entries_of(self.components@)
    }

    #[verifier::type_invariant]
    spec fn inv(&self) -> bool {
        sorted_ids(entries_of(self.components@))
    }
}

impl View for GCounter {
    type V = Map<Seq<char>, u64>;

    closed spec fn view(&self) -> Map<Seq<char>, u64> {
        map_of(entries_of(self.components@))
    }
}

/// In a sorted list, a replica is found exactly at its position.
proof fn lemma_lookup_at(s: Seq<(Seq<char>, u64)>, i: int)
    requires
        sorted_ids(s),
        0 <= i < s.len(),
    ensures
        lookup(s, s[i].0) == Some(s[i].1),
    decreases i,
{
    if i > 0 {
        assert(replica_lt(s[0].0, s[i].0));
        if s[0].0 == s[i].0 {
            lemma_bytes_lt_irrefl(id_bytes(s[0].0));
        }
        let t = s.drop_first();
        assert(sorted_ids(t)) by {
            assert forall|a: int, b: int| 0 <= a < b < t.len() implies replica_lt(
                #[trigger] t[a].0,
                #[trigger] t[b].0,
            ) by {
                assert(t[a] == s[a + 1] && t[b] == s[b + 1]);
            }
        }
        lemma_lookup_at(t, i - 1);
    }
}

/// A replica absent from a list is not found.
proof fn lemma_lookup_absent(s: Seq<(Seq<char>, u64)>, k: Seq<char>)
    requires
        forall|i: int| 0 <= i < s.len() ==> #[trigger] s[i].0 != k,
    ensures
        lookup(s, k) is None,
    decreases s.len(),
{
    if s.len() > 0 {
        let t = s.drop_first();
        assert forall|i: int| 0 <= i < t.len() implies #[trigger] t[i].0 != k by {
            assert(t[i] == s[i + 1]);
        }
        lemma_lookup_absent(t, k);
    }
}

/// The map of a sorted list: each listed replica maps to its count, nothing else
/// is present.
proof fn lemma_map_of(s: Seq<(Seq<char>, u64)>, k: Seq<char>)
    requires
        sorted_ids(s),
    ensures
        map_of(s).dom().contains(k) <==> exists|i: int| 0 <= i < s.len() && #[trigger] s[i].0 == k,
        forall|i: int| 0 <= i < s.len() && #[trigger] s[i].0 == k ==> map_of(s)[k] == s[i].1,
{
    if exists|i: int| 0 <= i < s.len() && #[trigger] s[i].0 == k {
        let i = choose|i: int| 0 <= i < s.len() && #[trigger] s[i].0 == k;
        lemma_lookup_at(s, i);
        assert forall|j: int| 0 <= j < s.len() && #[trigger] s[j].0 == k implies map_of(s)[k]
            == s[j].1 by {
            lemma_lookup_at(s, j);
        }
    } else {
        lemma_lookup_absent(s, k);
    }
}

/// Dropping the first component of a sorted list removes its replica from the map.
proof fn lemma_map_of_drop_first(s: Seq<(Seq<char>, u64)>)
    requires
        sorted_ids(s),
        s.len() > 0,
    ensures
        sorted_ids(s.drop_first()),
        map_of(s.drop_first()) == map_of(s).remove(s[0].0),
{
    let t = s.drop_first();
    assert forall|a: int, b: int| 0 <= a < b < t.len() implies replica_lt(#[trigger] t[a].0, #[trigger] t[b].0) by {
        assert(t[a] == s[a + 1] && t[b] == s[b + 1]);
    }
    assert forall|k: Seq<char>|
        #![trigger map_of(t).dom().contains(k)]
        #![trigger map_of(s).remove(s[0].0).dom().contains(k)]
        map_of(t).dom().contains(k) == map_of(s).remove(s[0].0).dom().contains(k) && (map_of(t).dom().contains(k)
            ==> map_of(t)[k] == map_of(s).remove(s[0].0)[k]) by {
        lemma_map_of(t, k);
        lemma_map_of(s, k);
        if exists|i: int| 0 <= i < t.len() && #[trigger] t[i].0 == k {
            let i = choose|i: int| 0 <= i < t.len() && #[trigger] t[i].0 == k;
            assert(t[i] == s[i + 1]);
            assert(replica_lt(s[0].0, s[i + 1].0));
            if k == s[0].0 {
                lemma_bytes_lt_irrefl(id_bytes(k));
            }
        }
        if exists|i: int| 0 <= i < s.len() && #[trigger] s[i].0 == k {
            let i = choose|i: int| 0 <= i < s.len() && #[trigger] s[i].0 == k;
            if i > 0 {
                assert(t[i - 1] == s[i]);
            }
        }
    }
    assert(map_of(t) =~= map_of(s).remove(s[0].0));
}

/// A counter's components are determined by its map: two sorted component lists
/// with the same map are the same list.
pub proof fn lemma_sorted_unique(s: Seq<(Seq<char>, u64)>, t: Seq<(Seq<char>, u64)>)
    requires
        sorted_ids(s),
        sorted_ids(t),
        map_of(s) == map_of(t),
    ensures
        s == t,
    decreases s.len(),
{
    if s.len() == 0 {
        if t.len() > 0 {
            lemma_map_of(t, t[0].0);
            lemma_map_of(s, t[0].0);
        }
        assert(s =~= t);
    } else {
        if t.len() == 0 {
            lemma_map_of(s, s[0].0);
            lemma_map_of(t, s[0].0);
        }
        let a = s[0].0;
        let b = t[0].0;
        lemma_map_of(s, a);
        lemma_map_of(t, a);
        lemma_map_of(s, b);
        lemma_map_of(t, b);
        if a != b {
            let j = choose|j: int| 0 <= j < t.len() && #[trigger] t[j].0 == a;
            let i = choose|i: int| 0 <= i < s.len() && #[trigger] s[i].0 == b;
            assert(j > 0 && i > 0);
            assert(replica_lt(b, a));
            assert(replica_lt(a, b));
            lemma_bytes_lt_asym(id_bytes(a), id_bytes(b));
        }
        assert(s[0] == t[0]);
        lemma_map_of_drop_first(s);
        lemma_map_of_drop_first(t);
        lemma_sorted_unique(s.drop_first(), t.drop_first());
        assert(s =~= seq![s[0]] + s.drop_first());
        assert(t =~= seq![t[0]] + t.drop_first());
    }
}

/// Where `id` belongs in a sorted list: the first position whose replica is not
/// before it, and whether that position holds `id` itself.
fn find_slot(v: &Vec<(ReplicaId, u64)>, id: &ReplicaId) -> (r: (usize, bool))
    requires
        sorted_ids(entries_of(v@)),
    ensures
        r.0 <= v@.len(),
        forall|i: int| 0 <= i < r.0 ==> replica_lt(#[trigger] entries_of(v@)[i].0, id@),
        r.1 <==> (r.0 < v@.len() && entries_of(v@)[r.0 as int].0 == id@),
        !r.1 && r.0 < v@.len() ==> replica_lt(id@, entries_of(v@)[r.0 as int].0),
{
    let ghost s = entries_of(v@);
    let mut i: usize = 0;
    while i < v.len()
        invariant
            s == entries_of(v@),
            i <= v@.len(),
            forall|j: int| 0 <= j < i ==> replica_lt(#[trigger] s[j].0, id@),
        decreases v@.len() - i,
    {
        assert(s[i as int] == (v@[i as int].0@, v@[i as int].1));
        match v[i].0.compare(id) {
            IdOrder::Less => {
                i = i + 1;
            },
            IdOrder::Equal => {
                return (i, true);
            },
            IdOrder::Greater => {
                return (i, false);
            },
        }
    }
    (i, false)
}

/// Inserting at a slot found for a new replica keeps the list sorted and adds it to the map.
proof fn lemma_insert_sorted(s: Seq<(Seq<char>, u64)>, p: int, k: Seq<char>, c: u64)
    requires
        sorted_ids(s),
        0 <= p <= s.len(),
        forall|i: int| 0 <= i < p ==> replica_lt(#[trigger] s[i].0, k),
        p < s.len() ==> replica_lt(k, s[p].0),
    ensures
        sorted_ids(s.insert(p, (k, c))),
        map_of(s.insert(p, (k, c))) == map_of(s).insert(k, c),
{
    let t = s.insert(p, (k, c));
    assert forall|i: int, j: int| 0 <= i < j < t.len() implies replica_lt(
        #[trigger] t[i].0,
        #[trigger] t[j].0,
    ) by {
        if j < p {
            assert(t[i] == s[i] && t[j] == s[j]);
        } else if j == p {
            assert(t[i] == s[i]);
        } else if i == p {
            assert(t[j] == s[j - 1]);
            if j - 1 > p {
                assert(replica_lt(s[p].0, s[j - 1].0));
                lemma_bytes_lt_trans(id_bytes(k), id_bytes(s[p].0), id_bytes(s[j - 1].0));
            }
        } else if i < p {
            assert(t[i] == s[i] && t[j] == s[j - 1]);
            if j - 1 != i {
                assert(replica_lt(s[i].0, s[j - 1].0));
            }
            if j - 1 == i {
                assert(false);
            }
        } else {
            assert(t[i] == s[i - 1] && t[j] == s[j - 1]);
        }
    }
    assert forall|x: Seq<char>|
        #![trigger map_of(t).dom().contains(x)]
        #![trigger map_of(s).insert(k, c).dom().contains(x)]
        #![trigger map_of(t)[x]]
        map_of(t).dom().contains(x) == map_of(s).insert(k, c).dom().contains(x) && (map_of(
            t,
        ).dom().contains(x) ==> map_of(t)[x] == map_of(s).insert(k, c)[x]) by {
        lemma_map_of(t, x);
        lemma_map_of(s, x);
        if x == k {
            assert(t[p].0 == k);
        } else {
            if exists|i: int| 0 <= i < s.len() && #[trigger] s[i].0 == x {
                let i = choose|i: int| 0 <= i < s.len() && #[trigger] s[i].0 == x;
                assert(map_of(s)[x] == s[i].1);
                if i < p {
                    assert(t[i] == s[i]);
                    assert(t[i].0 == x);
                    assert(map_of(t)[x] == t[i].1);
                } else {
                    assert(t[i + 1] == s[i]);
                    assert(t[i + 1].0 == x);
                    assert(map_of(t)[x] == t[i + 1].1);
                }
            }
            if exists|i: int| 0 <= i < t.len() && #[trigger] t[i].0 == x {
                let i = choose|i: int| 0 <= i < t.len() && #[trigger] t[i].0 == x;
                if i < p {
                    assert(t[i] == s[i]);
                } else if i > p {
                    assert(t[i] == s[i - 1]);
                }
            }
        }
    }
    assert(map_of(t).dom() =~= map_of(s).insert(k, c).dom());
    assert(map_of(t) =~= map_of(s).insert(k, c));
}

/// Replacing the count at a replica's position keeps the list sorted and updates the map.
proof fn lemma_update_sorted(s: Seq<(Seq<char>, u64)>, p: int, c: u64)
    requires
        sorted_ids(s),
        0 <= p < s.len(),
    ensures
        sorted_ids(s.update(p, (s[p].0, c))),
        map_of(s.update(p, (s[p].0, c))) == map_of(s).insert(s[p].0, c),
{
    let k = s[p].0;
    let t = s.update(p, (k, c));
    assert forall|i: int, j: int| 0 <= i < j < t.len() implies replica_lt(
        #[trigger] t[i].0,
        #[trigger] t[j].0,
    ) by {
        assert(t[i].0 == s[i].0 && t[j].0 == s[j].0);
    }
    assert forall|x: Seq<char>|
        #![trigger map_of(t).dom().contains(x)]
        #![trigger map_of(s).insert(k, c).dom().contains(x)]
        #![trigger map_of(t)[x]]
        map_of(t).dom().contains(x) == map_of(s).insert(k, c).dom().contains(x) && (map_of(
            t,
        ).dom().contains(x) ==> map_of(t)[x] == map_of(s).insert(k, c)[x]) by {
        lemma_map_of(t, x);
        lemma_map_of(s, x);
        if exists|i: int| 0 <= i < s.len() && #[trigger] s[i].0 == x {
            let i = choose|i: int| 0 <= i < s.len() && #[trigger] s[i].0 == x;
            assert(t[i].0 == s[i].0);
            assert(map_of(t)[x] == t[i].1);
            assert(map_of(s)[x] == s[i].1);
            if i == p {
                assert(x == k);
            } else {
                assert(t[i] == s[i]);
            }
        }
        if exists|i: int| 0 <= i < t.len() && #[trigger] t[i].0 == x {
            let i = choose|i: int| 0 <= i < t.len() && #[trigger] t[i].0 == x;
            assert(t[i].0 == s[i].0);
        }
        if x == k {
            assert(t[p] == (k, c));
            assert(t[p].0 == x);
            assert(map_of(t)[x] == c);
        }
    }
    assert(map_of(t).dom() =~= map_of(s).insert(k, c).dom());
    assert(map_of(t) =~= map_of(s).insert(k, c));
}

/// Raises the count of `id` to at least `c`, adding `id` when it is absent;
/// `true` when the counter changed: `id` was added or its count grew.
fn raise_to(v: &mut Vec<(ReplicaId, u64)>, id: &ReplicaId, c: u64) -> (changed: bool)
    requires
        sorted_ids(entries_of(old(v)@)),
    ensures
        sorted_ids(entries_of(final(v)@)),
        map_of(entries_of(final(v)@)) == map_of(entries_of(old(v)@)).insert(
            id@,
            if count_of(map_of(entries_of(old(v)@)), id@) >= c {
                count_of(map_of(entries_of(old(v)@)), id@)
            } else {
                c
            },
        ),
        changed == (!map_of(entries_of(old(v)@)).dom().contains(id@) || c > count_of(
            map_of(entries_of(old(v)@)),
            id@,
        )),
{
    let ghost s = entries_of(v@);
    let (p, found) = find_slot(v, id);
    proof {
        lemma_map_of(s, id@);
    }
    if found {
        let local = v[p].1;
        assert(s[p as int] == (v@[p as int].0@, local));
        if c > local {
            let r = v[p].0.duplicate();
            v.set(p, (r, c));
            proof {
                lemma_update_sorted(s, p as int, c);
                assert(entries_of(v@) =~= s.update(p as int, (s[p as int].0, c)));
            }
            true
        } else {
            proof {
                assert(map_of(s).insert(id@, local) =~= map_of(s));
            }
            false
        }
    } else {
        v.insert(p, (id.duplicate(), c));
        proof {
            assert forall|i: int| 0 <= i < s.len() implies #[trigger] s[i].0 != id@ by {
                if i < p {
                    assert(replica_lt(s[i].0, id@));
                    if s[i].0 == id@ {
                        lemma_bytes_lt_irrefl(id_bytes(id@));
                    }
                } else if i > p {
                    assert(replica_lt(id@, s[p as int].0));
                    assert(replica_lt(s[p as int].0, s[i].0));
                    lemma_bytes_lt_trans(id_bytes(id@), id_bytes(s[p as int].0), id_bytes(s[i].0));
                    if s[i].0 == id@ {
                        lemma_bytes_lt_irrefl(id_bytes(id@));
                    }
                }
            }
            lemma_insert_sorted(s, p as int, id@, c);
            assert(entries_of(v@) =~= s.insert(p as int, (id@, c)));
        }
        true
    }
}

impl GCounter {
    /// An empty counter, of value zero.
    pub fn new() -> (g: Self)
        ensures
            g@ == Map::<Seq<char>, u64>::empty(),
    {
        let g = GCounter { components: Vec::new() };
        assert(map_of(entries_of(g.components@)) =~= Map::<Seq<char>, u64>::empty());
        g
    }

    /// Adds `amount` to the component of `replica`; fails, leaving the counter
    /// unchanged, when the component would overflow.
    pub fn increment(&mut self, replica: &ReplicaId, amount: u64) -> (res: Result<(), CrdtError>)
        ensures
            count_of(old(self)@, replica@) + amount > u64::MAX ==> (res matches Err(
                CrdtError::CounterOverflow,
            ) && final(self)@ == old(self)@),
            count_of(old(self)@, replica@) + amount <= u64::MAX ==> (res is Ok && final(self)@
                == old(self)@.insert(replica@, (count_of(old(self)@, replica@) + amount) as u64)),
    {
        proof {
            use_type_invariant(&*self);
        }
        let ghost s = entries_of(self.components@);
        let (p, found) = find_slot(&self.components, replica);
        proof {
            lemma_map_of(s, replica@);
        }
        if found {
            let local = self.components[p].1;
            assert(s[p as int] == (self.components@[p as int].0@, local));
            let sum = match local.checked_add(amount) {
                Some(x) => x,
                None => return Err(CrdtError::CounterOverflow),
            };
            let r = self.components[p].0.duplicate();
            let mut v: Vec<(ReplicaId, u64)> = Vec::new();
            std::mem::swap(&mut v, &mut self.components);
            proof {
                lemma_update_sorted(s, p as int, sum);
                assert(entries_of(v@.update(p as int, (r, sum))) =~= s.update(
                    p as int,
                    (s[p as int].0, sum),
                ));
            }
            v.set(p, (r, sum));
            self.components = v;
            Ok(())
        } else {
            let r = replica.duplicate();
            proof {
                assert forall|i: int| 0 <= i < s.len() implies #[trigger] s[i].0 != replica@ by {
                    if i < p {
                        if s[i].0 == replica@ {
                            lemma_bytes_lt_irrefl(id_bytes(replica@));
                        }
                    } else if i > p {
                        assert(replica_lt(s[p as int].0, s[i].0));
                        lemma_bytes_lt_trans(id_bytes(replica@), id_bytes(s[p as int].0), id_bytes(s[i].0));
                        if s[i].0 == replica@ {
                            lemma_bytes_lt_irrefl(id_bytes(replica@));
                        }
                    }
                }
                lemma_insert_sorted(s, p as int, replica@, amount);
            }
            let mut v: Vec<(ReplicaId, u64)> = Vec::new();
            std::mem::swap(&mut v, &mut self.components);
            proof {
                assert(entries_of(v@.insert(p as int, (r, amount))) =~= s.insert(
                    p as int,
                    (replica@, amount),
                ));
            }
            v.insert(p, (r, amount));
            self.components = v;
            Ok(())
        }
    }

    /// Sum of all components; fails when it overflows `u64`.
    pub fn value(&self) -> (res: Result<u64, CrdtError>)
        ensures
            sorted_ids(self.entries()),
            self@ == map_of(self.entries()),
            sum_of(self.entries(), self.entries().len() as int) >= 0,
            sum_of(self.entries(), self.entries().len() as int) <= u64::MAX ==> res == Ok::<
                u64,
                CrdtError,
            >(sum_of(self.entries(), self.entries().len() as int) as u64),
            sum_of(self.entries(), self.entries().len() as int) > u64::MAX ==> (res matches Err(
                CrdtError::ValueOverflow,
            )),
    {
        proof {
            use_type_invariant(self);
        }
        let ghost s = entries_of(self.components@);
        proof {
            lemma_sum_grows(s, 0, s.len() as int);
        }
        let mut total: u64 = 0;
        let mut i: usize = 0;
        while i < self.components.len()
            invariant
                s == entries_of(self.components@),
                sorted_ids(s),
                i <= s.len(),
                total == sum_of(s, i as int),
            decreases s.len() - i,
        {
            assert(s[i as int].1 == self.components@[i as int].1);
            total = match total.checked_add(self.components[i].1) {
                Some(t) => t,
                None => {
                    proof {
                        lemma_sum_grows(s, i + 1, s.len() as int);
                    }
                    return Err(CrdtError::ValueOverflow);
                },
            };
            i = i + 1;
        }
        Ok(total)
    }

    /// The component of `replica`, zero when it has not contributed.
    pub fn component(&self, replica: &ReplicaId) -> (c: u64)
        ensures
            c == count_of(self@, replica@),
    {
        proof {
            use_type_invariant(self);
        }
        let ghost s = entries_of(self.components@);
        let (p, found) = find_slot(&self.components, replica);
        proof {
            lemma_map_of(s, replica@);
        }
        if found {
            assert(s[p as int].1 == self.components@[p as int].1);
            self.components[p].1
        } else {
            proof {
                if map_of(s).dom().contains(replica@) {
                    let i = choose|i: int| 0 <= i < s.len() && #[trigger] s[i].0 == replica@;
                    if i < p {
                        lemma_bytes_lt_irrefl(id_bytes(replica@));
                    } else if i > p {
                        assert(replica_lt(s[p as int].0, s[i].0));
                        lemma_bytes_lt_trans(id_bytes(replica@), id_bytes(s[p as int].0), id_bytes(s[i].0));
                        lemma_bytes_lt_irrefl(id_bytes(replica@));
                    }
                }
            }
            0
        }
    }

    /// The components in replica order.
    pub fn components(&self) -> (v: Vec<(ReplicaId, u64)>)
        ensures
            entries_of(v@) == self.entries(),
            sorted_ids(entries_of(v@)),
            map_of(entries_of(v@)) == self@,
    {
        proof {
            use_type_invariant(self);
        }
        let mut out: Vec<(ReplicaId, u64)> = Vec::new();
        let mut i: usize = 0;
        while i < self.components.len()
            invariant
                i <= self.components@.len(),
                entries_of(out@) == entries_of(self.components@).take(i as int),
            decreases self.components@.len() - i,
        {
            let r = self.components[i].0.duplicate();
            let ghost before = out@;
            out.push((r, self.components[i].1));
            proof {
                assert(out@ == before.push((r, self.components@[i as int].1)));
                assert(entries_of(out@) =~= entries_of(before).push((r@, self.components@[i as int].1)));
            }
            i = i + 1;
            assert(entries_of(out@) =~= entries_of(self.components@).take(i as int));
        }
        assert(entries_of(self.components@).take(i as int) =~= entries_of(self.components@));
        out
    }
}

impl Clone for GCounter {
    fn clone(&self) -> (g: Self)
        ensures
            g@ == self@,
            g.entries() == self.entries(),
    {
        proof {
            use_type_invariant(self);
        }
        GCounter { components: self.components() }
    }
}

proof fn lemma_sum_grows(s: Seq<(Seq<char>, u64)>, j: int, k: int)
    requires
        0 <= j <= k,
    ensures
        sum_of(s, j) <= sum_of(s, k),
    decreases k - j,
{
    if j < k {
        lemma_sum_grows(s, j, k - 1);
    }
}

impl Crdt for GCounter {
    /// Keeps, for every replica of either counter, the larger component; `true`
    /// exactly when this counter changed: it gained a replica or a component grew.
    fn merge(&mut self, other: &Self) -> (changed: bool)
        ensures
            final(self)@ == map_max(old(self)@, other@),
            changed == (final(self)@ != old(self)@),
            changed == exists|k: Seq<char>|
                #![trigger other@.dom().contains(k)]
                other@.dom().contains(k) && (!old(self)@.dom().contains(k) || other@[k] > count_of(
                    old(self)@,
                    k,
                )),
    {
        proof {
            use_type_invariant(&*self);
            use_type_invariant(other);
        }
        let ghost o = entries_of(other.components@);
        let ghost start = self@;
        let mut v: Vec<(ReplicaId, u64)> = Vec::new();
        std::mem::swap(&mut v, &mut self.components);
        let mut changed = false;
        let mut i: usize = 0;
        while i < other.components.len()
            invariant
                o == entries_of(other.components@),
                sorted_ids(o),
                sorted_ids(entries_of(v@)),
                start == old(self)@,
                i <= o.len(),
                map_of(entries_of(v@)) == map_max(start, map_of(o.take(i as int))),
                changed == exists|j: int|
                    0 <= j < i && (!start.dom().contains(#[trigger] o[j].0) || o[j].1 > count_of(start, o[j].0)),
            decreases o.len() - i,
        {
            let ghost before = map_of(entries_of(v@));
            let id = &other.components[i].0;
            let c = other.components[i].1;
            assert(o[i as int] == (id@, c));
            let grew = raise_to(&mut v, id, c);
            proof {
                lemma_map_of(o, id@);
                assert forall|j: int| 0 <= j < i implies #[trigger] o[j].0 != id@ by {
                    assert(replica_lt(o[j].0, o[i as int].0));
                    if o[j].0 == id@ {
                        lemma_bytes_lt_irrefl(id_bytes(id@));
                    }
                }
                lemma_take_push(o, i as int, start);
                assert(count_of(before, id@) == count_of(start, id@) && (before.dom().contains(id@)
                    <==> start.dom().contains(id@))) by {
                    lemma_map_of(o.take(i as int), id@);
                    if map_of(o.take(i as int)).dom().contains(id@) {
                        let j = choose|j: int|
                            0 <= j < o.take(i as int).len() && #[trigger] o.take(i as int)[j].0 == id@;
                        assert(o.take(i as int)[j] == o[j]);
                    }
                    assert(sorted_ids(o.take(i as int))) by {
                        assert forall|a: int, b: int| 0 <= a < b < o.take(i as int).len() implies replica_lt(
                            #[trigger] o.take(i as int)[a].0,
                            #[trigger] o.take(i as int)[b].0,
                        ) by {
                            assert(o.take(i as int)[a] == o[a] && o.take(i as int)[b] == o[b]);
                        }
                    }
                }
            }
            if grew {
                changed = true;
            }
            i = i + 1;
        }
        self.components = v;
        proof {
            assert(o.take(o.len() as int) =~= o);
            assert(map_max(start, map_of(o)) =~= map_max(start, other@));
            let fin = map_max(start, other@);
            if changed {
                let j = choose|j: int|
                    0 <= j < o.len() && (!start.dom().contains(#[trigger] o[j].0) || o[j].1 > count_of(start, o[j].0));
                let k = o[j].0;
                lemma_map_of(o, k);
                assert(other@.dom().contains(k));
                assert(fin.dom().contains(k));
                if start.dom().contains(k) {
                    assert(fin[k] == o[j].1);
                    assert(fin[k] != start[k]);
                }
                assert(fin != start);
            } else {
                assert forall|k: Seq<char>| other@.dom().contains(k) implies start.dom().contains(k) && !(other@[k]
                    > count_of(start, k)) by {
                    lemma_map_of(o, k);
                    let j = choose|j: int| 0 <= j < o.len() && #[trigger] o[j].0 == k;
                    assert(!(!start.dom().contains(o[j].0) || o[j].1 > count_of(start, o[j].0)));
                }
                assert(fin =~= start);
            }
        }
        changed
    }
}

/// Adding the entry at `i` to the prefix map.
proof fn lemma_take_push(o: Seq<(Seq<char>, u64)>, i: int, start: Map<Seq<char>, u64>)
    requires
        sorted_ids(o),
        0 <= i < o.len(),
    ensures
        map_max(start, map_of(o.take(i + 1))) == map_max(start, map_of(o.take(i))).insert(
            o[i].0,
            if count_of(map_max(start, map_of(o.take(i))), o[i].0) >= o[i].1 {
                count_of(map_max(start, map_of(o.take(i))), o[i].0)
            } else {
                o[i].1
            },
        ),
{
    let p = o.take(i);
    let q = o.take(i + 1);
    assert(q =~= p.insert(i, o[i]));
    assert forall|a: int, b: int| 0 <= a < b < p.len() implies replica_lt(
        #[trigger] p[a].0,
        #[trigger] p[b].0,
    ) by {
        assert(p[a] == o[a] && p[b] == o[b]);
    }
    assert forall|a: int| 0 <= a < i implies replica_lt(#[trigger] p[a].0, o[i].0) by {
        assert(p[a] == o[a]);
    }
    lemma_insert_sorted(p, i, o[i].0, o[i].1);
    assert forall|a: int| 0 <= a < p.len() implies #[trigger] p[a].0 != o[i].0 by {
        assert(p[a] == o[a]);
        if p[a].0 == o[i].0 {
            lemma_bytes_lt_irrefl(id_bytes(o[i].0));
        }
    }
    lemma_lookup_absent(p, o[i].0);
    let k = o[i].0;
    assert(map_max(start, map_of(q)) =~= map_max(start, map_of(p)).insert(
        k,
        if count_of(map_max(start, map_of(p)), k) >= o[i].1 {
            count_of(map_max(start, map_of(p)), k)
        } else {
            o[i].1
        },
    ));
}

/// Merging is commutative: either order gives the same counter.
pub proof fn lemma_merge_commutative(a: Map<Seq<char>, u64>, b: Map<Seq<char>, u64>)
    ensures
        map_max(a, b) == map_max(b, a),
{
    assert(map_max(a, b) =~= map_max(b, a));
}

/// Merging is associative: the grouping does not matter.
pub proof fn lemma_merge_associative(
    a: Map<Seq<char>, u64>,
    b: Map<Seq<char>, u64>,
    c: Map<Seq<char>, u64>,
)
    ensures
        map_max(map_max(a, b), c) == map_max(a, map_max(b, c)),
{
    assert(map_max(map_max(a, b), c) =~= map_max(a, map_max(b, c)));
}

/// Merging is idempotent: merging a state into itself changes nothing.
pub proof fn lemma_merge_idempotent(a: Map<Seq<char>, u64>)
    ensures
        map_max(a, a) == a,
{
    assert(map_max(a, a) =~= a);
}

/// Merging never lowers a component.
pub proof fn lemma_merge_monotone(a: Map<Seq<char>, u64>, b: Map<Seq<char>, u64>, k: Seq<char>)
    ensures
        count_of(map_max(a, b), k) >= count_of(a, k),
        count_of(map_max(a, b), k) >= count_of(b, k),
{
}

} // verus!
