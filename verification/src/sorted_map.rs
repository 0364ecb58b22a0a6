//! A map whose entries stand in the order of their keys.

use crate::key::{Key, Rank};
use vstd::prelude::*;

verus! {

/// A map from `K` to `T`, held as a vector of entries in the order of their keys.
pub struct SortedMap<K, T> {
    entries: Vec<(K, T)>,
}

/// Whether rows stand in strict order of their keys.
pub open spec fn rows_sorted<K: Key, T>(rows: Seq<(K::V, T)>) -> bool {
    forall|i: int, j: int|
        0 <= i < j < rows.len() ==> K::before((#[trigger] rows[i]).0, (#[trigger] rows[j]).0)
}

/// Whether row `i` is the one of key `k`.
pub open spec fn is_row<A, T>(rows: Seq<(A, T)>, k: A, i: int) -> bool {
    0 <= i < rows.len() && rows[i].0 == k
}

/// The map that rows with distinct keys stand for.
pub open spec fn rows_map<A, T>(rows: Seq<(A, T)>) -> Map<A, T> {
    Map::new(
        |k: A| exists|i: int| #[trigger] is_row(rows, k, i),
        |k: A| rows[choose|i: int| #[trigger] is_row(rows, k, i)].1,
    )
}

/// A row is what the map holds for its key.
pub proof fn lemma_rows_lookup<K: Key, T>(rows: Seq<(K::V, T)>, i: int)
    requires
        rows_sorted::<K, T>(rows),
        0 <= i < rows.len(),
    ensures
        rows_map(rows).contains_key(rows[i].0),
        rows_map(rows)[rows[i].0] == rows[i].1,
{
    let k = rows[i].0;
    assert(is_row(rows, k, i));
    let j = choose|j: int| #[trigger] is_row(rows, k, j);
    assert(is_row(rows, k, j));
    K::before_irreflexive(k);
    if i < j {
        assert(K::before(rows[i].0, rows[j].0));
    }
    if j < i {
        assert(K::before(rows[j].0, rows[i].0));
    }
}

/// Rows have no two equal keys, and as many keys as there are rows.
pub proof fn lemma_rows_keys<K: Key, T>(rows: Seq<(K::V, T)>)
    requires
        rows_sorted::<K, T>(rows),
    ensures
        rows.map_values(|r: (K::V, T)| r.0).no_duplicates(),
        rows_map(rows).dom() == rows.map_values(|r: (K::V, T)| r.0).to_set(),
        rows_map(rows).dom().finite(),
        rows_map(rows).dom().len() == rows.len(),
{
    let keys = rows.map_values(|r: (K::V, T)| r.0);
    assert forall|i: int, j: int| 0 <= i < keys.len() && 0 <= j < keys.len() && i != j implies keys[i]
        != keys[j] by {
        K::before_irreflexive(keys[i]);
        if i < j {
            assert(K::before(rows[i].0, rows[j].0));
        } else {
            assert(K::before(rows[j].0, rows[i].0));
        }
    }
    keys.unique_seq_to_set();
    assert forall|k: K::V| rows_map(rows).dom().contains(k) <==> keys.to_set().contains(k) by {
        if rows_map(rows).dom().contains(k) {
            let i = choose|i: int| #[trigger] is_row(rows, k, i);
            assert(keys[i] == k);
        }
        if keys.contains(k) {
            let i = choose|i: int| 0 <= i < keys.len() && keys[i] == k;
            assert(is_row(rows, k, i));
        }
    }
    assert(rows_map(rows).dom() =~= keys.to_set());
}

/// To write the row of a key is to write the map at that key.
pub proof fn lemma_rows_update<K: Key, T>(rows: Seq<(K::V, T)>, i: int, value: T)
    requires
        rows_sorted::<K, T>(rows),
        0 <= i < rows.len(),
    ensures
        rows_sorted::<K, T>(rows.update(i, (rows[i].0, value))),
        rows_map(rows.update(i, (rows[i].0, value))) == rows_map(rows).insert(rows[i].0, value),
{
    let next = rows.update(i, (rows[i].0, value));
    assert forall|a: int, b: int| 0 <= a < b < next.len() implies K::before(
        (#[trigger] next[a]).0,
        (#[trigger] next[b]).0,
    ) by {
        assert(next[a].0 == rows[a].0 && next[b].0 == rows[b].0);
    }
    let want = rows_map(rows).insert(rows[i].0, value);
    assert forall|k: K::V| #[trigger] rows_map(next).contains_key(k) <==> want.contains_key(k) by {
        if rows_map(next).contains_key(k) {
            let j = choose|j: int| #[trigger] is_row(next, k, j);
            assert(is_row(rows, k, j));
        }
        if want.contains_key(k) {
            if k == rows[i].0 {
                assert(is_row(next, k, i));
            } else {
                let j = choose|j: int| #[trigger] is_row(rows, k, j);
                assert(is_row(next, k, j));
            }
        }
    }
    assert forall|k: K::V| #[trigger] rows_map(next).contains_key(k) implies rows_map(next)[k]
        == want[k] by {
        let j = choose|j: int| #[trigger] is_row(next, k, j);
        lemma_rows_lookup::<K, T>(next, j);
        lemma_rows_lookup::<K, T>(rows, j);
        K::before_irreflexive(k);
        if j != i {
            if j < i {
                assert(K::before(rows[j].0, rows[i].0));
            } else {
                assert(K::before(rows[i].0, rows[j].0));
            }
        }
    }
    assert(rows_map(next) =~= want);
}

/// To put a row in at its place is to write the map at its key.
pub proof fn lemma_rows_insert<K: Key, T>(rows: Seq<(K::V, T)>, i: int, key: K::V, value: T)
    requires
        rows_sorted::<K, T>(rows),
        0 <= i <= rows.len(),
        forall|j: int| 0 <= j < i ==> K::before((#[trigger] rows[j]).0, key),
        forall|j: int| i <= j < rows.len() ==> K::before(key, (#[trigger] rows[j]).0),
    ensures
        rows_sorted::<K, T>(rows.insert(i, (key, value))),
        rows_map(rows.insert(i, (key, value))) == rows_map(rows).insert(key, value),
        !rows_map(rows).contains_key(key),
{
    let next = rows.insert(i, (key, value));
    assert forall|a: int, b: int| 0 <= a < b < next.len() implies K::before(
        (#[trigger] next[a]).0,
        (#[trigger] next[b]).0,
    ) by {
        let x = if a < i { a } else { a - 1 };
        let y = if b < i { b } else { b - 1 };
        if a == i {
            assert(next[b] == rows[y]);
        } else if b == i {
            assert(next[a] == rows[x]);
        } else {
            assert(next[a] == rows[x] && next[b] == rows[y]);
        }
    }
    let want = rows_map(rows).insert(key, value);
    assert(!rows_map(rows).contains_key(key)) by {
        if rows_map(rows).contains_key(key) {
            let j = choose|j: int| #[trigger] is_row(rows, key, j);
            assert(is_row(rows, key, j));
            K::before_irreflexive(key);
            assert(rows[j].0 == key);
        }
    }
    assert forall|k: K::V| #[trigger] rows_map(next).contains_key(k) <==> want.contains_key(k) by {
        if rows_map(next).contains_key(k) {
            let j = choose|j: int| #[trigger] is_row(next, k, j);
            if j < i {
                assert(is_row(rows, k, j));
            } else if j > i {
                assert(is_row(rows, k, j - 1));
            }
        }
        if want.contains_key(k) {
            if k == key {
                assert(is_row(next, k, i));
            } else {
                let j = choose|j: int| #[trigger] is_row(rows, k, j);
                if j < i {
                    assert(is_row(next, k, j));
                } else {
                    assert(is_row(next, k, j + 1));
                }
            }
        }
    }
    assert forall|k: K::V| #[trigger] rows_map(next).contains_key(k) implies rows_map(next)[k]
        == want[k] by {
        let j = choose|j: int| #[trigger] is_row(next, k, j);
        lemma_rows_lookup::<K, T>(next, j);
        if j < i {
            lemma_rows_lookup::<K, T>(rows, j);
        } else if j > i {
            lemma_rows_lookup::<K, T>(rows, j - 1);
        }
    }
    assert(rows_map(next) =~= want);
}

impl<K: Key, T> SortedMap<K, T> {
    /// The entries in the order of their keys.
    pub closed spec fn rows(self) -> Seq<(K::V, T)> {
        self.entries@.map_values(|e: (K, T)| (e.0@, e.1))
    }

    /// Whether the entries stand in order.
    pub open spec fn wf(self) -> bool {
        rows_sorted::<K, T>(self.rows())
    }

    /// The map without an entry.
    pub fn new() -> (m: Self)
        ensures
            m.wf(),
            m.rows().len() == 0,
            m@ == Map::<K::V, T>::empty(),
    {
        let m = SortedMap { entries: Vec::new() };
        proof {
            assert(m@ =~= Map::<K::V, T>::empty());
        }
        m
    }

    /// How many entries there are.
    pub fn len(&self) -> (n: usize)
        ensures
            n == self.rows().len(),
    {
        self.entries.len()
    }

    /// The key of an entry.
    pub fn key_at(&self, i: usize) -> (k: &K)
        requires
            i < self.rows().len(),
        ensures
            k@ == self.rows()[i as int].0,
    {
        &self.entries[i].0
    }

    /// The value of an entry.
    pub fn value_at(&self, i: usize) -> (v: &T)
        requires
            i < self.rows().len(),
        ensures
            *v == self.rows()[i as int].1,
    {
        &self.entries[i].1
    }

    /// Where a key stands, or where it would have to stand.
    pub fn find(&self, key: &K) -> (r: Result<usize, usize>)
        requires
            self.wf(),
        ensures
            match r {
                Ok(i) => i < self.rows().len() && self.rows()[i as int].0 == key@,
                Err(i) => {
                    &&& i <= self.rows().len()
                    &&& forall|j: int| 0 <= j < i ==> K::before((#[trigger] self.rows()[j]).0, key@)
                    &&& forall|j: int|
                        i <= j < self.rows().len() ==> K::before(
                            key@,
                            (#[trigger] self.rows()[j]).0,
                        )
                },
            },
    {
        let mut lo: usize = 0;
        let mut hi: usize = self.entries.len();
        while lo < hi
            invariant
                self.wf(),
                lo <= hi <= self.entries.len(),
                self.rows().len() == self.entries.len(),
                forall|j: int| 0 <= j < lo ==> K::before((#[trigger] self.rows()[j]).0, key@),
                forall|j: int|
                    hi <= j < self.rows().len() ==> K::before(key@, (#[trigger] self.rows()[j]).0),
            decreases hi - lo,
        {
            let mid: usize = lo + (hi - lo) / 2;
            let ghost pivot = self.rows()[mid as int].0;
            match self.entries[mid].0.rank(key) {
                Rank::Same => {
                    return Ok(mid);
                },
                Rank::Before => {
                    proof {
                        assert forall|j: int| 0 <= j < mid + 1 implies K::before(
                            (#[trigger] self.rows()[j]).0,
                            key@,
                        ) by {
                            if j < mid {
                                K::before_transitive(self.rows()[j].0, pivot, key@);
                            }
                        }
                    }
                    lo = mid + 1;
                },
                Rank::After => {
                    proof {
                        assert forall|j: int| mid <= j < self.rows().len() implies K::before(
                            key@,
                            (#[trigger] self.rows()[j]).0,
                        ) by {
                            if j > mid {
                                K::before_transitive(key@, pivot, self.rows()[j].0);
                            }
                        }
                    }
                    hi = mid;
                },
            }
        }
        Err(lo)
    }

    /// Puts in an entry that the map lacks, at the place that `find` gives.
    pub fn insert_at(&mut self, i: usize, key: K, value: T)
        requires
            old(self).wf(),
            i <= old(self).rows().len(),
            forall|j: int| 0 <= j < i ==> K::before((#[trigger] old(self).rows()[j]).0, key@),
            forall|j: int|
                i <= j < old(self).rows().len() ==> K::before(
                    key@,
                    (#[trigger] old(self).rows()[j]).0,
                ),
        ensures
            final(self).wf(),
            final(self).rows() == old(self).rows().insert(i as int, (key@, value)),
            final(self)@ == old(self)@.insert(key@, value),
            !old(self)@.contains_key(key@),
    {
        proof {
            lemma_rows_insert::<K, T>(self.rows(), i as int, key@, value);
        }
        self.entries.insert(i, (key, value));
        proof {
            assert(self.rows() =~= old(self).rows().insert(i as int, (key@, value)));
        }
    }

    /// The value of an entry, to be changed in its place.
    pub fn value_mut(&mut self, i: usize) -> (v: &mut T)
        requires
            old(self).wf(),
            i < old(self).rows().len(),
        ensures
            *v == old(self).rows()[i as int].1,
            final(self).rows() == old(self).rows().update(
                i as int,
                (old(self).rows()[i as int].0, *final(v)),
            ),
            final(self).wf(),
            final(self)@ == old(self)@.insert(old(self).rows()[i as int].0, *final(v)),
    {
        proof {
            let rows = self.rows();
            let key = rows[i as int].0;
            assert forall|value: T|
                rows_sorted::<K, T>(#[trigger] rows.update(i as int, (key, value))) && rows_map(
                    rows.update(i as int, (key, value)),
                ) == rows_map(rows).insert(key, value) by {
                lemma_rows_update::<K, T>(rows, i as int, value);
            }
        }
        &mut self.entries[i].1
    }
}

impl<K: Key, T> View for SortedMap<K, T> {
    type V = Map<K::V, T>;

    open spec fn view(&self) -> Map<K::V, T> {
        rows_map(self.rows())
    }
}

/// A map of counts, as mathematical numbers.
pub open spec fn counts_of<A>(m: Map<A, usize>) -> Map<A, nat> {
    m.map_values(|n: usize| n as nat)
}

/// Whether no count is larger than `bound`.
pub open spec fn counts_at_most<A>(m: Map<A, nat>, bound: nat) -> bool {
    forall|a: A| #[trigger] m.contains_key(a) ==> m[a] <= bound
}

/// One taken from every count, and no key left whose count was one.
pub open spec fn decremented<A>(m: Map<A, nat>) -> Map<A, nat> {
    Map::new(|k: A| m.contains_key(k) && m[k] > 1, |k: A| (m[k] - 1) as nat)
}

spec fn dec_rows<A>(rows: Seq<(A, usize)>) -> Seq<(A, usize)>
    decreases rows.len(),
{
    if rows.len() == 0 {
        Seq::empty()
    } else {
        let rest = dec_rows(rows.drop_last());
        if rows.last().1 > 1 {
            rest.push((rows.last().0, (rows.last().1 - 1) as usize))
        } else {
            rest
        }
    }
}

proof fn lemma_dec_rows<K: Key>(rows: Seq<(K::V, usize)>)
    requires
        rows_sorted::<K, usize>(rows),
        forall|i: int| 0 <= i < rows.len() ==> (#[trigger] rows[i]).1 >= 1,
    ensures
        rows_sorted::<K, usize>(dec_rows(rows)),
        forall|i: int|
            0 <= i < dec_rows(rows).len() ==> {
                let r = #[trigger] dec_rows(rows)[i];
                r.1 >= 1 && r.1 < usize::MAX && rows.contains((r.0, (r.1 + 1) as usize))
            },
        forall|j: int|
            0 <= j < rows.len() && (#[trigger] rows[j]).1 > 1 ==> dec_rows(rows).contains(
                (rows[j].0, (rows[j].1 - 1) as usize),
            ),
    decreases rows.len(),
{
    if rows.len() > 0 {
        let front = rows.drop_last();
        let last = rows.last();
        assert forall|i: int, j: int| 0 <= i < j < front.len() implies K::before(
            (#[trigger] front[i]).0,
            (#[trigger] front[j]).0,
        ) by {
            assert(front[i] == rows[i] && front[j] == rows[j]);
        }
        lemma_dec_rows::<K>(front);
        let rest = dec_rows(front);
        let all = dec_rows(rows);
        assert forall|i: int| 0 <= i < rest.len() implies K::before(
            (#[trigger] rest[i]).0,
            last.0,
        ) by {
            let r = rest[i];
            let j = choose|j: int|
                0 <= j < front.len() && front[j] == (r.0, (r.1 + 1) as usize);
            assert(rows[j] == front[j]);
            assert(K::before(rows[j].0, rows[rows.len() - 1].0));
        }
        assert forall|i: int, j: int| 0 <= i < j < all.len() implies K::before(
            (#[trigger] all[i]).0,
            (#[trigger] all[j]).0,
        ) by {
            assert(all[i] == rest[i]);
            if j < rest.len() {
                assert(all[j] == rest[j]);
            }
        }
        assert forall|i: int| 0 <= i < all.len() implies {
            let r = #[trigger] all[i];
            r.1 >= 1 && r.1 < usize::MAX && rows.contains((r.0, (r.1 + 1) as usize))
        } by {
            let r = all[i];
            if i < rest.len() {
                assert(all[i] == rest[i]);
                let j = choose|j: int|
                    0 <= j < front.len() && front[j] == (r.0, (r.1 + 1) as usize);
                assert(rows[j] == front[j]);
            } else {
                assert(rows[rows.len() - 1] == (r.0, (r.1 + 1) as usize));
            }
        }
        assert forall|j: int| 0 <= j < rows.len() && (#[trigger] rows[j]).1 > 1 implies all.contains(
            (rows[j].0, (rows[j].1 - 1) as usize),
        ) by {
            if j < front.len() {
                assert(front[j] == rows[j]);
                let x = (rows[j].0, (rows[j].1 - 1) as usize);
                let i = choose|i: int| 0 <= i < rest.len() && rest[i] == x;
                assert(all[i] == x);
            } else {
                assert(all[all.len() - 1] == (rows[j].0, (rows[j].1 - 1) as usize));
            }
        }
    }
}

impl<K: Key> SortedMap<K, usize> {
    /// The counts by key.
    pub open spec fn counts(self) -> Map<K::V, nat> {
        counts_of(self@)
    }

    /// Takes one from every count, and drops the entries whose count was one.
    pub fn decrement(&mut self)
        requires
            old(self).wf(),
            forall|i: int| 0 <= i < old(self).rows().len() ==> (#[trigger] old(self).rows()[i]).1 >= 1,
        ensures
            final(self).wf(),
            final(self).counts() == decremented(old(self).counts()),
    {
        let ghost rows = self.rows();
        let ghost mut j: int = 0;
        let mut i: usize = 0;
        proof {
            assert(rows.take(0) =~= Seq::empty());
            assert(dec_rows(rows.take(0)) + rows.skip(0) =~= rows);
        }
        while i < self.entries.len()
            invariant
                0 <= j <= rows.len(),
                self.rows() == dec_rows(rows.take(j)) + rows.skip(j),
                i == dec_rows(rows.take(j)).len(),
                self.entries.len() == self.rows().len(),
                forall|i: int| 0 <= i < rows.len() ==> (#[trigger] rows[i]).1 >= 1,
            decreases rows.len() - j,
        {
            let ghost cur = self.rows();
            proof {
                assert(cur[i as int] == rows[j]);
                assert(self.entries[i as int].1 == rows[j].1);
                assert(rows.take(j + 1).drop_last() =~= rows.take(j));
                assert(rows.take(j + 1).last() == rows[j]);
            }
            if self.entries[i].1 > 1 {
                self.entries[i].1 -= 1;
                proof {
                    let less = (rows[j].0, (rows[j].1 - 1) as usize);
                    assert(dec_rows(rows.take(j + 1)) =~= dec_rows(rows.take(j)).push(less));
                    assert(self.rows() =~= cur.update(i as int, less));
                    assert(self.rows() =~= dec_rows(rows.take(j + 1)) + rows.skip(j + 1));
                }
                i += 1;
            } else {
                self.entries.remove(i);
                proof {
                    assert(dec_rows(rows.take(j + 1)) =~= dec_rows(rows.take(j)));
                    assert(self.rows() =~= cur.remove(i as int));
                    assert(self.rows() =~= dec_rows(rows.take(j + 1)) + rows.skip(j + 1));
                }
            }
            proof {
                j = j + 1;
            }
        }
        proof {
            assert(rows.take(j) =~= rows);
            assert(self.rows() =~= dec_rows(rows));
            lemma_dec_rows::<K>(rows);
            let next = dec_rows(rows);
            let want = decremented(counts_of(rows_map(rows)));
            assert forall|k: K::V| #[trigger] self.counts().contains_key(k) <==> want.contains_key(k) by {
                if self.counts().contains_key(k) {
                    let a = choose|a: int| #[trigger] is_row(next, k, a);
                    let b = choose|b: int|
                        0 <= b < rows.len() && rows[b] == (next[a].0, (next[a].1 + 1) as usize);
                    lemma_rows_lookup::<K, usize>(rows, b);
                }
                if want.contains_key(k) {
                    let b = choose|b: int| #[trigger] is_row(rows, k, b);
                    lemma_rows_lookup::<K, usize>(rows, b);
                    let x = (rows[b].0, (rows[b].1 - 1) as usize);
                    assert(next.contains(x));
                    let a = choose|a: int| 0 <= a < next.len() && next[a] == x;
                    assert(is_row(next, k, a));
                }
            }
            assert forall|k: K::V| #[trigger] self.counts().contains_key(k) implies self.counts()[k]
                == want[k] by {
                let a = choose|a: int| #[trigger] is_row(next, k, a);
                let b = choose|b: int|
                    0 <= b < rows.len() && rows[b] == (next[a].0, (next[a].1 + 1) as usize);
                lemma_rows_lookup::<K, usize>(next, a);
                lemma_rows_lookup::<K, usize>(rows, b);
            }
            assert(self.counts() =~= want);
        }
    }

    /// A second map with the same counts.
    pub fn copied(&self) -> (m: Self)
        requires
            self.wf(),
        ensures
            m.wf(),
            m.counts() == self.counts(),
    {
        let ghost rows = self.rows();
        let mut m: SortedMap<K, usize> = SortedMap::new();
        let mut i: usize = 0;
        while i < self.len()
            invariant
                self.wf(),
                rows == self.rows(),
                i <= rows.len(),
                m.wf(),
                m.rows() == rows.take(i as int),
            decreases rows.len() - i,
        {
            let key = self.key_at(i).copied();
            proof {
                assert forall|j: int| 0 <= j < i implies K::before(
                    (#[trigger] m.rows()[j]).0,
                    key@,
                ) by {
                    assert(K::before(rows[j].0, rows[i as int].0));
                }
                assert(rows.take(i + 1) =~= rows.take(i as int).insert(i as int, rows[i as int]));
            }
            m.insert_at(i, key, *self.value_at(i));
            i += 1;
        }
        proof {
            assert(rows.take(i as int) =~= rows);
        }
        m
    }

    /// The count of a key, or zero.
    pub fn count(&self, key: &K) -> (n: usize)
        requires
            self.wf(),
        ensures
            n == if self.counts().contains_key(key@) {
                self.counts()[key@]
            } else {
                0
            },
    {
        match self.find(key) {
            Ok(i) => {
                proof {
                    lemma_rows_lookup::<K, usize>(self.rows(), i as int);
                }
                *self.value_at(i)
            },
            Err(i) => {
                proof {
                    lemma_rows_insert::<K, usize>(self.rows(), i as int, key@, 0);
                }
                0
            },
        }
    }

    /// Whether every count leaves room for `work` more.
    pub fn leaves_room(&self, work: usize) -> (r: bool)
        requires
            self.wf(),
        ensures
            r == counts_at_most(self.counts(), (usize::MAX - work) as nat),
    {
        let limit: usize = usize::MAX - work;
        let ghost rows = self.rows();
        let mut i: usize = 0;
        while i < self.len()
            invariant
                self.wf(),
                rows == self.rows(),
                i <= rows.len(),
                limit == usize::MAX - work,
                forall|j: int| 0 <= j < i ==> (#[trigger] rows[j]).1 <= limit,
            decreases rows.len() - i,
        {
            if *self.value_at(i) > limit {
                proof {
                    lemma_rows_lookup::<K, usize>(rows, i as int);
                    assert(self.counts().contains_key(rows[i as int].0));
                }
                return false;
            }
            i += 1;
        }
        proof {
            assert forall|a: K::V| #[trigger] self.counts().contains_key(a) implies self.counts()[a]
                <= limit by {
                let j = choose|j: int| #[trigger] is_row(rows, a, j);
                lemma_rows_lookup::<K, usize>(rows, j);
            }
        }
        true
    }
}

} // verus!
