//! A small association table: a vector of key/value pairs with distinct keys,
//! seen as a finite map from key views to value views.
use vstd::prelude::*;

verus! {

/// A value that can be copied with its view kept, and that may have an
/// internal invariant.
pub trait Duplicate: View + Sized {
    spec fn inv(&self) -> bool;

    fn duplicate(&self) -> (r: Self)
        requires
            self.inv(),
        ensures
            r@ == self@,
            r.inv(),
    ;
}

/// A key: a duplicable value whose equality is equality of views.
pub trait Key: Duplicate {
    fn same_as(&self, o: &Self) -> (r: bool)
        ensures
            r == (self@ == o@),
    ;
}

/// A value with a join (least upper bound in the abstract domain).
pub trait Join: Duplicate {
    spec fn join_spec(a: Self::V, b: Self::V) -> Self::V;

    fn join(&self, o: &Self) -> (r: Self)
        requires
            self.inv(),
            o.inv(),
        ensures
            r@ == Self::join_spec(self@, o@),
            r.inv(),
    ;
}

impl Duplicate for i64 {
    open spec fn inv(&self) -> bool {
        true
    }

    fn duplicate(&self) -> (r: Self) {
        *self
    }
}

impl Key for i64 {
    fn same_as(&self, o: &Self) -> (r: bool) {
        *self == *o
    }
}

/// The map that a sequence of pairs stands for; a later pair wins.
pub open spec fn to_map<K: View, V: View>(e: Seq<(K, V)>) -> Map<K::V, V::V>
    decreases e.len(),
{
    if e.len() == 0 {
        Map::empty()
    } else {
        to_map(e.drop_last()).insert(e.last().0@, e.last().1@)
    }
}

pub open spec fn keys_distinct<K: View, V>(e: Seq<(K, V)>) -> bool {
    forall|i: int, j: int| 0 <= i < j < e.len() ==> e[i].0@ != e[j].0@
}

pub proof fn lemma_to_map_index<K: View, V: View>(e: Seq<(K, V)>, i: int)
    requires
        keys_distinct(e),
        0 <= i < e.len(),
    ensures
        to_map(e).contains_key(e[i].0@),
        to_map(e)[e[i].0@] == e[i].1@,
    decreases e.len(),
{
    if i < e.len() - 1 {
        lemma_to_map_index(e.drop_last(), i);
    }
}

pub proof fn lemma_to_map_contains<K: View, V: View>(e: Seq<(K, V)>, k: K::V)
    requires
        to_map(e).contains_key(k),
    ensures
        exists|i: int| 0 <= i < e.len() && e[i].0@ == k,
    decreases e.len(),
{
    if e.last().0@ != k {
        lemma_to_map_contains(e.drop_last(), k);
        let i = choose|i: int| 0 <= i < e.len() - 1 && e.drop_last()[i].0@ == k;
        assert(e[i].0@ == k);
    }
}

pub proof fn lemma_to_map_push<K: View, V: View>(e: Seq<(K, V)>, x: (K, V))
    requires
        keys_distinct(e),
        !to_map(e).contains_key(x.0@),
    ensures
        keys_distinct(e.push(x)),
        to_map(e.push(x)) == to_map(e).insert(x.0@, x.1@),
{
    assert(e.push(x).drop_last() =~= e);
    assert forall|i: int, j: int| 0 <= i < j < e.len() + 1 implies e.push(x)[i].0@ != e.push(
        x,
    )[j].0@ by {
        if j == e.len() {
            lemma_to_map_index(e, i);
        }
    }
}


pub proof fn lemma_to_map_len<K: View, V: View>(e: Seq<(K, V)>)
    requires
        keys_distinct(e),
    ensures
        to_map(e).dom().finite(),
        to_map(e).dom().len() == e.len(),
    decreases e.len(),
{
    if e.len() > 0 {
        let d = e.drop_last();
        assert(keys_distinct(d));
        lemma_to_map_len(d);
        if to_map(d).contains_key(e.last().0@) {
            lemma_to_map_contains(d, e.last().0@);
            let i = choose|i: int| 0 <= i < d.len() && d[i].0@ == e.last().0@;
            assert(e[i].0@ == e[e.len() - 1].0@);
        }
        assert(to_map(e).dom() =~= to_map(d).dom().insert(e.last().0@));
    }
}

/// Key/value pairs with distinct keys.
#[derive(Debug, PartialEq)]
pub struct Table<K, V> {
    pub entries: Vec<(K, V)>,
}

impl<K: View, V: View> View for Table<K, V> {
    type V = Map<K::V, V::V>;

    open spec fn view(&self) -> Map<K::V, V::V> {
        to_map(self.entries@)
    }
}

impl<K: Key, V: Duplicate> Table<K, V> {
    pub open spec fn wf(&self) -> bool {
        keys_distinct(self.entries@) && forall|i: int|
            0 <= i < self.entries.len() ==> (#[trigger] self.entries@[i]).0.inv()
                && self.entries@[i].1.inv()
    }

    pub fn new() -> (r: Self)
        ensures
            r.wf(),
            r@ == Map::<K::V, V::V>::empty(),
    {
        Table { entries: Vec::new() }
    }

    /// The position of `k`, if it is a key.
    pub fn find(&self, k: &K) -> (r: Option<usize>)
        requires
            self.wf(),
        ensures
            r is None <==> !self@.contains_key(k@),
            r is Some ==> r->0 < self.entries.len() && self.entries@[r->0 as int].0@ == k@
                && self@[k@] == self.entries@[r->0 as int].1@,
    {
        let mut i: usize = 0;
        while i < self.entries.len()
            invariant
                self.wf(),
                i <= self.entries.len(),
                forall|j: int| 0 <= j < i ==> self.entries@[j].0@ != k@,
            decreases self.entries.len() - i,
        {
            if self.entries[i].0.same_as(k) {
                proof {
                    lemma_to_map_index(self.entries@, i as int);
                }
                return Some(i);
            }
            i = i + 1;
        }
        proof {
            if self@.contains_key(k@) {
                lemma_to_map_contains(self.entries@, k@);
            }
        }
        None
    }

    pub fn get(&self, k: &K) -> (r: Option<&V>)
        requires
            self.wf(),
        ensures
            r is None <==> !self@.contains_key(k@),
            r is Some ==> r->0@ == self@[k@] && r->0.inv(),
    {
        match self.find(k) {
            Some(i) => Some(&self.entries[i].1),
            None => None,
        }
    }

    pub fn contains_key(&self, k: &K) -> (r: bool)
        requires
            self.wf(),
        ensures
            r == self@.contains_key(k@),
    {
        self.find(k).is_some()
    }

    /// Adds a pair whose key is new.
    pub fn push_new(&mut self, k: K, v: V)
        requires
            old(self).wf(),
            k.inv(),
            v.inv(),
            !old(self)@.contains_key(k@),
        ensures
            final(self).wf(),
            final(self)@ == old(self)@.insert(k@, v@),
    {
        proof {
            lemma_to_map_push(self.entries@, (k, v));
        }
        self.entries.push((k, v));
    }

    /// A copy of the table without the pair of key `k`, with `(k, v)` added
    /// where `v` is given.
    fn rebuilt(&self, k: &K, v: Option<V>) -> (r: Self)
        requires
            self.wf(),
            k.inv(),
            v is Some ==> v->0.inv(),
        ensures
            r.wf(),
            r@ == match v {
                Some(x) => self@.insert(k@, x@),
                None => self@.remove(k@),
            },
    {
        let mut out: Table<K, V> = Table::new();
        let mut i: usize = 0;
        while i < self.entries.len()
            invariant
                self.wf(),
                i <= self.entries.len(),
                out.wf(),
                out@ == to_map(self.entries@.take(i as int)).remove(k@),
            decreases self.entries.len() - i,
        {
            let ghost pre = self.entries@.take(i as int);
            proof {
                assert(self.entries@.take(i + 1).drop_last() =~= pre);
            }
            if !self.entries[i].0.same_as(k) {
                proof {
                    if out@.contains_key(self.entries@[i as int].0@) {
                        lemma_to_map_contains(pre, self.entries@[i as int].0@);
                        let j = choose|j: int| 0 <= j < pre.len() && pre[j].0@ == self.entries@[i as int].0@;
                        assert(self.entries@[j].0@ == self.entries@[i as int].0@);
                    }
                }
                let kk = self.entries[i].0.duplicate();
                let vv = self.entries[i].1.duplicate();
                out.push_new(kk, vv);
                proof {
                    assert(out@ =~= to_map(self.entries@.take(i + 1)).remove(k@));
                }
            } else {
                proof {
                    assert(out@ =~= to_map(self.entries@.take(i + 1)).remove(k@));
                }
            }
            i = i + 1;
        }
        proof {
            assert(self.entries@.take(i as int) =~= self.entries@);
        }
        match v {
            Some(x) => {
                let kk = k.duplicate();
                out.push_new(kk, x);
                proof {
                    assert(out@ =~= self@.insert(k@, x@));
                }
            },
            None => {},
        }
        out
    }

    /// Sets the value of `k` to `v`.
    pub fn insert(&mut self, k: &K, v: V)
        requires
            old(self).wf(),
            k.inv(),
            v.inv(),
        ensures
            final(self).wf(),
            final(self)@ == old(self)@.insert(k@, v@),
    {
        *self = self.rebuilt(k, Some(v));
    }

    /// Removes the pair of key `k`, if any.
    pub fn remove(&mut self, k: &K)
        requires
            old(self).wf(),
            k.inv(),
        ensures
            final(self).wf(),
            final(self)@ == old(self)@.remove(k@),
    {
        *self = self.rebuilt(k, None);
    }

    pub fn duplicate_table(&self) -> (r: Self)
        requires
            self.wf(),
        ensures
            r.wf(),
            r@ == self@,
    {
        let mut out: Table<K, V> = Table::new();
        let mut i: usize = 0;
        while i < self.entries.len()
            invariant
                self.wf(),
                i <= self.entries.len(),
                out.wf(),
                out@ == to_map(self.entries@.take(i as int)),
            decreases self.entries.len() - i,
        {
            let ghost pre = self.entries@.take(i as int);
            proof {
                assert(self.entries@.take(i + 1).drop_last() =~= pre);
                if out@.contains_key(self.entries@[i as int].0@) {
                    lemma_to_map_contains(pre, self.entries@[i as int].0@);
                    let j = choose|j: int| 0 <= j < pre.len() && pre[j].0@ == self.entries@[i as int].0@;
                    assert(self.entries@[j].0@ == self.entries@[i as int].0@);
                }
            }
            let kk = self.entries[i].0.duplicate();
            let vv = self.entries[i].1.duplicate();
            out.push_new(kk, vv);
            i = i + 1;
        }
        proof {
            assert(self.entries@.take(i as int) =~= self.entries@);
        }
        out
    }
}


/// Every key of either map; keys of both get the join of their values.
pub open spec fn union_join_map<KV, V: Join>(a: Map<KV, V::V>, b: Map<KV, V::V>) -> Map<KV, V::V> {
    Map::new(
        |k: KV| a.contains_key(k) || b.contains_key(k),
        |k: KV|
            if a.contains_key(k) && b.contains_key(k) {
                V::join_spec(a[k], b[k])
            } else if a.contains_key(k) {
                a[k]
            } else {
                b[k]
            },
    )
}

/// The keys of both maps, with the join of their values.
pub open spec fn common_join_map<KV, V: Join>(a: Map<KV, V::V>, b: Map<KV, V::V>) -> Map<KV, V::V> {
    Map::new(
        |k: KV| a.contains_key(k) && b.contains_key(k),
        |k: KV| V::join_spec(a[k], b[k]),
    )
}

pub proof fn lemma_prefix_key_pub<K: View, V: View>(e: Seq<(K, V)>, i: int)
    requires
        keys_distinct(e),
        0 <= i < e.len(),
    ensures
        !to_map(e.take(i)).contains_key(e[i].0@),
        to_map(e.take(i + 1)) == to_map(e.take(i)).insert(e[i].0@, e[i].1@),
        e.take(i + 1).drop_last() == e.take(i),
{
    assert(e.take(i + 1).drop_last() =~= e.take(i));
    if to_map(e.take(i)).contains_key(e[i].0@) {
        lemma_to_map_contains(e.take(i), e[i].0@);
        let j = choose|j: int| 0 <= j < i && e.take(i)[j].0@ == e[i].0@;
        assert(e[j].0@ == e[i].0@);
    }
}

impl<K: Key, V: Join> Table<K, V> {
    /// Joins two tables key by key; a key of one table only keeps its value.
    pub fn union_join(&self, o: &Self) -> (r: Self)
        requires
            self.wf(),
            o.wf(),
        ensures
            r.wf(),
            r@ == union_join_map::<K::V, V>(self@, o@),
    {
        let mut out: Table<K, V> = Table::new();
        let mut i: usize = 0;
        while i < self.entries.len()
            invariant
                self.wf(),
                o.wf(),
                i <= self.entries.len(),
                out.wf(),
                out@.dom() == to_map(self.entries@.take(i as int)).dom(),
                forall|k: K::V|
                    #[trigger] out@.contains_key(k) ==> out@[k] == union_join_map::<K::V, V>(
                        self@,
                        o@,
                    )[k] && self@.contains_key(k),
            decreases self.entries.len() - i,
        {
            proof {
                lemma_prefix_key_pub(self.entries@, i as int);
                lemma_to_map_index(self.entries@, i as int);
            }
            let kk = self.entries[i].0.duplicate();
            let v = match o.get(&self.entries[i].0) {
                Some(w) => self.entries[i].1.join(w),
                None => self.entries[i].1.duplicate(),
            };
            out.push_new(kk, v);
            i = i + 1;
            proof {
                assert(out@.dom() =~= to_map(self.entries@.take(i as int)).dom());
            }
        }
        proof {
            assert(self.entries@.take(i as int) =~= self.entries@);
        }
        let mut j: usize = 0;
        while j < o.entries.len()
            invariant
                self.wf(),
                o.wf(),
                j <= o.entries.len(),
                out.wf(),
                out@.dom() == self@.dom().union(to_map(o.entries@.take(j as int)).dom()),
                forall|k: K::V|
                    #[trigger] out@.contains_key(k) ==> out@[k] == union_join_map::<K::V, V>(
                        self@,
                        o@,
                    )[k],
            decreases o.entries.len() - j,
        {
            proof {
                lemma_prefix_key_pub(o.entries@, j as int);
                lemma_to_map_index(o.entries@, j as int);
            }
            if !self.contains_key(&o.entries[j].0) {
                let kk = o.entries[j].0.duplicate();
                let v = o.entries[j].1.duplicate();
                out.push_new(kk, v);
            }
            j = j + 1;
            proof {
                assert(out@.dom() =~= self@.dom().union(to_map(o.entries@.take(j as int)).dom()));
            }
        }
        proof {
            assert(o.entries@.take(j as int) =~= o.entries@);
            assert(out@ =~= union_join_map::<K::V, V>(self@, o@));
        }
        out
    }

    /// Joins the values of the keys that both tables have; other keys are dropped.
    pub fn common_join(&self, o: &Self) -> (r: Self)
        requires
            self.wf(),
            o.wf(),
        ensures
            r.wf(),
            r@ == common_join_map::<K::V, V>(self@, o@),
    {
        let mut out: Table<K, V> = Table::new();
        let mut i: usize = 0;
        while i < self.entries.len()
            invariant
                self.wf(),
                o.wf(),
                i <= self.entries.len(),
                out.wf(),
                out@.dom() == to_map(self.entries@.take(i as int)).dom().intersect(o@.dom()),
                forall|k: K::V|
                    #[trigger] out@.contains_key(k) ==> out@[k] == common_join_map::<K::V, V>(
                        self@,
                        o@,
                    )[k] && self@.contains_key(k),
            decreases self.entries.len() - i,
        {
            proof {
                lemma_prefix_key_pub(self.entries@, i as int);
                lemma_to_map_index(self.entries@, i as int);
            }
            match o.get(&self.entries[i].0) {
                Some(w) => {
                    let kk = self.entries[i].0.duplicate();
                    let v = self.entries[i].1.join(w);
                    out.push_new(kk, v);
                },
                None => {},
            }
            i = i + 1;
            proof {
                assert(out@.dom() =~= to_map(self.entries@.take(i as int)).dom().intersect(o@.dom()));
            }
        }
        proof {
            assert(self.entries@.take(i as int) =~= self.entries@);
            assert(out@ =~= common_join_map::<K::V, V>(self@, o@));
        }
        out
    }
}

} // verus!
