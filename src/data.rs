//! The abstract values: intervals, identifiers of memory objects, and the
//! pointer-or-value lattice kept in registers and memory cells.
use vstd::prelude::*;
use crate::ir::{Tid, Variable};
use crate::table::{union_join_map, Duplicate, Join, Key, Table};

verus! {

/// The values `start ..= end`; the full range stands for any value.
#[derive(Clone, Copy, Debug, PartialEq, Eq, Structural)]
pub struct Interval {
    pub start: i64,
    pub end: i64,
}

impl View for Interval {
    type V = Interval;

    open spec fn view(&self) -> Interval {
        *self
    }
}

impl Duplicate for Interval {
    open spec fn inv(&self) -> bool {
        true
    }

    fn duplicate(&self) -> (r: Self) {
        *self
    }
}

pub open spec fn min_i64(a: i64, b: i64) -> i64 {
    if a <= b {
        a
    } else {
        b
    }
}

pub open spec fn max_i64(a: i64, b: i64) -> i64 {
    if a >= b {
        a
    } else {
        b
    }
}

/// The smallest interval that holds both.
pub open spec fn interval_join(a: Interval, b: Interval) -> Interval {
    Interval { start: min_i64(a.start, b.start), end: max_i64(a.end, b.end) }
}

/// `a` moved by `adj`; where a bound would leave the range of `i64`, the full range.
pub open spec fn interval_shift(a: Interval, adj: Interval) -> Interval {
    let s = a.start + adj.start;
    let e = a.end + adj.end;
    if i64::MIN <= s && s <= i64::MAX && i64::MIN <= e && e <= i64::MAX {
        Interval { start: s as i64, end: e as i64 }
    } else {
        Interval { start: i64::MIN, end: i64::MAX }
    }
}

impl Join for Interval {
    open spec fn join_spec(a: Interval, b: Interval) -> Interval {
        interval_join(a, b)
    }

    fn join(&self, o: &Self) -> (r: Self) {
        Interval {
            start: if self.start <= o.start {
                self.start
            } else {
                o.start
            },
            end: if self.end >= o.end {
                self.end
            } else {
                o.end
            },
        }
    }
}

impl Interval {
    /// The interval of the single value `v`.
    pub fn exact(v: i64) -> (r: Interval)
        ensures
            r == (Interval { start: v, end: v }),
    {
        Interval { start: v, end: v }
    }

    pub fn shift(&self, adj: &Interval) -> (r: Interval)
        ensures
            r == interval_shift(*self, *adj),
    {
        let s = self.start as i128 + adj.start as i128;
        let e = self.end as i128 + adj.end as i128;
        if i64::MIN as i128 <= s && s <= i64::MAX as i128 && i64::MIN as i128 <= e && e
            <= i64::MAX as i128 {
            Interval { start: s as i64, end: e as i64 }
        } else {
            Interval { start: i64::MIN, end: i64::MAX }
        }
    }
}

impl Duplicate for Variable {
    open spec fn inv(&self) -> bool {
        true
    }

    fn duplicate(&self) -> (r: Self) {
        self.clone()
    }
}

impl Key for Variable {
    fn same_as(&self, o: &Self) -> (r: bool) {
        *self == *o
    }
}

fn same_offsets(a: &Vec<i64>, b: &Vec<i64>) -> (r: bool)
    ensures
        r == (a@ == b@),
{
    if a.len() != b.len() {
        return false;
    }
    let mut i: usize = 0;
    while i < a.len()
        invariant
            a.len() == b.len(),
            i <= a.len(),
            forall|j: int| 0 <= j < i ==> a@[j] == b@[j],
        decreases a.len() - i,
    {
        if a[i] != b[i] {
            return false;
        }
        i = i + 1;
    }
    assert(a@ =~= b@);
    true
}

fn copy_offsets(a: &Vec<i64>) -> (r: Vec<i64>)
    ensures
        r@ == a@,
{
    let mut out: Vec<i64> = Vec::new();
    let mut i: usize = 0;
    while i < a.len()
        invariant
            i <= a.len(),
            out@ == a@.take(i as int),
        decreases a.len() - i,
    {
        out.push(a[i]);
        i = i + 1;
        assert(out@ =~= a@.take(i as int));
    }
    assert(a@.take(i as int) =~= a@);
    out
}

/// A symbolic location: a register, followed through a chain of
/// dereferences at the given offsets (none for the register itself).
#[derive(Debug, PartialEq)]
pub struct AbstractLocation {
    pub register: Variable,
    pub deref_offsets: Vec<i64>,
}

impl View for AbstractLocation {
    type V = ((Seq<char>, u64, bool), Seq<i64>);

    open spec fn view(&self) -> Self::V {
        (self.register@, self.deref_offsets@)
    }
}

impl AbstractLocation {
    /// The location of the value of a register.
    pub fn from_var(var: &Variable) -> (r: AbstractLocation)
        ensures
            r@ == (var@, Seq::<i64>::empty()),
    {
        AbstractLocation { register: var.clone(), deref_offsets: Vec::new() }
    }
}

/// The identity of a memory object: the term where it originated and a
/// symbolic location.
#[derive(Debug, PartialEq)]
pub struct AbstractIdentifier {
    pub tid: Tid,
    pub location: AbstractLocation,
}

pub type IdView = ((Seq<char>, Seq<char>), ((Seq<char>, u64, bool), Seq<i64>));

impl View for AbstractIdentifier {
    type V = IdView;

    open spec fn view(&self) -> IdView {
        (self.tid@, self.location@)
    }
}

impl Duplicate for AbstractIdentifier {
    open spec fn inv(&self) -> bool {
        true
    }

    fn duplicate(&self) -> (r: Self) {
        AbstractIdentifier {
            tid: self.tid.clone(),
            location: AbstractLocation {
                register: self.location.register.clone(),
                deref_offsets: copy_offsets(&self.location.deref_offsets),
            },
        }
    }
}

impl Key for AbstractIdentifier {
    fn same_as(&self, o: &Self) -> (r: bool) {
        self.tid == o.tid && self.location.register == o.location.register && same_offsets(
            &self.location.deref_offsets,
            &o.location.deref_offsets,
        )
    }
}

impl AbstractIdentifier {
    pub fn new(tid: Tid, location: AbstractLocation) -> (r: AbstractIdentifier)
        ensures
            r@ == (tid@, location@),
    {
        AbstractIdentifier { tid, location }
    }
}

/// An abstract value of `size` bytes: anything (*Top*), a number in an
/// interval, or a pointer into one or more memory objects, each with an
/// interval of offsets.
#[derive(Debug, PartialEq)]
pub enum Data {
    Top(u64),
    Value(u64, Interval),
    Pointer(u64, Table<AbstractIdentifier, Interval>),
}

/// What a `Data` stands for.
pub enum DataModel {
    Top(u64),
    Value(u64, Interval),
    Pointer(u64, Map<IdView, Interval>),
}

impl View for Data {
    type V = DataModel;

    open spec fn view(&self) -> DataModel {
        match self {
            Data::Top(s) => DataModel::Top(*s),
            Data::Value(s, i) => DataModel::Value(*s, *i),
            Data::Pointer(s, t) => DataModel::Pointer(*s, t@),
        }
    }
}

pub open spec fn data_size(d: DataModel) -> u64 {
    match d {
        DataModel::Top(s) => s,
        DataModel::Value(s, _) => s,
        DataModel::Pointer(s, _) => s,
    }
}

pub open spec fn data_join(a: DataModel, b: DataModel) -> DataModel {
    match (a, b) {
        (DataModel::Value(s, x), DataModel::Value(_, y)) => DataModel::Value(s, interval_join(x, y)),
        (DataModel::Pointer(s, x), DataModel::Pointer(_, y)) => DataModel::Pointer(
            s,
            union_join_map::<IdView, Interval>(x, y),
        ),
        _ => DataModel::Top(data_size(a)),
    }
}

/// The identifiers of the objects that a value may point to.
pub open spec fn data_ids(d: DataModel) -> Set<IdView> {
    match d {
        DataModel::Pointer(_, m) => m.dom(),
        _ => Set::empty(),
    }
}

/// References to `old_id` become references to `new_id`, the offset moved by `adj`.
pub open spec fn targets_replaced(
    m: Map<IdView, Interval>,
    old_id: IdView,
    new_id: IdView,
    adj: Interval,
) -> Map<IdView, Interval> {
    if m.contains_key(old_id) {
        let moved = interval_shift(m[old_id], adj);
        let rest = m.remove(old_id);
        rest.insert(
            new_id,
            if rest.contains_key(new_id) {
                interval_join(rest[new_id], moved)
            } else {
                moved
            },
        )
    } else {
        m
    }
}

pub open spec fn data_replaced(d: DataModel, old_id: IdView, new_id: IdView, adj: Interval) -> DataModel {
    match d {
        DataModel::Pointer(s, m) => DataModel::Pointer(s, targets_replaced(m, old_id, new_id, adj)),
        _ => d,
    }
}

pub proof fn lemma_union_join_self(m: Map<IdView, Interval>)
    ensures
        union_join_map::<IdView, Interval>(m, m) == m,
{
    assert(union_join_map::<IdView, Interval>(m, m) =~= m);
}

/// Joining a value with itself gives it back.
pub proof fn lemma_data_join_self(d: DataModel)
    ensures
        data_join(d, d) == d,
{
    if let DataModel::Pointer(_, m) = d {
        lemma_union_join_self(m);
    }
}

impl Duplicate for Data {
    open spec fn inv(&self) -> bool {
        match self {
            Data::Pointer(_, t) => t.wf(),
            _ => true,
        }
    }

    fn duplicate(&self) -> (r: Self) {
        match self {
            Data::Top(s) => Data::Top(*s),
            Data::Value(s, i) => Data::Value(*s, *i),
            Data::Pointer(s, t) => Data::Pointer(*s, t.duplicate_table()),
        }
    }
}

impl Join for Data {
    open spec fn join_spec(a: DataModel, b: DataModel) -> DataModel {
        data_join(a, b)
    }

    fn join(&self, o: &Self) -> (r: Self) {
        match (self, o) {
            (Data::Value(s, x), Data::Value(_, y)) => Data::Value(*s, x.join(y)),
            (Data::Pointer(s, x), Data::Pointer(_, y)) => Data::Pointer(*s, x.union_join(y)),
            _ => Data::Top(self.size()),
        }
    }
}

impl Data {
    /// The value about which nothing is known.
    pub fn new_top(size: u64) -> (r: Data)
        ensures
            r@ == DataModel::Top(size),
            r.inv(),
    {
        Data::Top(size)
    }

    /// A pointer to the single object `id`, at the offsets `offset`.
    pub fn from_target(id: AbstractIdentifier, offset: Interval, size: u64) -> (r: Data)
        ensures
            r@ == DataModel::Pointer(size, map![id@ => offset]),
            r.inv(),
    {
        let mut t: Table<AbstractIdentifier, Interval> = Table::new();
        t.push_new(id, offset);
        proof {
            assert(t@ =~= map![id@ => offset]);
        }
        Data::Pointer(size, t)
    }

    pub fn size(&self) -> (r: u64)
        ensures
            r == data_size(self@),
    {
        match self {
            Data::Top(s) => *s,
            Data::Value(s, _) => *s,
            Data::Pointer(s, _) => *s,
        }
    }

    pub fn is_top(&self) -> (r: bool)
        ensures
            r == (self@ is Top),
    {
        match self {
            Data::Top(_) => true,
            _ => false,
        }
    }

    /// Replaces references to `old_id` by references to `new_id`, moving
    /// their offsets by `adj`.
    pub fn replace_id(&self, old_id: &AbstractIdentifier, new_id: &AbstractIdentifier, adj: &Interval) -> (r: Data)
        requires
            self.inv(),
        ensures
            r.inv(),
            r@ == data_replaced(self@, old_id@, new_id@, *adj),
    {
        match self {
            Data::Pointer(s, t) => {
                match t.get(old_id) {
                    Some(off) => {
                        let moved = off.shift(adj);
                        let mut rest = t.duplicate_table();
                        rest.remove(old_id);
                        let v = match rest.get(new_id) {
                            Some(cur) => cur.join(&moved),
                            None => moved,
                        };
                        rest.insert(new_id, v);
                        Data::Pointer(*s, rest)
                    },
                    None => Data::Pointer(*s, t.duplicate_table()),
                }
            },
            Data::Top(s) => Data::Top(*s),
            Data::Value(s, i) => Data::Value(*s, *i),
        }
    }
}


/// A finite set of identifiers.
#[derive(Debug, PartialEq)]
pub struct IdSet {
    pub ids: Vec<AbstractIdentifier>,
}

impl View for IdSet {
    type V = Set<IdView>;

    open spec fn view(&self) -> Set<IdView> {
        Set::new(|k: IdView| exists|i: int| 0 <= i < self.ids.len() && self.ids@[i]@ == k)
    }
}

impl IdSet {
    pub fn new() -> (r: IdSet)
        ensures
            r@ == Set::<IdView>::empty(),
    {
        let r = IdSet { ids: Vec::new() };
        assert(r@ =~= Set::<IdView>::empty());
        r
    }

    pub fn contains(&self, id: &AbstractIdentifier) -> (r: bool)
        ensures
            r == self@.contains(id@),
    {
        let mut i: usize = 0;
        while i < self.ids.len()
            invariant
                i <= self.ids.len(),
                forall|j: int| 0 <= j < i ==> self.ids@[j]@ != id@,
            decreases self.ids.len() - i,
        {
            if self.ids[i].same_as(id) {
                return true;
            }
            i = i + 1;
        }
        false
    }

    pub fn insert(&mut self, id: &AbstractIdentifier)
        ensures
            final(self)@ == old(self)@.insert(id@),
    {
        if !self.contains(id) {
            let ghost before = self.ids@;
            self.ids.push(id.duplicate());
            proof {
                assert forall|k: IdView| final(self)@.contains(k) == old(self)@.insert(id@).contains(k) by {
                    if old(self)@.contains(k) {
                        let i = choose|i: int| 0 <= i < before.len() && before[i]@ == k;
                        assert(self.ids@[i]@ == k);
                    }
                    if k == id@ {
                        assert(self.ids@[before.len() as int]@ == k);
                    }
                }
                assert(self@ =~= old(self)@.insert(id@));
            }
        } else {
            assert(self@ =~= old(self)@.insert(id@));
        }
    }

    /// Adds every identifier of `o`.
    pub fn extend(&mut self, o: &IdSet)
        ensures
            final(self)@ == old(self)@.union(o@),
    {
        let mut i: usize = 0;
        while i < o.ids.len()
            invariant
                i <= o.ids.len(),
                self@ == old(self)@.union(
                    Set::new(|k: IdView| exists|j: int| 0 <= j < i && o.ids@[j]@ == k),
                ),
            decreases o.ids.len() - i,
        {
            self.insert(&o.ids[i]);
            i = i + 1;
            proof {
                assert(self@ =~= old(self)@.union(
                    Set::new(|k: IdView| exists|j: int| 0 <= j < i && o.ids@[j]@ == k),
                ));
            }
        }
        assert(self@ =~= old(self)@.union(o@));
    }

    pub fn duplicate_set(&self) -> (r: IdSet)
        ensures
            r@ == self@,
    {
        let mut r = IdSet::new();
        r.extend(self);
        assert(r@ =~= self@);
        r
    }
}

impl Data {
    /// The identifiers of the objects that the value may point to.
    pub fn referenced_ids(&self) -> (r: IdSet)
        requires
            self.inv(),
        ensures
            r@ == data_ids(self@),
    {
        let mut r = IdSet::new();
        match self {
            Data::Pointer(_, t) => {
                let mut i: usize = 0;
                while i < t.entries.len()
                    invariant
                        t.wf(),
                        i <= t.entries.len(),
                        r@ == crate::table::to_map(t.entries@.take(i as int)).dom(),
                    decreases t.entries.len() - i,
                {
                    proof {
                        assert(t.entries@.take(i + 1).drop_last() =~= t.entries@.take(i as int));
                    }
                    r.insert(&t.entries[i].0);
                    i = i + 1;
                }
                assert(t.entries@.take(i as int) =~= t.entries@);
            },
            _ => {
                assert(r@ =~= data_ids(self@));
            },
        }
        r
    }
}

} // verus!
