//! Abstract memory objects: stack frames, heap allocations and parameter
//! objects, with their contents and their freed status.
use vstd::prelude::*;
use crate::data::{data_ids, data_replaced, AbstractIdentifier, Data, DataModel, IdSet, IdView, Interval};
use crate::table::{common_join_map, to_map, Duplicate, Join, Table};

verus! {

#[derive(Clone, Copy, Debug, PartialEq, Eq, Structural)]
pub enum ObjectType {
    Stack,
    Heap,
    Param,
}

#[derive(Clone, Copy, Debug, PartialEq, Eq, Structural)]
pub enum ObjectState {
    Live,
    Freed,
    Unknown,
}

/// One memory object: its kind, its status, the width in bytes of the
/// addresses that point into it (`size`), and the
/// values known at some offsets (an offset without an entry is unknown).
#[derive(Debug, PartialEq)]
pub struct AbstractObject {
    pub object_type: ObjectType,
    pub state: ObjectState,
    pub size: u64,
    pub content: Table<i64, Data>,
}

pub struct ObjectModel {
    pub object_type: ObjectType,
    pub state: ObjectState,
    pub size: u64,
    pub content: Map<i64, DataModel>,
}

impl View for AbstractObject {
    type V = ObjectModel;

    open spec fn view(&self) -> ObjectModel {
        ObjectModel {
            object_type: self.object_type,
            state: self.state,
            size: self.size,
            content: self.content@,
        }
    }
}

pub open spec fn state_join(a: ObjectState, b: ObjectState) -> ObjectState {
    if a == b {
        a
    } else {
        ObjectState::Unknown
    }
}

/// Joins two views of one object: offsets known on both sides keep the
/// join of their values.
pub open spec fn object_join(a: ObjectModel, b: ObjectModel) -> ObjectModel {
    ObjectModel {
        object_type: a.object_type,
        state: state_join(a.state, b.state),
        size: a.size,
        content: common_join_map::<i64, Data>(a.content, b.content),
    }
}

/// The identifiers that the contents of an object point to.
pub open spec fn object_ids(o: ObjectModel) -> Set<IdView> {
    Set::new(
        |id: IdView|
            exists|off: i64| o.content.contains_key(off) && data_ids(o.content[off]).contains(id),
    )
}

pub open spec fn object_replaced(o: ObjectModel, old_id: IdView, new_id: IdView, adj: Interval) -> ObjectModel {
    ObjectModel {
        content: Map::new(
            |off: i64| o.content.contains_key(off),
            |off: i64| data_replaced(o.content[off], old_id, new_id, adj),
        ),
        ..o
    }
}

pub proof fn lemma_object_join_self(o: ObjectModel)
    ensures
        object_join(o, o) == o,
{
    assert forall|off: i64| o.content.contains_key(off) implies crate::data::data_join(
        o.content[off],
        o.content[off],
    ) == o.content[off] by {
        crate::data::lemma_data_join_self(o.content[off]);
    }
    assert(common_join_map::<i64, Data>(o.content, o.content) =~= o.content);
}

impl Duplicate for AbstractObject {
    open spec fn inv(&self) -> bool {
        self.content.wf()
    }

    fn duplicate(&self) -> (r: Self) {
        AbstractObject {
            object_type: self.object_type,
            state: self.state,
            size: self.size,
            content: self.content.duplicate_table(),
        }
    }
}

impl Join for AbstractObject {
    open spec fn join_spec(a: ObjectModel, b: ObjectModel) -> ObjectModel {
        object_join(a, b)
    }

    fn join(&self, o: &Self) -> (r: Self) {
        AbstractObject {
            object_type: self.object_type,
            state: if self.state == o.state {
                self.state
            } else {
                ObjectState::Unknown
            },
            size: self.size,
            content: self.content.common_join(&o.content),
        }
    }
}

impl AbstractObject {
    /// A live object with no known contents.
    pub fn new(object_type: ObjectType, size: u64) -> (r: AbstractObject)
        ensures
            r.inv(),
            r@ == (ObjectModel {
                object_type,
                state: ObjectState::Live,
                size,
                content: Map::empty(),
            }),
    {
        AbstractObject { object_type, state: ObjectState::Live, size, content: Table::new() }
    }

    /// The identifiers that the contents point to.
    pub fn referenced_ids(&self) -> (r: IdSet)
        requires
            self.inv(),
        ensures
            r@ == object_ids(self@),
    {
        let mut r = IdSet::new();
        let mut i: usize = 0;
        while i < self.content.entries.len()
            invariant
                self.inv(),
                i <= self.content.entries.len(),
                r@ == object_ids(
                    ObjectModel { content: to_map(self.content.entries@.take(i as int)), ..self@ },
                ),
            decreases self.content.entries.len() - i,
        {
            let ghost pre = self.content.entries@.take(i as int);
            proof {
                assert(self.content.entries@.take(i + 1).drop_last() =~= pre);
            }
            let ids = self.content.entries[i].1.referenced_ids();
            r.extend(&ids);
            i = i + 1;
            proof {
                let e = self.content.entries@[i - 1];
                let m1 = to_map(self.content.entries@.take(i as int));
                assert(m1 == to_map(pre).insert(e.0@, e.1@));
                assert forall|id: IdView| r@.contains(id) <== object_ids(
                    ObjectModel { content: m1, ..self@ },
                ).contains(id) by {
                    if object_ids(ObjectModel { content: m1, ..self@ }).contains(id) {
                        let off = choose|off: i64|
                            m1.contains_key(off) && data_ids(m1[off]).contains(id);
                        if off != e.0@ {
                            assert(to_map(pre).contains_key(off));
                        }
                    }
                }
                assert forall|id: IdView| r@.contains(id) ==> object_ids(
                    ObjectModel { content: m1, ..self@ },
                ).contains(id) by {
                    if r@.contains(id) && !data_ids(e.1@).contains(id) {
                        let off = choose|off: i64|
                            to_map(pre).contains_key(off) && data_ids(to_map(pre)[off]).contains(id);
                        crate::table::lemma_to_map_contains(pre, off);
                        let j = choose|j: int| 0 <= j < pre.len() && pre[j].0@ == off;
                        assert(self.content.entries@[j].0@ != e.0@);
                        assert(m1.contains_key(off) && m1[off] == to_map(pre)[off]);
                    }
                    if r@.contains(id) && data_ids(e.1@).contains(id) {
                        assert(m1.contains_key(e.0@) && m1[e.0@] == e.1@);
                    }
                }
                assert(r@ =~= object_ids(ObjectModel { content: m1, ..self@ }));
            }
        }
        proof {
            assert(self.content.entries@.take(i as int) =~= self.content.entries@);
        }
        r
    }

    /// The object with references to `old_id` turned into references to
    /// `new_id`, offsets moved by `adj`.
    pub fn replace_id(&self, old_id: &AbstractIdentifier, new_id: &AbstractIdentifier, adj: &Interval) -> (r: AbstractObject)
        requires
            self.inv(),
        ensures
            r.inv(),
            r@ == object_replaced(self@, old_id@, new_id@, *adj),
    {
        let mut content: Table<i64, Data> = Table::new();
        let mut i: usize = 0;
        while i < self.content.entries.len()
            invariant
                self.inv(),
                i <= self.content.entries.len(),
                content.wf(),
                content@ == object_replaced(
                    ObjectModel { content: to_map(self.content.entries@.take(i as int)), ..self@ },
                    old_id@,
                    new_id@,
                    *adj,
                ).content,
            decreases self.content.entries.len() - i,
        {
            let ghost pre = self.content.entries@.take(i as int);
            proof {
                crate::table::lemma_prefix_key_pub(self.content.entries@, i as int);
            }
            let v = self.content.entries[i].1.replace_id(old_id, new_id, adj);
            content.push_new(self.content.entries[i].0, v);
            i = i + 1;
            proof {
                assert(content@ =~= object_replaced(
                    ObjectModel { content: to_map(self.content.entries@.take(i as int)), ..self@ },
                    old_id@,
                    new_id@,
                    *adj,
                ).content);
            }
        }
        proof {
            assert(self.content.entries@.take(i as int) =~= self.content.entries@);
        }
        let r = AbstractObject {
            object_type: self.object_type,
            state: self.state,
            size: self.size,
            content,
        };
        assert(r@ == object_replaced(self@, old_id@, new_id@, *adj));
        r
    }
}

} // verus!
