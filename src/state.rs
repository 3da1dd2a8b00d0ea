//! The abstract state of the program at one point: registers, memory objects
//! and the stack identities of the call chain.
use vstd::prelude::*;
use crate::data::{
    data_ids, data_replaced, AbstractIdentifier, AbstractLocation, Data, DataModel, IdSet, IdView,
    Interval,
};
use crate::ir::{modulus, BinOpType, Bitvector, Error, Expression, Tid, Variable};
use crate::sub::{Arg, ExternSymbol};
use crate::memory_image::{segment_index, RuntimeMemoryImage};
use crate::data::interval_shift;
use crate::sub::CallingConvention;
use crate::object::{object_ids, object_join, object_replaced, AbstractObject, ObjectModel, ObjectState, ObjectType};
use crate::table::{common_join_map, to_map, union_join_map, Duplicate, Key, Table};

verus! {

pub type VarView = (Seq<char>, u64, bool);

/// All known memory objects, by identifier.
pub type AbstractObjectList = Table<AbstractIdentifier, AbstractObject>;

/// All that is known of the state of a program at one point.
#[derive(Debug, PartialEq)]
pub struct State {
    /// The value of each register; a register without an entry may hold anything.
    pub register: Table<Variable, Data>,
    /// All known memory objects.
    pub memory: AbstractObjectList,
    /// The object of the current stack frame; it points to the base of the
    /// frame, so only negative offsets lie inside the frame.
    pub stack_id: AbstractIdentifier,
    /// The stack frames of the callers.
    pub caller_stack_ids: IdSet,
    /// The objects that some caller knows of; they are kept even where no
    /// pointer to them is left, so that the caller can recover them.
    pub ids_known_to_caller: IdSet,
}

pub struct StateModel {
    pub register: Map<VarView, DataModel>,
    pub memory: Map<IdView, ObjectModel>,
    pub stack_id: IdView,
    pub caller_stack_ids: Set<IdView>,
    pub ids_known_to_caller: Set<IdView>,
}

impl View for State {
    type V = StateModel;

    open spec fn view(&self) -> StateModel {
        StateModel {
            register: self.register@,
            memory: self.memory@,
            stack_id: self.stack_id@,
            caller_stack_ids: self.caller_stack_ids@,
            ids_known_to_caller: self.ids_known_to_caller@,
        }
    }
}

/// No register is stored with the value *Top*; the current stack object exists.
pub open spec fn model_wf(s: StateModel) -> bool {
    &&& forall|k: VarView| #[trigger] s.register.contains_key(k) ==> !(s.register[k] is Top)
    &&& s.memory.contains_key(s.stack_id)
}

/// The value of register `v`: *Top* where nothing is stored.
pub open spec fn register_value(s: StateModel, v: VarView) -> DataModel {
    if s.register.contains_key(v) {
        s.register[v]
    } else {
        DataModel::Top(v.1)
    }
}

/// The registers with `v` set to `d`; a *Top* value is stored as no entry.
pub open spec fn registers_set(r: Map<VarView, DataModel>, v: VarView, d: DataModel) -> Map<VarView, DataModel> {
    if d is Top {
        r.remove(v)
    } else {
        r.insert(v, d)
    }
}

/// The registers known on both sides, joined, with *Top* results dropped.
pub open spec fn registers_join(a: Map<VarView, DataModel>, b: Map<VarView, DataModel>) -> Map<VarView, DataModel> {
    let j = common_join_map::<VarView, Data>(a, b);
    Map::new(|k: VarView| j.contains_key(k) && !(j[k] is Top), |k: VarView| j[k])
}

/// The join of two states of one stack frame.
pub open spec fn state_merge(a: StateModel, b: StateModel) -> StateModel {
    StateModel {
        register: registers_join(a.register, b.register),
        memory: union_join_map::<IdView, AbstractObject>(a.memory, b.memory),
        stack_id: a.stack_id,
        caller_stack_ids: a.caller_stack_ids.union(b.caller_stack_ids),
        ids_known_to_caller: a.ids_known_to_caller.union(b.ids_known_to_caller),
    }
}

/// Merging a state with itself gives it back: its registers hold no *Top*
/// value, and every register value and memory object joined with itself is
/// unchanged.
pub proof fn lemma_merge_self(s: StateModel)
    requires
        model_wf(s),
    ensures
        state_merge(s, s) == s,
{
    assert forall|k: VarView| s.register.contains_key(k) implies crate::data::data_join(
        s.register[k],
        s.register[k],
    ) == s.register[k] by {
        crate::data::lemma_data_join_self(s.register[k]);
    }
    assert(registers_join(s.register, s.register) =~= s.register);
    assert forall|k: IdView| s.memory.contains_key(k) implies object_join(
        s.memory[k],
        s.memory[k],
    ) == s.memory[k] by {
        crate::object::lemma_object_join_self(s.memory[k]);
    }
    assert(union_join_map::<IdView, AbstractObject>(s.memory, s.memory) =~= s.memory);
    assert(s.caller_stack_ids.union(s.caller_stack_ids) =~= s.caller_stack_ids);
    assert(s.ids_known_to_caller.union(s.ids_known_to_caller) =~= s.ids_known_to_caller);
}


/// The identifiers that the registers point to.
pub open spec fn register_ids(s: StateModel) -> Set<IdView> {
    Set::new(
        |id: IdView|
            exists|k: VarView| s.register.contains_key(k) && data_ids(s.register[k]).contains(id),
    )
}

/// Where the search for live objects starts: what the registers point to,
/// the current stack frame, the callers' stack frames and the objects that
/// callers know of.
pub open spec fn root_ids(s: StateModel) -> Set<IdView> {
    register_ids(s).insert(s.stack_id).union(s.caller_stack_ids).union(s.ids_known_to_caller)
}

/// Each identifier of `p` after the first is pointed to from the contents of
/// the object of the one before it.
pub open spec fn is_pointer_path(mem: Map<IdView, ObjectModel>, p: Seq<IdView>) -> bool {
    forall|i: int|
        0 <= i < p.len() - 1 ==> mem.contains_key(#[trigger] p[i]) && object_ids(mem[p[i]]).contains(
            p[i + 1],
        )
}

/// `id` is reached from the roots by following pointers through objects.
pub open spec fn reachable(s: StateModel, id: IdView) -> bool {
    exists|p: Seq<IdView>|
        p.len() >= 1 && root_ids(s).contains(p[0]) && p.last() == id && is_pointer_path(s.memory, p)
}

/// The objects that are left once the unreachable ones are removed.
pub open spec fn referenced_memory(s: StateModel) -> Map<IdView, ObjectModel> {
    Map::new(|k: IdView| s.memory.contains_key(k) && reachable(s, k), |k: IdView| s.memory[k])
}

/// Removing unreferenced objects never removes the current stack frame, a
/// caller's stack frame, or an object known to a caller.
pub proof fn lemma_roots_survive_cleanup(s: StateModel, id: IdView)
    requires
        s.memory.contains_key(id),
        id == s.stack_id || s.caller_stack_ids.contains(id) || s.ids_known_to_caller.contains(id),
    ensures
        referenced_memory(s).contains_key(id),
        referenced_memory(s)[id] == s.memory[id],
{
    assert(root_ids(s).contains(id));
    lemma_root_reachable(s, id);
}

proof fn lemma_root_reachable(s: StateModel, id: IdView)
    requires
        root_ids(s).contains(id),
    ensures
        reachable(s, id),
{
    let p = seq![id];
    assert(is_pointer_path(s.memory, p));
    assert(p.len() >= 1 && root_ids(s).contains(p[0]) && p.last() == id && is_pointer_path(s.memory, p));
}

proof fn lemma_step_reachable(s: StateModel, k: IdView, id: IdView)
    requires
        reachable(s, k),
        s.memory.contains_key(k),
        object_ids(s.memory[k]).contains(id),
    ensures
        reachable(s, id),
{
    let p = choose|p: Seq<IdView>|
        p.len() >= 1 && root_ids(s).contains(p[0]) && p.last() == k && is_pointer_path(s.memory, p);
    let q = p.push(id);
    assert forall|i: int| 0 <= i < q.len() - 1 implies s.memory.contains_key(#[trigger] q[i])
        && object_ids(s.memory[q[i]]).contains(q[i + 1]) by {
        if i < p.len() - 1 {
            assert(q[i] == p[i] && q[i + 1] == p[i + 1]);
        } else {
            assert(q[i] == k && q[i + 1] == id);
        }
    }
    assert(q[0] == p[0]);
    assert(q.len() >= 1 && root_ids(s).contains(q[0]) && q.last() == id && is_pointer_path(s.memory, q));
}

/// The number of pairs of `e` whose key lies in `set`.
pub open spec fn count_in<V>(e: Seq<(AbstractIdentifier, V)>, set: Set<IdView>) -> nat
    decreases e.len(),
{
    if e.len() == 0 {
        0
    } else {
        count_in(e.drop_last(), set) + if set.contains(e.last().0@) {
            1nat
        } else {
            0nat
        }
    }
}

proof fn lemma_count_in<V>(e: Seq<(AbstractIdentifier, V)>, a: Set<IdView>, b: Set<IdView>)
    requires
        a.subset_of(b),
    ensures
        count_in(e, a) <= count_in(e, b),
        count_in(e, b) <= e.len(),
        count_in(e, a) == count_in(e, b) ==> forall|i: int|
            0 <= i < e.len() && b.contains(#[trigger] e[i].0@) ==> a.contains(e[i].0@),
    decreases e.len(),
{
    if e.len() > 0 {
        lemma_count_in(e.drop_last(), a, b);
        if count_in(e, a) == count_in(e, b) {
            assert forall|i: int| 0 <= i < e.len() && b.contains(#[trigger] e[i].0@) implies a.contains(
                e[i].0@,
            ) by {
                if i < e.len() - 1 {
                    assert(e.drop_last()[i] == e[i]);
                }
            }
        }
    }
}

/// Every identifier on a path that starts in a closed set lies in it.
proof fn lemma_closed_holds_path(mem: Map<IdView, ObjectModel>, set: Set<IdView>, p: Seq<IdView>, i: int)
    requires
        p.len() >= 1,
        set.contains(p[0]),
        is_pointer_path(mem, p),
        forall|k: IdView| set.contains(k) && mem.contains_key(k) ==> object_ids(mem[k]).subset_of(set),
        0 <= i < p.len(),
    ensures
        set.contains(p[i]),
    decreases i,
{
    if i > 0 {
        lemma_closed_holds_path(mem, set, p, i - 1);
        assert(mem.contains_key(p[i - 1]) && object_ids(mem[p[i - 1]]).contains(p[i]));
    }
}


/// `k` is the view of one of the variables of `list`.
pub open spec fn listed(list: Seq<Variable>, k: VarView) -> bool {
    exists|i: int| 0 <= i < list.len() && list[i]@ == k
}

/// The registers kept by a filter: those listed (or those not listed, as
/// `keep_listed` says), leaving out temporaries where `drop_temps` is set.
pub open spec fn registers_filtered(
    r: Map<VarView, DataModel>,
    list: Seq<Variable>,
    keep_listed: bool,
    drop_temps: bool,
) -> Map<VarView, DataModel> {
    Map::new(
        |k: VarView| r.contains_key(k) && listed(list, k) == keep_listed && !(drop_temps && k.2),
        |k: VarView| r[k],
    )
}

/// The callee-saved registers other than the stack register take their
/// values from the caller; the others keep theirs.
pub open spec fn registers_restored(
    own: Map<VarView, DataModel>,
    caller: Map<VarView, DataModel>,
    saved: Seq<Variable>,
    stack_register: VarView,
) -> Map<VarView, DataModel> {
    Map::new(
        |k: VarView|
            if listed(saved, k) && k != stack_register {
                caller.contains_key(k)
            } else {
                own.contains_key(k)
            },
        |k: VarView|
            if listed(saved, k) && k != stack_register {
                caller[k]
            } else {
                own[k]
            },
    )
}

/// The registers with references to `old_id` turned into references to `new_id`.
pub open spec fn registers_replaced(r: Map<VarView, DataModel>, old_id: IdView, new_id: IdView, adj: Interval) -> Map<VarView, DataModel> {
    Map::new(|k: VarView| r.contains_key(k), |k: VarView| data_replaced(r[k], old_id, new_id, adj))
}

/// The objects with references to `old_id` turned into references to `new_id`.
pub open spec fn memory_replaced(m: Map<IdView, ObjectModel>, old_id: IdView, new_id: IdView, adj: Interval) -> Map<IdView, ObjectModel> {
    Map::new(|k: IdView| m.contains_key(k), |k: IdView| object_replaced(m[k], old_id, new_id, adj))
}

/// The objects that a pointer may point to, marked: freed where it points to
/// exactly one object, of unknown status where it may point to several.
pub open spec fn memory_freed(m: Map<IdView, ObjectModel>, targets: Set<IdView>) -> Map<IdView, ObjectModel> {
    Map::new(
        |k: IdView| m.contains_key(k),
        |k: IdView|
            if targets.contains(k) {
                ObjectModel {
                    state: if targets.len() == 1 {
                        ObjectState::Freed
                    } else {
                        ObjectState::Unknown
                    },
                    ..m[k]
                }
            } else {
                m[k]
            },
    )
}

/// The objects among `targets` that may have been freed already.
pub open spec fn freed_before(m: Map<IdView, ObjectModel>, targets: Set<IdView>) -> Set<IdView> {
    Set::new(|k: IdView| targets.contains(k) && m.contains_key(k) && m[k].state == ObjectState::Freed)
}


/// The state with, for each parameter register in turn, a new heap object of
/// `size` bytes and the register pointing to its base.
pub open spec fn with_parameter_objects(s: StateModel, tid: (Seq<char>, Seq<char>), params: Seq<Variable>, size: u64) -> StateModel
    decreases params.len(),
{
    if params.len() == 0 {
        s
    } else {
        let s1 = with_parameter_objects(s, tid, params.drop_last(), size);
        let p = params.last();
        let id: IdView = (tid, (p@, Seq::<i64>::empty()));
        StateModel {
            memory: s1.memory.insert(id, ObjectModel {
                object_type: ObjectType::Heap,
                state: ObjectState::Live,
                size,
                content: Map::empty(),
            }),
            register: registers_set(
                s1.register,
                p@,
                DataModel::Pointer(p.size, map![id => Interval { start: 0, end: 0 }]),
            ),
            ..s1
        }
    }
}

/// The value of a hexadecimal digit.
pub open spec fn hex_digit(c: char) -> Option<nat> {
    if '0' <= c && c <= '9' {
        Some((c as nat - '0' as nat) as nat)
    } else if 'a' <= c && c <= 'f' {
        Some((c as nat - 'a' as nat + 10) as nat)
    } else if 'A' <= c && c <= 'F' {
        Some((c as nat - 'A' as nat + 10) as nat)
    } else {
        None
    }
}

/// The number that a string of hexadecimal digits writes.
pub open spec fn hex_digits_value(s: Seq<char>) -> Option<nat>
    decreases s.len(),
{
    if s.len() == 0 {
        Some(0)
    } else {
        match (hex_digits_value(s.drop_last()), hex_digit(s.last())) {
            (Some(a), Some(d)) => Some(a * 16 + d),
            _ => None,
        }
    }
}

proof fn lemma_hex_prefix(s: Seq<char>, i: int)
    requires
        0 <= i <= s.len(),
        hex_digits_value(s) is Some,
    ensures
        hex_digits_value(s.take(i)) is Some,
    decreases s.len(),
{
    if i < s.len() {
        lemma_hex_prefix(s.drop_last(), i);
        assert(s.drop_last().take(i) =~= s.take(i));
    } else {
        assert(s.take(i) =~= s);
    }
}

/// The digits of a hexadecimal literal: all but one leading `+`.
pub open spec fn hex_digits_of(s: Seq<char>) -> Seq<char> {
    if s.len() > 0 && s[0] == '+' {
        s.subrange(1, s.len() as int)
    } else {
        s
    }
}

/// The address that a hexadecimal literal gives, where it is one and fits in 64 bits.
pub open spec fn parse_hex_address(s: Seq<char>) -> Option<u64> {
    let digits = hex_digits_of(s);
    if digits.len() == 0 {
        None
    } else {
        match hex_digits_value(digits) {
            Some(v) => if v <= u64::MAX {
                Some(v as u64)
            } else {
                None
            },
            None => None,
        }
    }
}

/// An address cut to a pointer of `size` bytes.
pub open spec fn address_resized(v: u64, size: u64) -> u64 {
    if 1 <= size && size < 8 {
        (v as int % crate::ir::modulus(size)) as u64
    } else {
        v
    }
}

/// The MIPS link register.
pub open spec fn link_register(size: u64) -> VarView {
    ("t9"@, size, false)
}


/// The state at the entry of a function: one stack object, empty, and the
/// stack register pointing to its base.
pub open spec fn initial_state(stack_register: VarView, tid: (Seq<char>, Seq<char>)) -> StateModel {
    let stack_id: IdView = (tid, (stack_register, Seq::<i64>::empty()));
    StateModel {
        register: map![stack_register => DataModel::Pointer(stack_register.1, map![stack_id => Interval { start: 0, end: 0 }])],
        memory: map![stack_id => ObjectModel {
            object_type: ObjectType::Stack,
            state: ObjectState::Live,
            size: stack_register.1,
            content: Map::empty(),
        }],
        stack_id,
        caller_stack_ids: Set::empty(),
        ids_known_to_caller: Set::empty(),
    }
}


/// The value of a bitvector read as a two's complement number.
pub open spec fn signed_value(c: Bitvector) -> int {
    if c.value < modulus(c.width) / 2 {
        c.value as int
    } else {
        c.value - modulus(c.width)
    }
}

/// A value moved by `n`: the interval of a number, or the offsets of a pointer.
pub open spec fn data_plus(d: DataModel, n: i64) -> DataModel {
    let delta = Interval { start: n, end: n };
    match d {
        DataModel::Value(sz, i) => DataModel::Value(sz, interval_shift(i, delta)),
        DataModel::Pointer(sz, m) => DataModel::Pointer(
            sz,
            Map::new(|k: IdView| m.contains_key(k), |k: IdView| interval_shift(m[k], delta)),
        ),
        DataModel::Top(sz) => DataModel::Top(sz),
    }
}

/// What an address expression evaluates to: the value of a register, or of
/// a register plus a constant. Other shapes are not evaluated.
pub open spec fn address_value(s: StateModel, e: Expression) -> Option<DataModel> {
    match e {
        Expression::Var(v) => Some(register_value(s, v@)),
        Expression::BinOp { op, lhs, rhs } => match (*lhs, *rhs) {
            (Expression::Var(v), Expression::Const(c)) => if op == BinOpType::IntAdd && c.wf() {
                Some(data_plus(register_value(s, v@), signed_value(c) as i64))
            } else {
                None
            },
            _ => None,
        },
        _ => None,
    }
}

/// The state after writing `d` to the address that `e` computes. A write
/// needs a pointer to a single known object at a single offset; a write to
/// a single address of the read-only image changes nothing that is tracked.
/// A pointer that may point into several objects, or at several offsets, is
/// an error rather than a weak update of all its targets.
pub open spec fn write_result(s: StateModel, img: RuntimeMemoryImage, e: Expression, d: DataModel) -> Result<StateModel, Error> {
    match address_value(s, e) {
        None => Err(Error::MalformedExpression),
        Some(DataModel::Pointer(_, m)) => if m.dom().len() == 1 {
            let id = choose|id: IdView| m.contains_key(id);
            let off = m[id];
            if off.start == off.end && s.memory.contains_key(id) {
                Ok(StateModel {
                    memory: s.memory.insert(
                        id,
                        ObjectModel { content: s.memory[id].content.insert(off.start, d), ..s.memory[id] },
                    ),
                    ..s
                })
            } else {
                Err(Error::UnresolvedPointer)
            }
        } else {
            Err(Error::UnresolvedPointer)
        },
        Some(DataModel::Value(_, iv)) => if iv.start == iv.end && iv.start >= 0 && segment_index(
            img.memory_segments@,
            iv.start as int,
        ) is Some {
            Ok(s)
        } else {
            Err(Error::UnresolvedPointer)
        },
        _ => Err(Error::UnresolvedPointer),
    }
}

/// The state after marking each stack parameter in turn as unknown, and the
/// last error met, if any.
pub open spec fn stack_params_cleared(s: StateModel, img: RuntimeMemoryImage, params: Seq<Arg>) -> (StateModel, Option<Error>)
    decreases params.len(),
{
    if params.len() == 0 {
        (s, None)
    } else {
        let (s1, e1) = stack_params_cleared(s, img, params.drop_last());
        match params.last() {
            Arg::Register { .. } => (s1, e1),
            Arg::Stack { address, size, .. } => match write_result(s1, img, address, DataModel::Top(size)) {
                Ok(s2) => (s2, e1),
                Err(e) => (s1, Some(e)),
            },
        }
    }
}

impl State {
    pub open spec fn wf(&self) -> bool {
        self.register.wf() && self.memory.wf() && model_wf(self@)
    }

    /// A state with one object, the stack frame of `function_tid`, and the
    /// stack register pointing to its base.
    pub fn new(stack_register: &Variable, function_tid: Tid) -> (r: State)
        ensures
            r.wf(),
            r@ == initial_state(stack_register@, function_tid@),
    {
        let stack_id = AbstractIdentifier::new(function_tid, AbstractLocation::from_var(stack_register));
        let mut register: Table<Variable, Data> = Table::new();
        register.push_new(
            stack_register.clone(),
            Data::from_target(stack_id.duplicate(), Interval::exact(0), stack_register.size),
        );
        let mut memory: AbstractObjectList = Table::new();
        memory.push_new(stack_id.duplicate(), AbstractObject::new(ObjectType::Stack, stack_register.size));
        let r = State {
            register,
            memory,
            stack_id,
            caller_stack_ids: IdSet::new(),
            ids_known_to_caller: IdSet::new(),
        };
        assert(r@.register =~= initial_state(stack_register@, r.stack_id@.0).register);
        assert(r@.memory =~= initial_state(stack_register@, r.stack_id@.0).memory);
        r
    }

    /// The value of a register; *Top* where nothing is known.
    pub fn get_register(&self, var: &Variable) -> (r: Data)
        requires
            self.wf(),
        ensures
            r.inv(),
            r@ == register_value(self@, var@),
    {
        match self.register.get(var) {
            Some(d) => d.duplicate(),
            None => Data::new_top(var.size),
        }
    }

    /// Sets a register; a *Top* value removes what was known of it.
    pub fn set_register(&mut self, var: &Variable, value: Data)
        requires
            old(self).wf(),
            value.inv(),
        ensures
            final(self).wf(),
            final(self)@ == (StateModel { register: registers_set(old(self)@.register, var@, value@), ..old(self)@ }),
    {
        if value.is_top() {
            self.register.remove(var);
        } else {
            self.register.insert(var, value);
        }
    }

    /// A state has no *Top* element.
    pub fn is_top(&self) -> (r: bool)
        ensures
            !r,
    {
        false
    }

    /// Joins two states where they belong to one stack frame. States of
    /// different frames are never joined: the result is then `None`, and
    /// neither state is taken for the join.
    pub fn try_merge(&self, other: &State) -> (r: Option<State>)
        requires
            self.wf(),
            other.wf(),
        ensures
            r is None <==> self.stack_id@ != other.stack_id@,
            r is Some ==> r->0.wf() && r->0@ == state_merge(self@, other@),
    {
        if self.stack_id.same_as(&other.stack_id) {
            Some(self.merge(other))
        } else {
            None
        }
    }

    /// Joins two states of the same stack frame: registers known on both
    /// sides are joined (a *Top* result is dropped), objects are joined one
    /// by one (an object of one side only is kept), and the sets of caller
    /// identifiers are united.
    pub fn merge(&self, other: &State) -> (r: State)
        requires
            self.wf(),
            other.wf(),
            self.stack_id@ == other.stack_id@,
        ensures
            r.wf(),
            r@ == state_merge(self@, other@),
    {
        let joined = self.register.common_join(&other.register);
        let mut merged_register: Table<Variable, Data> = Table::new();
        let mut i: usize = 0;
        while i < joined.entries.len()
            invariant
                joined.wf(),
                i <= joined.entries.len(),
                merged_register.wf(),
                merged_register@ == Map::new(
                    |k: VarView| to_map(joined.entries@.take(i as int)).contains_key(k) && !(joined@[k] is Top),
                    |k: VarView| joined@[k],
                ),
            decreases joined.entries.len() - i,
        {
            proof {
                crate::table::lemma_prefix_key_pub(joined.entries@, i as int);
                crate::table::lemma_to_map_index(joined.entries@, i as int);
            }
            if !joined.entries[i].1.is_top() {
                let k = joined.entries[i].0.duplicate();
                let v = joined.entries[i].1.duplicate();
                merged_register.push_new(k, v);
            }
            i = i + 1;
            proof {
                assert(merged_register@ =~= Map::new(
                    |k: VarView| to_map(joined.entries@.take(i as int)).contains_key(k) && !(joined@[k] is Top),
                    |k: VarView| joined@[k],
                ));
            }
        }
        proof {
            assert(joined.entries@.take(i as int) =~= joined.entries@);
            assert(merged_register@ =~= registers_join(self@.register, other@.register));
        }
        let memory = self.memory.union_join(&other.memory);
        let mut caller_stack_ids = self.caller_stack_ids.duplicate_set();
        caller_stack_ids.extend(&other.caller_stack_ids);
        let mut ids_known_to_caller = self.ids_known_to_caller.duplicate_set();
        ids_known_to_caller.extend(&other.ids_known_to_caller);
        State {
            register: merged_register,
            memory,
            stack_id: self.stack_id.duplicate(),
            caller_stack_ids,
            ids_known_to_caller,
        }
    }

    /// The identifiers that the search for live objects starts from.
    fn root_id_set(&self) -> (r: IdSet)
        requires
            self.wf(),
        ensures
            r@ == root_ids(self@),
    {
        let mut r = IdSet::new();
        let mut i: usize = 0;
        while i < self.register.entries.len()
            invariant
                self.wf(),
                i <= self.register.entries.len(),
                r@ == register_ids(StateModel { register: to_map(self.register.entries@.take(i as int)), ..self@ }),
            decreases self.register.entries.len() - i,
        {
            let ghost pre = self.register.entries@.take(i as int);
            proof {
                crate::table::lemma_prefix_key_pub(self.register.entries@, i as int);
            }
            let ids = self.register.entries[i].1.referenced_ids();
            r.extend(&ids);
            i = i + 1;
            proof {
                let e = self.register.entries@[i - 1];
                let m1 = to_map(self.register.entries@.take(i as int));
                let s1 = StateModel { register: m1, ..self@ };
                let s0 = StateModel { register: to_map(pre), ..self@ };
                assert forall|id: IdView| r@.contains(id) == register_ids(s1).contains(id) by {
                    if register_ids(s1).contains(id) {
                        let k = choose|k: VarView| m1.contains_key(k) && data_ids(m1[k]).contains(id);
                        if k != e.0@ {
                            assert(register_ids(s0).contains(id));
                        }
                    }
                    if r@.contains(id) && !data_ids(e.1@).contains(id) {
                        let k = choose|k: VarView| to_map(pre).contains_key(k) && data_ids(to_map(pre)[k]).contains(id);
                        assert(m1.contains_key(k) && m1[k] == to_map(pre)[k]);
                    }
                    if r@.contains(id) && data_ids(e.1@).contains(id) {
                        assert(m1.contains_key(e.0@) && m1[e.0@] == e.1@);
                    }
                }
                assert(r@ =~= register_ids(s1));
            }
        }
        proof {
            assert(self.register.entries@.take(i as int) =~= self.register.entries@);
            assert(to_map(self.register.entries@) == self@.register);
            assert(StateModel { register: self@.register, ..self@ } == self@);
        }
        r.insert(&self.stack_id);
        r.extend(&self.caller_stack_ids);
        r.extend(&self.ids_known_to_caller);
        r
    }

    /// The number of objects whose identifier lies in `set`.
    fn count_objects_in(&self, set: &IdSet) -> (r: usize)
        requires
            self.wf(),
        ensures
            r == count_in(self.memory.entries@, set@),
    {
        let mut n: usize = 0;
        let mut i: usize = 0;
        while i < self.memory.entries.len()
            invariant
                i <= self.memory.entries.len(),
                n == count_in(self.memory.entries@.take(i as int), set@),
                n <= i,
            decreases self.memory.entries.len() - i,
        {
            proof {
                assert(self.memory.entries@.take(i + 1).drop_last() =~= self.memory.entries@.take(i as int));
            }
            if set.contains(&self.memory.entries[i].0) {
                n = n + 1;
            }
            i = i + 1;
        }
        proof {
            assert(self.memory.entries@.take(i as int) =~= self.memory.entries@);
        }
        n
    }

    /// Remove all objects that can no longer be reached by any known pointer.
    /// Objects of the current and the callers' stack frames, and objects that
    /// a caller knows of, are kept.
    pub fn remove_unreferenced_objects(&mut self)
        requires
            old(self).wf(),
        ensures
            final(self).wf(),
            final(self)@ == (StateModel { memory: referenced_memory(old(self)@), ..old(self)@ }),
    {
        let ghost s = self@;
        let mut set = self.root_id_set();
        let mut known = self.count_objects_in(&set);
        proof {
            assert forall|id: IdView| set@.contains(id) implies reachable(s, id) by {
                lemma_root_reachable(s, id);
            }
            lemma_count_in(self.memory.entries@, set@, set@);
        }
        loop
            invariant
                self.wf(),
                self@ == s,
                root_ids(s).subset_of(set@),
                forall|id: IdView| set@.contains(id) ==> reachable(s, id),
                known == count_in(self.memory.entries@, set@),
                known <= self.memory.entries.len(),
            ensures
                self.wf(),
                self@ == s,
                forall|id: IdView| set@.contains(id) <==> reachable(s, id),
            decreases self.memory.entries.len() - known,
        {
            let mut grown = set.duplicate_set();
            let mut j: usize = 0;
            while j < self.memory.entries.len()
                invariant
                    self.wf(),
                    self@ == s,
                    j <= self.memory.entries.len(),
                    set@.subset_of(grown@),
                    forall|id: IdView|
                        grown@.contains(id) ==> set@.contains(id) || exists|k: IdView|
                            set@.contains(k) && s.memory.contains_key(k) && object_ids(s.memory[k]).contains(id),
                    forall|i: int|
                        0 <= i < j && set@.contains(#[trigger] self.memory.entries@[i].0@) ==> object_ids(
                            self.memory.entries@[i].1@,
                        ).subset_of(grown@),
                decreases self.memory.entries.len() - j,
            {
                proof {
                    crate::table::lemma_to_map_index(self.memory.entries@, j as int);
                }
                if set.contains(&self.memory.entries[j].0) {
                    let ids = self.memory.entries[j].1.referenced_ids();
                    grown.extend(&ids);
                }
                j = j + 1;
            }
            proof {
                assert forall|id: IdView| grown@.contains(id) implies reachable(s, id) by {
                    if !set@.contains(id) {
                        let k = choose|k: IdView|
                            set@.contains(k) && s.memory.contains_key(k) && object_ids(s.memory[k]).contains(id);
                        lemma_step_reachable(s, k, id);
                    }
                }
                lemma_count_in(self.memory.entries@, set@, grown@);
            }
            let grown_known = self.count_objects_in(&grown);
            if grown_known == known {
                proof {
                    assert forall|k: IdView| grown@.contains(k) && s.memory.contains_key(k) implies object_ids(
                        s.memory[k],
                    ).subset_of(grown@) by {
                        crate::table::lemma_to_map_contains(self.memory.entries@, k);
                        let i = choose|i: int| 0 <= i < self.memory.entries.len() && self.memory.entries@[i].0@ == k;
                        crate::table::lemma_to_map_index(self.memory.entries@, i);
                        assert(set@.contains(self.memory.entries@[i].0@));
                    }
                    assert forall|id: IdView| reachable(s, id) implies grown@.contains(id) by {
                        let p = choose|p: Seq<IdView>|
                            p.len() >= 1 && root_ids(s).contains(p[0]) && p.last() == id && is_pointer_path(s.memory, p);
                        lemma_closed_holds_path(s.memory, grown@, p, p.len() - 1);
                    }
                }
                set = grown;
                break;
            }
            set = grown;
            known = grown_known;
        }
        let mut kept: AbstractObjectList = Table::new();
        let mut i: usize = 0;
        while i < self.memory.entries.len()
            invariant
                self.wf(),
                self@ == s,
                forall|id: IdView| set@.contains(id) <==> reachable(s, id),
                i <= self.memory.entries.len(),
                kept.wf(),
                kept@ == Map::new(
                    |k: IdView| to_map(self.memory.entries@.take(i as int)).contains_key(k) && reachable(s, k),
                    |k: IdView| s.memory[k],
                ),
            decreases self.memory.entries.len() - i,
        {
            proof {
                crate::table::lemma_prefix_key_pub(self.memory.entries@, i as int);
                crate::table::lemma_to_map_index(self.memory.entries@, i as int);
            }
            if set.contains(&self.memory.entries[i].0) {
                let k = self.memory.entries[i].0.duplicate();
                let v = self.memory.entries[i].1.duplicate();
                kept.push_new(k, v);
            }
            i = i + 1;
            proof {
                assert(kept@ =~= Map::new(
                    |k: IdView| to_map(self.memory.entries@.take(i as int)).contains_key(k) && reachable(s, k),
                    |k: IdView| s.memory[k],
                ));
            }
        }
        proof {
            assert(self.memory.entries@.take(i as int) =~= self.memory.entries@);
            assert(kept@ =~= referenced_memory(s));
            lemma_roots_survive_cleanup(s, s.stack_id);
        }
        self.memory = kept;
    }

    /// The registers that a filter keeps; see `registers_filtered`.
    fn filtered_registers(&self, list: &[Variable], keep_listed: bool, drop_temps: bool) -> (r: Table<Variable, Data>)
        requires
            self.wf(),
        ensures
            r.wf(),
            r@ == registers_filtered(self@.register, list@, keep_listed, drop_temps),
    {
        let mut out: Table<Variable, Data> = Table::new();
        let mut i: usize = 0;
        while i < self.register.entries.len()
            invariant
                self.wf(),
                i <= self.register.entries.len(),
                out.wf(),
                out@ == registers_filtered(to_map(self.register.entries@.take(i as int)), list@, keep_listed, drop_temps),
            decreases self.register.entries.len() - i,
        {
            proof {
                crate::table::lemma_prefix_key_pub(self.register.entries@, i as int);
            }
            let key = &self.register.entries[i].0;
            let mut found = false;
            let mut j: usize = 0;
            while j < list.len()
                invariant
                    j <= list.len(),
                    found == exists|l: int| 0 <= l < j && list@[l]@ == key@,
                decreases list.len() - j,
            {
                if list[j] == *key {
                    found = true;
                }
                j = j + 1;
            }
            if found == keep_listed && !(drop_temps && key.is_temp) {
                let k = key.duplicate();
                let v = self.register.entries[i].1.duplicate();
                out.push_new(k, v);
            }
            i = i + 1;
            proof {
                assert(out@ =~= registers_filtered(to_map(self.register.entries@.take(i as int)), list@, keep_listed, drop_temps));
            }
        }
        proof {
            assert(self.register.entries@.take(i as int) =~= self.register.entries@);
        }
        out
    }

    /// Keeps only the callee-saved registers; all others, temporaries
    /// included, become unknown.
    pub fn clear_non_callee_saved_register(&mut self, callee_saved_register: &[Variable])
        requires
            old(self).wf(),
        ensures
            final(self).wf(),
            final(self)@ == (StateModel {
                register: registers_filtered(old(self)@.register, callee_saved_register@, true, false),
                ..old(self)@
            }),
    {
        self.register = self.filtered_registers(callee_saved_register, true, false);
    }

    /// Removes all temporaries. This is only right where no temporary can be
    /// alive, as at the start of a basic block.
    pub fn remove_virtual_register(&mut self)
        requires
            old(self).wf(),
        ensures
            final(self).wf(),
            final(self)@ == (StateModel {
                register: registers_filtered(old(self)@.register, Seq::<Variable>::empty(), false, true),
                ..old(self)@
            }),
    {
        let none: Vec<Variable> = Vec::new();
        self.register = self.filtered_registers(none.as_slice(), false, true);
    }

    /// Forgets what is known of the callee-saved registers.
    pub fn remove_callee_saved_register(&mut self, cconv: &CallingConvention)
        requires
            old(self).wf(),
        ensures
            final(self).wf(),
            final(self)@ == (StateModel {
                register: registers_filtered(old(self)@.register, cconv.callee_saved_register@, false, false),
                ..old(self)@
            }),
    {
        self.register = self.filtered_registers(cconv.callee_saved_register.as_slice(), false, false);
    }

    /// Takes the values of the callee-saved registers, but for the stack
    /// register, from the caller's state. Whether the callee kept to the
    /// convention is not checked.
    pub fn restore_callee_saved_register(
        &mut self,
        caller_state: &State,
        cconv: &CallingConvention,
        stack_register: &Variable,
    )
        requires
            old(self).wf(),
            caller_state.wf(),
        ensures
            final(self).wf(),
            final(self)@ == (StateModel {
                register: registers_restored(
                    old(self)@.register,
                    caller_state@.register,
                    cconv.callee_saved_register@,
                    stack_register@,
                ),
                ..old(self)@
            }),
    {
        let ghost own = self@.register;
        let ghost saved = cconv.callee_saved_register@;
        proof {
            assert(registers_restored(own, caller_state@.register, saved.take(0), stack_register@) =~= own);
        }
        let mut i: usize = 0;
        while i < cconv.callee_saved_register.len()
            invariant
                self.wf(),
                caller_state.wf(),
                saved == cconv.callee_saved_register@,
                i <= saved.len(),
                self@ == (StateModel {
                    register: registers_restored(own, caller_state@.register, saved.take(i as int), stack_register@),
                    ..old(self)@
                }),
            decreases saved.len() - i,
        {
            let reg = &cconv.callee_saved_register[i];
            if !(*reg == *stack_register) {
                let v = caller_state.get_register(reg);
                self.set_register(reg, v);
            }
            i = i + 1;
            proof {
                let shorter = saved.take(i - 1);
                let longer = saved.take(i as int);
                assert forall|k: VarView| listed(longer, k) == (listed(shorter, k) || k == saved[i - 1]@) by {
                    if listed(longer, k) {
                        let l = choose|l: int| 0 <= l < longer.len() && #[trigger] longer[l]@ == k;
                        if l < i - 1 {
                            assert(shorter[l] == saved[l]);
                        }
                    }
                    if listed(shorter, k) {
                        let l = choose|l: int| 0 <= l < shorter.len() && #[trigger] shorter[l]@ == k;
                        assert(longer[l] == saved[l]);
                    }
                    if k == saved[i - 1]@ {
                        assert(longer[i - 1] == saved[i - 1]);
                    }
                }
                assert(self@.register =~= registers_restored(own, caller_state@.register, saved.take(i as int), stack_register@));
            }
        }
        proof {
            assert(saved.take(i as int) =~= saved);
        }
    }

    /// Adds the caller's objects that this state does not know, unchanged:
    /// the callee cannot have reached them.
    pub fn readd_caller_objects(&mut self, caller_state: &State)
        requires
            old(self).wf(),
            caller_state.wf(),
        ensures
            final(self).wf(),
            final(self)@ == (StateModel {
                memory: caller_state@.memory.union_prefer_right(old(self)@.memory),
                ..old(self)@
            }),
    {
        let ghost own = self@.memory;
        proof {
            assert(caller_state.memory.entries@.take(0).len() == 0);
            assert(to_map(caller_state.memory.entries@.take(0)).union_prefer_right(own) =~= own);
        }
        let mut i: usize = 0;
        while i < caller_state.memory.entries.len()
            invariant
                self.wf(),
                caller_state.wf(),
                i <= caller_state.memory.entries.len(),
                self@ == (StateModel {
                    memory: to_map(caller_state.memory.entries@.take(i as int)).union_prefer_right(own),
                    ..old(self)@
                }),
            decreases caller_state.memory.entries.len() - i,
        {
            proof {
                crate::table::lemma_prefix_key_pub(caller_state.memory.entries@, i as int);
            }
            if !self.memory.contains_key(&caller_state.memory.entries[i].0) {
                let k = caller_state.memory.entries[i].0.duplicate();
                let v = caller_state.memory.entries[i].1.duplicate();
                self.memory.push_new(k, v);
            }
            i = i + 1;
            proof {
                assert(self@.memory =~= to_map(caller_state.memory.entries@.take(i as int)).union_prefer_right(own));
            }
        }
        proof {
            assert(caller_state.memory.entries@.take(i as int) =~= caller_state.memory.entries@);
        }
    }

    /// Merges the callee's stack frame into the caller's at a return: the
    /// callee's object is removed, and every reference to `callee_id` becomes
    /// one to `caller_id`, its offset moved by `offset_adjustment`. What the
    /// callee's frame held is not copied: below the stack pointer, memory is
    /// uninitialized after the return. The operation runs on the caller's
    /// state at the return, whose current frame is the caller's own; the
    /// callee's frame is therefore never the current one, which the state
    /// must always keep.
    pub fn merge_callee_stack_to_caller_stack(
        &mut self,
        callee_id: &AbstractIdentifier,
        caller_id: &AbstractIdentifier,
        offset_adjustment: &Interval,
    )
        requires
            old(self).wf(),
            callee_id@ != old(self)@.stack_id,
        ensures
            final(self).wf(),
            final(self)@ == (StateModel {
                register: registers_replaced(old(self)@.register, callee_id@, caller_id@, *offset_adjustment),
                memory: memory_replaced(old(self)@.memory.remove(callee_id@), callee_id@, caller_id@, *offset_adjustment),
                ..old(self)@
            }),
    {
        self.memory.remove(callee_id);
        let ghost regs = self@.register;
        let mut register: Table<Variable, Data> = Table::new();
        let mut i: usize = 0;
        while i < self.register.entries.len()
            invariant
                self.register.wf(),
                self@.register == regs,
                i <= self.register.entries.len(),
                register.wf(),
                register@ == registers_replaced(to_map(self.register.entries@.take(i as int)), callee_id@, caller_id@, *offset_adjustment),
            decreases self.register.entries.len() - i,
        {
            proof {
                crate::table::lemma_prefix_key_pub(self.register.entries@, i as int);
            }
            let k = self.register.entries[i].0.duplicate();
            let v = self.register.entries[i].1.replace_id(callee_id, caller_id, offset_adjustment);
            register.push_new(k, v);
            i = i + 1;
            proof {
                assert(register@ =~= registers_replaced(to_map(self.register.entries@.take(i as int)), callee_id@, caller_id@, *offset_adjustment));
            }
        }
        proof {
            assert(self.register.entries@.take(i as int) =~= self.register.entries@);
        }
        let ghost objs = self@.memory;
        let mut memory: AbstractObjectList = Table::new();
        let mut j: usize = 0;
        while j < self.memory.entries.len()
            invariant
                self.memory.wf(),
                self@.memory == objs,
                j <= self.memory.entries.len(),
                memory.wf(),
                memory@ == memory_replaced(to_map(self.memory.entries@.take(j as int)), callee_id@, caller_id@, *offset_adjustment),
            decreases self.memory.entries.len() - j,
        {
            proof {
                crate::table::lemma_prefix_key_pub(self.memory.entries@, j as int);
            }
            let k = self.memory.entries[j].0.duplicate();
            let v = self.memory.entries[j].1.replace_id(callee_id, caller_id, offset_adjustment);
            memory.push_new(k, v);
            j = j + 1;
            proof {
                assert(memory@ =~= memory_replaced(to_map(self.memory.entries@.take(j as int)), callee_id@, caller_id@, *offset_adjustment));
            }
        }
        proof {
            assert(self.memory.entries@.take(j as int) =~= self.memory.entries@);
            assert forall|k: VarView| #[trigger] register@.contains_key(k) implies !(register@[k] is Top) by {
                assert(regs.contains_key(k));
            }
        }
        self.register = register;
        self.memory = memory;
    }

    /// Marks the objects that a pointer may point to: freed where it points
    /// to exactly one object, of unknown status where it may point to several.
    /// The objects that may have been freed already come back as an error,
    /// and it is for the caller to judge whether this is a double free.
    pub fn mark_mem_object_as_freed(&mut self, object_pointer: &Data) -> (r: Result<(), Vec<(AbstractIdentifier, Error)>>)
        requires
            old(self).wf(),
            object_pointer.inv(),
        ensures
            final(self).wf(),
            final(self)@ == (StateModel {
                memory: memory_freed(old(self)@.memory, data_ids(object_pointer@)),
                ..old(self)@
            }),
            r is Ok <==> freed_before(old(self)@.memory, data_ids(object_pointer@)) == Set::<IdView>::empty(),
            r is Err ==> forall|i: int|
                0 <= i < r->Err_0.len() ==> freed_before(old(self)@.memory, data_ids(object_pointer@)).contains(
                    (#[trigger] r->Err_0@[i]).0@,
                ) && r->Err_0@[i].1 == Error::DoubleFreeCandidate,
            r is Err ==> forall|k: IdView|
                #[trigger] freed_before(old(self)@.memory, data_ids(object_pointer@)).contains(k) ==> exists|i: int|
                    0 <= i < r->Err_0.len() && r->Err_0@[i].0@ == k,
            r is Err ==> forall|i: int, j: int|
                0 <= i < j < r->Err_0.len() ==> (#[trigger] r->Err_0@[i]).0@ != (#[trigger] r->Err_0@[j]).0@,
    {
        let ghost mem = self@.memory;
        let ghost targets = data_ids(object_pointer@);
        let ghost bad = freed_before(mem, targets);
        let empty: Table<AbstractIdentifier, Interval> = Table::new();
        let (t, single) = match object_pointer {
            Data::Pointer(_, t) => {
                proof {
                    crate::table::lemma_to_map_len(t.entries@);
                }
                (t, t.entries.len() == 1)
            },
            _ => {
                assert(targets =~= empty@.dom());
                (&empty, false)
            },
        };
        assert(t@.dom() == targets);
        let mut errors: Vec<(AbstractIdentifier, Error)> = Vec::new();
        let mut memory: AbstractObjectList = Table::new();
        let mut j: usize = 0;
        while j < self.memory.entries.len()
            invariant
                self.wf(),
                self@.memory == mem,
                t.wf(),
                t@.dom() == targets,
                single == (targets.len() == 1),
                bad == freed_before(mem, targets),
                j <= self.memory.entries.len(),
                memory.wf(),
                memory@ == memory_freed(to_map(self.memory.entries@.take(j as int)), targets),
                forall|i: int| 0 <= i < errors.len() ==> bad.contains((#[trigger] errors@[i]).0@)
                    && errors@[i].1 == Error::DoubleFreeCandidate
                    && to_map(self.memory.entries@.take(j as int)).contains_key(errors@[i].0@),
                forall|i: int, k: int|
                    0 <= i < k < errors.len() ==> (#[trigger] errors@[i]).0@ != (#[trigger] errors@[k]).0@,
                forall|k: IdView| #[trigger] bad.contains(k) && to_map(self.memory.entries@.take(j as int)).contains_key(k)
                    ==> exists|i: int| 0 <= i < errors.len() && errors@[i].0@ == k,
            decreases self.memory.entries.len() - j,
        {
            proof {
                crate::table::lemma_prefix_key_pub(self.memory.entries@, j as int);
                crate::table::lemma_to_map_index(self.memory.entries@, j as int);
            }
            let key = &self.memory.entries[j].0;
            let obj = &self.memory.entries[j].1;
            let mut copy = obj.duplicate();
            let ghost old_errors = errors@;
            let ghost prev = to_map(self.memory.entries@.take(j as int));
            if t.contains_key(key) {
                if obj.state == ObjectState::Freed {
                    errors.push((key.duplicate(), Error::DoubleFreeCandidate));
                }
                copy.state = if single {
                    ObjectState::Freed
                } else {
                    ObjectState::Unknown
                };
            }
            memory.push_new(key.duplicate(), copy);
            j = j + 1;
            proof {
                assert(memory@ =~= memory_freed(to_map(self.memory.entries@.take(j as int)), targets));
                assert forall|k: IdView| #[trigger] bad.contains(k) && to_map(self.memory.entries@.take(j as int)).contains_key(k)
                    implies exists|i: int| 0 <= i < errors.len() && errors@[i].0@ == k by {
                    if k == key@ {
                        assert(errors@[errors.len() - 1].0@ == k);
                    } else {
                        assert(prev.contains_key(k));
                        let i = choose|i: int| 0 <= i < old_errors.len() && old_errors[i].0@ == k;
                        assert(errors@[i] == old_errors[i]);
                    }
                }
            }
        }
        proof {
            assert(self.memory.entries@.take(j as int) =~= self.memory.entries@);
        }
        self.memory = memory;
        if errors.len() == 0 {
            proof {
                assert forall|k: IdView| !bad.contains(k) by {
                    if bad.contains(k) {
                        assert(mem.contains_key(k));
                    }
                }
                assert(bad =~= Set::<IdView>::empty());
            }
            Ok(())
        } else {
            proof {
                assert(bad.contains(errors@[0].0@));
            }
            Err(errors)
        }
    }

    /// A state with the stack frame of `function_tid` and one heap object for
    /// each parameter register, the register pointing to it. This suits entry
    /// points whose parameters are unknown; parameters that in truth point to
    /// one object are then taken for distinct ones.
    pub fn new_with_generic_parameter_objects(stack_register: &Variable, function_tid: Tid, params: &[Variable]) -> (r: State)
        ensures
            r.wf(),
            r@ == with_parameter_objects(
                initial_state(stack_register@, function_tid@),
                function_tid@,
                params@,
                stack_register.size,
            ),
    {
        let ghost tid = function_tid@;
        let tid_copy = function_tid.clone();
        let mut state = State::new(stack_register, function_tid);
        let ghost s0 = state@;
        let mut i: usize = 0;
        while i < params.len()
            invariant
                state.wf(),
                tid_copy@ == tid,
                i <= params.len(),
                state@ == with_parameter_objects(s0, tid, params@.take(i as int), stack_register.size),
            decreases params.len() - i,
        {
            let param = &params[i];
            let param_id = AbstractIdentifier::new(tid_copy.clone(), AbstractLocation::from_var(param));
            state.memory.insert(&param_id, AbstractObject::new(ObjectType::Heap, stack_register.size));
            let target = Data::from_target(param_id, Interval::exact(0), param.size);
            state.set_register(param, target);
            proof {
                assert(params@.take(i + 1).drop_last() =~= params@.take(i as int));
            }
            i = i + 1;
        }
        proof {
            assert(params@.take(i as int) =~= params@);
        }
        state
    }

    /// Sets the MIPS link register `t9` to the address of the callee. The
    /// System V ABI for MIPS has the caller keep the callee's address there
    /// for calls to position-independent code; this mends cases where the
    /// analysis lost that value. The address is hexadecimal, with an optional
    /// leading `+`; an address that is no such literal
    /// (such as `UNKNOWN`) is an error.
    pub fn set_mips_link_register(&mut self, callee_tid: &Tid, generic_pointer_size: u64) -> (r: Result<(), Error>)
        requires
            old(self).wf(),
        ensures
            final(self).wf(),
            match parse_hex_address(callee_tid.address@) {
                Some(v) => r is Ok && final(self)@ == (StateModel {
                    register: old(self)@.register.insert(
                        link_register(generic_pointer_size),
                        DataModel::Value(
                            generic_pointer_size,
                            Interval {
                                start: address_resized(v, generic_pointer_size) as i64,
                                end: address_resized(v, generic_pointer_size) as i64,
                            },
                        ),
                    ),
                    ..old(self)@
                }),
                None => r == Err::<(), Error>(Error::AddressParseError) && final(self)@ == old(self)@,
            },
    {
        let text = callee_tid.address.as_str();
        let n = text.unicode_len();
        let first: usize = if n > 0 && text.get_char(0) == '+' {
            1
        } else {
            0
        };
        let ghost digits = hex_digits_of(text@);
        proof {
            assert(digits =~= text@.subrange(first as int, n as int));
        }
        if first == n {
            return Err(Error::AddressParseError);
        }
        let mut acc: u128 = 0;
        let mut overflow = false;
        let mut i: usize = first;
        proof {
            assert(digits.take(0) =~= Seq::<char>::empty());
        }
        while i < n
            invariant
                self.wf(),
                self@ == old(self)@,
                n == text@.len(),
                text@ == callee_tid.address@,
                digits == text@.subrange(first as int, n as int),
                digits == hex_digits_of(text@),
                first <= i <= n,
                hex_digits_value(digits.take(i - first)) is Some,
                !overflow ==> acc == hex_digits_value(digits.take(i - first))->0 && acc <= u64::MAX,
                overflow ==> hex_digits_value(digits.take(i - first))->0 > u64::MAX,
            decreases n - i,
        {
            proof {
                assert(digits.take(i + 1 - first).drop_last() =~= digits.take(i - first));
                assert(digits.take(i + 1 - first).last() == text@[i as int]);
            }
            let c = text.get_char(i);
            let d: u128 = if '0' <= c && c <= '9' {
                (c as u32 - '0' as u32) as u128
            } else if 'a' <= c && c <= 'f' {
                (c as u32 - 'a' as u32 + 10) as u128
            } else if 'A' <= c && c <= 'F' {
                (c as u32 - 'A' as u32 + 10) as u128
            } else {
                proof {
                    let t = digits.take(i + 1 - first);
                    assert(t.drop_last() =~= digits.take(i - first));
                    assert(t.last() == c);
                    assert(hex_digit(c) is None);
                    assert(hex_digits_value(t) is None);
                    if hex_digits_value(digits) is Some {
                        lemma_hex_prefix(digits, i + 1 - first);
                    }
                }
                return Err(Error::AddressParseError);
            };
            if !overflow {
                acc = acc * 16 + d;
                if acc > u64::MAX as u128 {
                    overflow = true;
                }
            }
            i = i + 1;
        }
        proof {
            assert(digits.take(i - first) =~= digits);
        }
        if overflow {
            return Err(Error::AddressParseError);
        }
        let v = acc as u64;
        let resized: u64 = if 1 <= generic_pointer_size && generic_pointer_size < 8 {
            (v as u128 % crate::ir::modulus_of(generic_pointer_size)) as u64
        } else {
            v
        };
        let link = Variable { name: String::from_str("t9"), size: generic_pointer_size, is_temp: false };
        proof {
            reveal_strlit("t9");
        }
        self.set_register(&link, Data::Value(generic_pointer_size, Interval::exact(resized as i64)));
        Ok(())
    }

    /// The value that an address expression computes; see `address_value`.
    fn eval_address(&self, address: &Expression) -> (r: Option<Data>)
        requires
            self.wf(),
        ensures
            match address_value(self@, *address) {
                Some(d) => r is Some && r->0@ == d && r->0.inv(),
                None => r is None,
            },
    {
        match address {
            Expression::Var(v) => Some(self.get_register(v)),
            Expression::BinOp { op, lhs, rhs } => match (&**lhs, &**rhs) {
                (Expression::Var(v), Expression::Const(c)) => {
                    if *op != BinOpType::IntAdd || !(1 <= c.width && c.width <= 8) {
                        return None;
                    }
                    let m = crate::ir::modulus_of(c.width);
                    if c.value as u128 >= m {
                        return None;
                    }
                    let n: i64 = if (c.value as u128) < m / 2 {
                        c.value as i64
                    } else {
                        (c.value as i128 - m as i128) as i64
                    };
                    let delta = Interval::exact(n);
                    let d = self.get_register(v);
                    let shifted = match d {
                        Data::Value(sz, i) => Data::Value(sz, i.shift(&delta)),
                        Data::Pointer(sz, t) => {
                            let mut out: Table<AbstractIdentifier, Interval> = Table::new();
                            let mut j: usize = 0;
                            while j < t.entries.len()
                                invariant
                                    t.wf(),
                                    j <= t.entries.len(),
                                    out.wf(),
                                    out@ == Map::new(
                                        |k: IdView| to_map(t.entries@.take(j as int)).contains_key(k),
                                        |k: IdView| interval_shift(t@[k], delta),
                                    ),
                                decreases t.entries.len() - j,
                            {
                                proof {
                                    crate::table::lemma_prefix_key_pub(t.entries@, j as int);
                                    crate::table::lemma_to_map_index(t.entries@, j as int);
                                }
                                let k = t.entries[j].0.duplicate();
                                let v = t.entries[j].1.shift(&delta);
                                out.push_new(k, v);
                                j = j + 1;
                                proof {
                                    assert(out@ =~= Map::new(
                                        |k: IdView| to_map(t.entries@.take(j as int)).contains_key(k),
                                        |k: IdView| interval_shift(t@[k], delta),
                                    ));
                                }
                            }
                            proof {
                                assert(t.entries@.take(j as int) =~= t.entries@);
                                assert(out@ =~= Map::new(|k: IdView| t@.contains_key(k), |k: IdView| interval_shift(t@[k], delta)));
                            }
                            Data::Pointer(sz, out)
                        },
                        Data::Top(sz) => Data::Top(sz),
                    };
                    Some(shifted)
                },
                _ => None,
            },
            _ => None,
        }
    }

    /// Writes `value` to the address that `address` computes; see `write_result`.
    /// On an error nothing changes.
    pub fn write_to_address(&mut self, address: &Expression, value: Data, global_memory: &RuntimeMemoryImage) -> (r: Result<(), Error>)
        requires
            old(self).wf(),
            value.inv(),
        ensures
            final(self).wf(),
            match write_result(old(self)@, *global_memory, *address, value@) {
                Ok(s2) => r is Ok && final(self)@ == s2,
                Err(e) => r == Err::<(), Error>(e) && final(self)@ == old(self)@,
            },
    {
        let target = match self.eval_address(address) {
            Some(d) => d,
            None => return Err(Error::MalformedExpression),
        };
        match target {
            Data::Pointer(_, t) => {
                proof {
                    crate::table::lemma_to_map_len(t.entries@);
                }
                if t.entries.len() != 1 {
                    return Err(Error::UnresolvedPointer);
                }
                proof {
                    let e = t.entries@;
                    assert(e.drop_last() =~= Seq::<(AbstractIdentifier, Interval)>::empty());
                    assert(to_map(e.drop_last()) == Map::<IdView, Interval>::empty());
                    assert(e.last() == e[0]);
                    assert(t@ == to_map(e.drop_last()).insert(e.last().0@, e.last().1@));
                    assert(t@ == Map::<IdView, Interval>::empty().insert(e[0].0@, e[0].1@));
                    assert(t@.contains_key(e[0].0@));
                    let c = choose|id: IdView| t@.contains_key(id);
                    assert(c == e[0].0@);
                }
                let id = &t.entries[0].0;
                let off = t.entries[0].1;
                if off.start != off.end {
                    return Err(Error::UnresolvedPointer);
                }
                match self.memory.get(id) {
                    Some(obj) => {
                        let mut updated = obj.duplicate();
                        updated.content.insert(&off.start, value);
                        self.memory.insert(id, updated);
                        Ok(())
                    },
                    None => Err(Error::UnresolvedPointer),
                }
            },
            Data::Value(_, iv) => {
                if iv.start == iv.end && iv.start >= 0 && global_memory.is_mapped(iv.start as u64) {
                    Ok(())
                } else {
                    Err(Error::UnresolvedPointer)
                }
            },
            Data::Top(_) => Err(Error::UnresolvedPointer),
        }
    }

    /// Marks the parameters of an extern call that are passed on the stack
    /// as unknown, since the callee may change them. Every parameter is
    /// tried; of the writes that fail, the last error is returned.
    pub fn clear_stack_parameter(&mut self, extern_call: &ExternSymbol, global_memory: &RuntimeMemoryImage) -> (r: Result<(), Error>)
        requires
            old(self).wf(),
        ensures
            final(self).wf(),
            final(self)@ == stack_params_cleared(old(self)@, *global_memory, extern_call.parameters@).0,
            r == match stack_params_cleared(old(self)@, *global_memory, extern_call.parameters@).1 {
                None => Ok::<(), Error>(()),
                Some(e) => Err(e),
            },
    {
        let ghost s0 = self@;
        let ghost params = extern_call.parameters@;
        let mut result_log: Result<(), Error> = Ok(());
        let mut i: usize = 0;
        while i < extern_call.parameters.len()
            invariant
                self.wf(),
                params == extern_call.parameters@,
                i <= params.len(),
                self@ == stack_params_cleared(s0, *global_memory, params.take(i as int)).0,
                result_log == match stack_params_cleared(s0, *global_memory, params.take(i as int)).1 {
                    None => Ok::<(), Error>(()),
                    Some(e) => Err(e),
                },
            decreases params.len() - i,
        {
            proof {
                assert(params.take(i + 1).drop_last() =~= params.take(i as int));
                assert(params.take(i + 1).last() == params[i as int]);
            }
            match &extern_call.parameters[i] {
                Arg::Register { .. } => {},
                Arg::Stack { address, size, .. } => {
                    let data_top = Data::new_top(*size);
                    match self.write_to_address(address, data_top, global_memory) {
                        Ok(()) => {},
                        Err(err) => {
                            result_log = Err(err);
                        },
                    }
                },
            }
            i = i + 1;
        }
        proof {
            assert(params.take(i as int) =~= params);
        }
        result_log
    }
}

} // verus!
