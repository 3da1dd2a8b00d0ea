use cwe_checker_lib::data::{AbstractIdentifier, AbstractLocation, Data, IdSet, Interval};
use cwe_checker_lib::ir::{BinOpType, Bitvector, Error, Expression, Tid, Variable};
use cwe_checker_lib::memory_image::{MemorySegment, RuntimeMemoryImage};
use cwe_checker_lib::object::{AbstractObject, ObjectState, ObjectType};
use cwe_checker_lib::state::State;
use cwe_checker_lib::sub::{Arg, CallingConvention, ExternSymbol};
use cwe_checker_lib::table::Table;

fn var(name: &str, size: u64) -> Variable {
    Variable::new(name, size, false)
}

fn id(name: &str) -> AbstractIdentifier {
    AbstractIdentifier::new(Tid::new("func", "0"), AbstractLocation::from_var(&var(name, 8)))
}

fn pointer_to(name: &str, offset: i64) -> Data {
    Data::from_target(id(name), Interval::exact(offset), 8)
}

fn fresh() -> State {
    State::new(&var("RSP", 8), Tid::new("func", "0"))
}

fn heap_object() -> AbstractObject {
    AbstractObject::new(ObjectType::Heap, 8)
}

fn rsp_plus(offset: u64) -> Expression {
    Expression::BinOp {
        op: BinOpType::IntAdd,
        lhs: Box::new(Expression::Var(var("RSP", 8))),
        rhs: Box::new(Expression::Const(Bitvector { value: offset, width: 8 })),
    }
}

fn cconv() -> CallingConvention {
    CallingConvention {
        name: "__stdcall".to_string(),
        integer_parameter_register: vec![var("RDI", 8)],
        float_parameter_register: vec![],
        integer_return_register: vec![var("RAX", 8)],
        float_return_register: vec![],
        callee_saved_register: vec![var("RBP", 8), var("RSP", 8)],
    }
}

#[test]
fn new_state_points_stack_register_to_stack_frame() {
    let state = fresh();
    assert_eq!(state.get_register(&var("RSP", 8)), pointer_to("RSP", 0));
    assert_eq!(state.memory.entries.len(), 1);
    assert!(state.memory.contains_key(&id("RSP")));
    assert_eq!(state.get_register(&var("RAX", 8)), Data::Top(8));
    assert!(!state.is_top());
}

#[test]
fn generic_parameter_objects() {
    let state = State::new_with_generic_parameter_objects(
        &var("RSP", 8),
        Tid::new("func", "0"),
        &[var("RDI", 8), var("RSI", 8)],
    );
    assert_eq!(state.memory.entries.len(), 3);
    assert_eq!(state.get_register(&var("RDI", 8)), pointer_to("RDI", 0));
    assert_eq!(state.memory.get(&id("RSI")).unwrap().object_type, ObjectType::Heap);
}

#[test]
fn merge_with_itself_gives_the_state() {
    let mut state = fresh();
    state.set_register(&var("RAX", 8), Data::Value(8, Interval { start: 1, end: 5 }));
    state.memory.insert(&id("RDI"), heap_object());
    state.set_register(&var("RDI", 8), pointer_to("RDI", 0));
    state.caller_stack_ids.insert(&id("caller"));
    assert_eq!(state.merge(&state), state);
}

#[test]
fn merge_joins_registers_and_drops_top() {
    let mut a = fresh();
    let mut b = fresh();
    a.set_register(&var("RAX", 8), Data::Value(8, Interval { start: 1, end: 2 }));
    b.set_register(&var("RAX", 8), Data::Value(8, Interval { start: 5, end: 7 }));
    a.set_register(&var("RBX", 8), Data::Value(8, Interval::exact(3)));
    b.set_register(&var("RBX", 8), pointer_to("RSP", 0));
    a.set_register(&var("RCX", 8), Data::Value(8, Interval::exact(3)));
    b.memory.insert(&id("RDI"), heap_object());
    b.ids_known_to_caller.insert(&id("RDI"));
    let m = a.merge(&b);
    assert_eq!(m.get_register(&var("RAX", 8)), Data::Value(8, Interval { start: 1, end: 7 }));
    assert_eq!(m.get_register(&var("RBX", 8)), Data::Top(8));
    assert_eq!(m.get_register(&var("RCX", 8)), Data::Top(8));
    assert_eq!(m.register.entries.len(), 2);
    assert!(m.memory.contains_key(&id("RDI")));
    assert!(m.ids_known_to_caller.contains(&id("RDI")));
}

#[test]
fn cleanup_keeps_roots_and_reachable_objects() {
    let mut state = fresh();
    for name in ["caller", "known", "unreachable", "heap", "inner"] {
        state.memory.insert(&id(name), heap_object());
    }
    state.caller_stack_ids.insert(&id("caller"));
    state.ids_known_to_caller.insert(&id("known"));
    state.set_register(&var("RAX", 8), pointer_to("heap", 0));
    let mut heap = heap_object();
    heap.content.insert(&0, pointer_to("inner", 4));
    state.memory.insert(&id("heap"), heap);
    state.remove_unreferenced_objects();
    for name in ["RSP", "caller", "known", "heap", "inner"] {
        assert!(state.memory.contains_key(&id(name)), "{} was removed", name);
    }
    assert!(!state.memory.contains_key(&id("unreachable")));
}

#[test]
fn cleanup_without_registers_keeps_stack_and_caller_objects() {
    let mut state = fresh();
    state.memory.insert(&id("caller"), heap_object());
    state.memory.insert(&id("known"), heap_object());
    state.caller_stack_ids.insert(&id("caller"));
    state.ids_known_to_caller.insert(&id("known"));
    state.clear_non_callee_saved_register(&[]);
    assert_eq!(state.register.entries.len(), 0);
    state.remove_unreferenced_objects();
    assert_eq!(state.memory.entries.len(), 3);
}

#[test]
fn clear_non_callee_saved_register_keeps_listed() {
    let mut state = fresh();
    state.set_register(&var("RBP", 8), Data::Value(8, Interval::exact(1)));
    state.set_register(&var("RAX", 8), Data::Value(8, Interval::exact(2)));
    state.set_register(&Variable::new("tmp", 8, true), Data::Value(8, Interval::exact(3)));
    state.clear_non_callee_saved_register(&[var("RBP", 8), var("RSP", 8)]);
    assert_eq!(state.register.entries.len(), 2);
    assert_eq!(state.get_register(&var("RAX", 8)), Data::Top(8));
    assert_eq!(state.get_register(&var("RBP", 8)), Data::Value(8, Interval::exact(1)));
}

#[test]
fn remove_virtual_register_drops_temporaries() {
    let mut state = fresh();
    let tmp = Variable::new("tmp", 8, true);
    state.set_register(&tmp, Data::Value(8, Interval::exact(3)));
    state.remove_virtual_register();
    assert_eq!(state.get_register(&tmp), Data::Top(8));
    assert_eq!(state.register.entries.len(), 1);
}

#[test]
fn callee_saved_registers_restore_and_remove() {
    let mut caller = fresh();
    caller.set_register(&var("RBP", 8), Data::Value(8, Interval::exact(7)));
    let mut callee = fresh();
    callee.set_register(&var("RBP", 8), Data::Value(8, Interval::exact(9)));
    callee.set_register(&var("RSP", 8), pointer_to("RSP", -8));
    callee.restore_callee_saved_register(&caller, &cconv(), &var("RSP", 8));
    assert_eq!(callee.get_register(&var("RBP", 8)), Data::Value(8, Interval::exact(7)));
    assert_eq!(callee.get_register(&var("RSP", 8)), pointer_to("RSP", -8));
    callee.remove_callee_saved_register(&cconv());
    assert_eq!(callee.register.entries.len(), 0);
}

#[test]
fn readd_caller_objects_adds_only_unknown() {
    let mut caller = fresh();
    let mut freed = heap_object();
    freed.state = ObjectState::Freed;
    caller.memory.insert(&id("RDI"), heap_object());
    caller.memory.insert(&id("RSP"), freed);
    let mut callee = fresh();
    callee.readd_caller_objects(&caller);
    assert_eq!(callee.memory.entries.len(), 2);
    assert_eq!(callee.memory.get(&id("RSP")).unwrap().state, ObjectState::Live);
}

#[test]
fn merge_callee_stack_rewrites_references() {
    let mut state = fresh();
    state.memory.insert(&id("callee"), AbstractObject::new(ObjectType::Stack, 8));
    state.set_register(&var("RAX", 8), pointer_to("callee", -16));
    let mut heap = heap_object();
    heap.content.insert(&8, pointer_to("callee", 0));
    state.memory.insert(&id("heap"), heap);
    state.merge_callee_stack_to_caller_stack(&id("callee"), &id("RSP"), &Interval::exact(-32));
    assert!(!state.memory.contains_key(&id("callee")));
    assert_eq!(state.get_register(&var("RAX", 8)), pointer_to("RSP", -48));
    let heap = state.memory.get(&id("heap")).unwrap();
    assert_eq!(heap.content.get(&8).unwrap(), &pointer_to("RSP", -32));
}

#[test]
fn free_single_object_then_double_free() {
    let mut state = fresh();
    state.memory.insert(&id("heap"), heap_object());
    assert_eq!(state.mark_mem_object_as_freed(&pointer_to("heap", 0)), Ok(()));
    assert_eq!(state.memory.get(&id("heap")).unwrap().state, ObjectState::Freed);
    let r = state.mark_mem_object_as_freed(&pointer_to("heap", 0));
    assert_eq!(r, Err(vec![(id("heap"), Error::DoubleFreeCandidate)]));
}

#[test]
fn free_ambiguous_pointer_marks_unknown() {
    let mut state = fresh();
    state.memory.insert(&id("a"), heap_object());
    state.memory.insert(&id("b"), heap_object());
    let mut targets = Table::new();
    targets.push_new(id("a"), Interval::exact(0));
    targets.push_new(id("b"), Interval::exact(0));
    assert_eq!(state.mark_mem_object_as_freed(&Data::Pointer(8, targets)), Ok(()));
    assert_eq!(state.memory.get(&id("a")).unwrap().state, ObjectState::Unknown);
    assert_eq!(state.memory.get(&id("b")).unwrap().state, ObjectState::Unknown);
    assert_eq!(state.mark_mem_object_as_freed(&Data::Value(8, Interval::exact(0))), Ok(()));
}

#[test]
fn mips_link_register() {
    let mut state = fresh();
    assert_eq!(state.set_mips_link_register(&Tid::new("callee", "1A2b"), 4), Ok(()));
    assert_eq!(state.get_register(&var("t9", 4)), Data::Value(4, Interval::exact(0x1a2b)));
    assert_eq!(state.set_mips_link_register(&Tid::new("callee", "123456789"), 4), Ok(()));
    assert_eq!(state.get_register(&var("t9", 4)), Data::Value(4, Interval::exact(0x23456789)));
    assert_eq!(state.set_mips_link_register(&Tid::new("callee", "UNKNOWN"), 4), Err(Error::AddressParseError));
    assert_eq!(state.set_mips_link_register(&Tid::new("callee", ""), 4), Err(Error::AddressParseError));
    assert_eq!(
        state.set_mips_link_register(&Tid::new("callee", "10000000000000000"), 8),
        Err(Error::AddressParseError)
    );
}

#[test]
fn clear_stack_parameter_writes_top_and_keeps_last_error() {
    let img = RuntimeMemoryImage {
        memory_segments: vec![MemorySegment { base_address: 0x1000, bytes: vec![1, 2, 3] }],
    };
    let mut state = fresh();
    let mut frame = AbstractObject::new(ObjectType::Stack, 8);
    frame.content.insert(&8, Data::Value(4, Interval::exact(5)));
    state.memory.insert(&id("RSP"), frame);
    let symbol = ExternSymbol {
        tid: Tid::new("f", "UNKNOWN"),
        addresses: vec![],
        name: "f".to_string(),
        calling_convention: None,
        parameters: vec![
            Arg::Stack { address: rsp_plus(8), size: 4, data_type: None },
            Arg::Stack { address: Expression::Var(var("RAX", 8)), size: 4, data_type: None },
            Arg::Register { expr: Expression::Var(var("RDI", 8)), data_type: None },
        ],
        return_values: vec![],
        no_return: false,
        has_var_args: false,
    };
    assert_eq!(state.clear_stack_parameter(&symbol, &img), Err(Error::UnresolvedPointer));
    let frame = state.memory.get(&id("RSP")).unwrap();
    assert_eq!(frame.content.get(&8).unwrap(), &Data::Top(4));

    state.set_register(&var("RAX", 8), Data::Value(8, Interval::exact(0x1001)));
    assert_eq!(state.clear_stack_parameter(&symbol, &img), Ok(()));
}

#[test]
fn id_set_union() {
    let mut a = IdSet::new();
    a.insert(&id("x"));
    a.insert(&id("x"));
    let mut b = IdSet::new();
    b.insert(&id("y"));
    a.extend(&b);
    assert_eq!(a.ids.len(), 2);
    assert!(a.contains(&id("y")));
}

#[test]
fn states_of_different_frames_are_not_merged() {
    let a = fresh();
    let b = State::new(&var("RSP", 8), Tid::new("other", "0"));
    assert!(a.try_merge(&b).is_none());
    assert_eq!(a.try_merge(&a), Some(a.merge(&a)));
}

#[test]
fn compact_snapshot_texts() {
    let mut state = fresh();
    state.set_register(&var("RAX", 8), Data::Value(8, Interval { start: -3, end: 12 }));
    let mut heap = heap_object();
    heap.content.insert(&-8, Data::Top(4));
    heap.content.insert(&16, pointer_to("RSP", -24));
    state.memory.insert(&id("RDI"), heap);
    state.caller_stack_ids.insert(&id("caller"));
    let snap = state.compact_snapshot();
    assert_eq!(
        snap.register,
        vec![
            ("RSP".to_string(), "{func @ RSP: 0}".to_string()),
            ("RAX".to_string(), "[-3, 12]".to_string()),
        ]
    );
    assert_eq!(
        snap.memory,
        vec![
            ("func @ RSP".to_string(), "Stack Live 8 {}".to_string()),
            ("func @ RDI".to_string(), "Heap Live 8 {-8: Top:4, 16: {func @ RSP: -24}}".to_string()),
        ]
    );
    assert_eq!(snap.stack_id, "func @ RSP");
    assert_eq!(snap.caller_stack_ids, vec!["func @ caller".to_string()]);
    assert!(snap.ids_known_to_caller.is_empty());
}

#[test]
fn identifier_text_shows_dereferences() {
    let mut location = AbstractLocation::from_var(&var("RDI", 8));
    location.deref_offsets = vec![8, -16];
    let id = AbstractIdentifier::new(Tid::new("main", "0"), location);
    assert_eq!(cwe_checker_lib::snapshot::id_string(&id), "main @ RDI->8->-16");
}

#[test]
fn mips_link_register_accepts_leading_plus() {
    let mut state = fresh();
    assert_eq!(state.set_mips_link_register(&Tid::new("callee", "+1"), 4), Ok(()));
    assert_eq!(state.get_register(&var("t9", 4)), Data::Value(4, Interval::exact(1)));
    assert_eq!(state.set_mips_link_register(&Tid::new("callee", "+"), 4), Err(Error::AddressParseError));
    assert_eq!(state.set_mips_link_register(&Tid::new("callee", "++1"), 4), Err(Error::AddressParseError));
}

#[test]
fn double_free_names_object_once() {
    let mut state = fresh();
    let mut freed = heap_object();
    freed.state = ObjectState::Freed;
    state.memory.insert(&id("a"), freed);
    state.memory.insert(&id("b"), heap_object());
    let mut targets = Table::new();
    targets.push_new(id("a"), Interval::exact(0));
    targets.push_new(id("b"), Interval::exact(0));
    let r = state.mark_mem_object_as_freed(&Data::Pointer(8, targets));
    assert_eq!(r, Err(vec![(id("a"), Error::DoubleFreeCandidate)]));
}

#[test]
fn snapshot_lists_identifiers_in_ascending_order() {
    let mut a = fresh();
    a.caller_stack_ids.insert(&id("zeta"));
    a.caller_stack_ids.insert(&id("alpha"));
    a.caller_stack_ids.insert(&id("RDI"));
    let mut b = fresh();
    b.caller_stack_ids.insert(&id("alpha"));
    b.caller_stack_ids.insert(&id("RDI"));
    b.caller_stack_ids.insert(&id("zeta"));
    let expected = vec![
        "func @ RDI".to_string(),
        "func @ alpha".to_string(),
        "func @ zeta".to_string(),
    ];
    assert_eq!(a.compact_snapshot().caller_stack_ids, expected);
    assert_eq!(b.compact_snapshot(), a.compact_snapshot());
}
