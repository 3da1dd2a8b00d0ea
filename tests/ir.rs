use cwe_checker_lib::ir::{BinOpType, Bitvector, Error, Expression, UnOpType, Variable};
use cwe_checker_lib::sub::{Arg, CallingConvention, Datatype, ExternSymbol, Project, DatatypeProperties};
use cwe_checker_lib::ir::Tid;

fn var(name: &str, size: u64) -> Variable {
    Variable::new(name, size, false)
}

fn stack_arg(address: Expression) -> Arg {
    Arg::Stack { address, size: 8, data_type: Some(Datatype::Integer) }
}

fn c(value: u64, width: u64) -> Box<Expression> {
    Box::new(Expression::Const(Bitvector { value, width }))
}

#[test]
fn bitvector_arithmetic_wraps() {
    let a = Bitvector { value: 0xff, width: 1 };
    let b = Bitvector { value: 2, width: 1 };
    assert_eq!(a.bin_op(BinOpType::IntAdd, &b), Ok(Bitvector { value: 1, width: 1 }));
    assert_eq!(b.bin_op(BinOpType::IntSub, &a), Ok(Bitvector { value: 3, width: 1 }));
    assert_eq!(a.bin_op(BinOpType::IntMult, &b), Ok(Bitvector { value: 0xfe, width: 1 }));
    assert_eq!(a.bin_op(BinOpType::IntXor, &b), Ok(Bitvector { value: 0xfd, width: 1 }));
    assert_eq!(b.un_op(UnOpType::Int2Comp), Bitvector { value: 0xfe, width: 1 });
    assert_eq!(b.un_op(UnOpType::IntNegate), Bitvector { value: 0xfd, width: 1 });
    assert_eq!(a.bin_op(BinOpType::IntAdd, &Bitvector { value: 1, width: 2 }), Err(Error::MalformedExpression));
    assert_eq!(Bitvector::from_i64(-8, 4), Bitvector { value: 0xffff_fff8, width: 4 });
    let big = Bitvector { value: u64::MAX, width: 8 };
    assert_eq!(big.bin_op(BinOpType::IntMult, &big), Ok(Bitvector { value: 1, width: 8 }));
}

#[test]
fn eval_stack_offset_of_stack_arguments() {
    let rsp = var("RSP", 8);
    let plus = Expression::BinOp { op: BinOpType::IntAdd, lhs: Box::new(Expression::Var(rsp.clone())), rhs: c(16, 8) };
    assert_eq!(stack_arg(plus).eval_stack_offset(&rsp), Ok(Bitvector { value: 16, width: 8 }));
    let minus = Expression::BinOp {
        op: BinOpType::IntSub,
        lhs: Box::new(Expression::Var(rsp.clone())),
        rhs: Box::new(Expression::UnOp { op: UnOpType::Int2Comp, arg: c(8, 8) }),
    };
    assert_eq!(stack_arg(minus).eval_stack_offset(&rsp), Ok(Bitvector { value: 8, width: 8 }));
    assert_eq!(stack_arg(Expression::Var(var("RBP", 8))).eval_stack_offset(&rsp), Err(Error::MalformedExpression));
    let sub = Expression::Subpiece { low_byte: 0, size: 4, inner: Box::new(Expression::Var(rsp.clone())) };
    assert_eq!(stack_arg(sub).eval_stack_offset(&rsp), Err(Error::MalformedExpression));
    let reg = Arg::from_var(rsp.clone(), None);
    assert_eq!(reg.eval_stack_offset(&rsp), Err(Error::ShapeMismatch));
    assert_eq!(reg.get_data_type(), None);
    assert_eq!(stack_arg(Expression::Var(rsp.clone())).get_data_type(), Some(Datatype::Integer));
}

fn symbol(parameters: Vec<Arg>, return_values: Vec<Arg>) -> ExternSymbol {
    ExternSymbol {
        tid: Tid::new("s", "UNKNOWN"),
        addresses: vec![],
        name: "s".to_string(),
        calling_convention: None,
        parameters,
        return_values,
        no_return: false,
        has_var_args: false,
    }
}

#[test]
fn unique_return_register_and_parameter() {
    let rax = Arg::from_var(var("RAX", 8), None);
    let s = symbol(vec![Arg::from_var(var("RDI", 8), None)], vec![rax]);
    assert_eq!(s.get_unique_return_register(), Ok(&var("RAX", 8)));
    assert_eq!(s.get_unique_parameter(), Ok(&Arg::from_var(var("RDI", 8), None)));
    let s = symbol(vec![], vec![]);
    assert_eq!(s.get_unique_return_register(), Err(Error::ArityMismatch));
    assert_eq!(s.get_unique_parameter(), Err(Error::ArityMismatch));
    let s = symbol(vec![stack_arg(Expression::Var(var("RSP", 8)))], vec![stack_arg(Expression::Var(var("RSP", 8)))]);
    assert_eq!(s.get_unique_return_register(), Err(Error::ShapeMismatch));
    assert_eq!(s.get_unique_parameter(), Err(Error::ShapeMismatch));
    let sub = Expression::Subpiece { low_byte: 0, size: 4, inner: Box::new(Expression::Var(var("RDI", 8))) };
    let s = symbol(vec![Arg::Register { expr: sub, data_type: None }], vec![]);
    assert_eq!(s.get_unique_parameter(), Err(Error::ShapeMismatch));
}

fn cconv(name: &str) -> CallingConvention {
    CallingConvention {
        name: name.to_string(),
        integer_parameter_register: vec![var("RDI", 8), var("RSI", 8)],
        float_parameter_register: vec![Expression::Subpiece { low_byte: 0, size: 8, inner: Box::new(Expression::Var(var("XMM0", 16))) }],
        integer_return_register: vec![var("RAX", 8)],
        float_return_register: vec![Expression::Var(var("XMM1", 16))],
        callee_saved_register: vec![var("RBP", 8)],
    }
}

#[test]
fn all_parameter_and_return_registers() {
    let cc = cconv("__stdcall");
    assert_eq!(cc.get_all_parameter_register(), vec![var("RDI", 8), var("RSI", 8), var("XMM0", 16)]);
    assert_eq!(cc.get_all_return_register(), vec![var("RAX", 8), var("XMM1", 16)]);
}

#[test]
fn calling_convention_lookup() {
    let project = Project {
        calling_conventions: vec![cconv("__cdecl"), cconv("__stdcall")],
        stack_pointer_register: var("RSP", 8),
        cpu_architecture: "x86_64".to_string(),
        datatype_properties: DatatypeProperties { integer_size: 4, pointer_size: 8, double_size: 8 },
    };
    let mut s = symbol(vec![], vec![]);
    assert_eq!(s.get_calling_convention(&project).unwrap().name, "__stdcall");
    s.calling_convention = Some("__cdecl".to_string());
    assert_eq!(s.get_calling_convention(&project).unwrap().name, "__cdecl");
    s.calling_convention = Some("__fastcall".to_string());
    assert_eq!(s.get_calling_convention(&project), Err(Error::MissingCallingConvention));
}
