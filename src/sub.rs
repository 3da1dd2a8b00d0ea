//! Function-level types of the intermediate representation: arguments,
//! extern symbols, calling conventions and the project that holds them.
use vstd::prelude::*;
use crate::ir::{
    input_vars_of, same_expr, valid_width, views_of, Bitvector, Error, Expression, Tid,
    Variable,
};

verus! {

/// The class of a value passed to a function.
#[derive(Clone, Copy, Debug, PartialEq, Eq, Structural)]
pub enum Datatype {
    Char,
    Integer,
    Pointer,
    Double,
}

/// Sizes in bytes of the C data types on an architecture.
#[derive(Clone, Copy, Debug, PartialEq, Eq, Structural)]
pub struct DatatypeProperties {
    pub integer_size: u64,
    pub pointer_size: u64,
    pub double_size: u64,
}

/// A parameter or return argument of a function.
#[derive(Debug, PartialEq)]
pub enum Arg {
    /// The argument is passed in a register.
    Register {
        /// The expression evaluating to the argument.
        expr: Expression,
        /// An optional data type indicator.
        data_type: Option<Datatype>,
    },
    /// The argument is passed on the stack.
    Stack {
        /// The expression that computes the address of the argument on the stack.
        address: Expression,
        /// The size in bytes of the argument.
        size: u64,
        /// An optional data type indicator.
        data_type: Option<Datatype>,
    },
}

/// The constant offset that `e` computes relative to the stack register `sp`,
/// or `None` where it computes none.
pub open spec fn stack_offset_of(e: Expression, sp: (Seq<char>, u64, bool)) -> Option<Bitvector>
    decreases e,
{
    match e {
        Expression::Var(v) => if v@ == sp && valid_width(v.size) {
            Some(Bitvector { value: 0, width: v.size })
        } else {
            None
        },
        Expression::Const(c) => if c.wf() {
            Some(c)
        } else {
            None
        },
        Expression::BinOp { op, lhs, rhs } => match (
            stack_offset_of(*lhs, sp),
            stack_offset_of(*rhs, sp),
        ) {
            (Some(a), Some(b)) => if a.width == b.width {
                Some(
                    Bitvector {
                        value: crate::ir::bin_op_value(op, a.value, b.value, a.width) as u64,
                        width: a.width,
                    },
                )
            } else {
                None
            },
            _ => None,
        },
        Expression::UnOp { op, arg } => match stack_offset_of(*arg, sp) {
            Some(a) => Some(
                Bitvector { value: crate::ir::un_op_value(op, a.value, a.width) as u64, width: a.width },
            ),
            None => None,
        },
        _ => None,
    }
}

/// Two arguments have the same variant and fields.
pub open spec fn same_arg(a: Arg, b: Arg) -> bool {
    match (a, b) {
        (Arg::Register { expr: e1, data_type: d1 }, Arg::Register { expr: e2, data_type: d2 }) =>
            same_expr(e1, e2) && d1 == d2,
        (
            Arg::Stack { address: a1, size: s1, data_type: d1 },
            Arg::Stack { address: a2, size: s2, data_type: d2 },
        ) => same_expr(a1, a2) && s1 == s2 && d1 == d2,
        _ => false,
    }
}

impl Arg {
    /// A copy of the argument.
    pub fn duplicate(&self) -> (r: Arg)
        ensures
            same_arg(*self, r),
    {
        match self {
            Arg::Register { expr, data_type } => Arg::Register { expr: expr.duplicate(), data_type: *data_type },
            Arg::Stack { address, size, data_type } => Arg::Stack {
                address: address.duplicate(),
                size: *size,
                data_type: *data_type,
            },
        }
    }

    /// Generate a new register argument.
    pub fn from_var(var: Variable, data_type_hint: Option<Datatype>) -> (r: Arg)
        ensures
            r == (Arg::Register { expr: Expression::Var(var), data_type: data_type_hint }),
    {
        Arg::Register { expr: Expression::Var(var), data_type: data_type_hint }
    }

    pub open spec fn data_type_of(&self) -> Option<Datatype> {
        match self {
            Arg::Register { data_type, .. } => *data_type,
            Arg::Stack { data_type, .. } => *data_type,
        }
    }

    /// Returns the data type field of an argument.
    pub fn get_data_type(&self) -> (r: Option<Datatype>)
        ensures
            r == self.data_type_of(),
    {
        match self {
            Arg::Register { data_type, .. } => *data_type,
            Arg::Stack { data_type, .. } => *data_type,
        }
    }

    /// The offset of a stack argument relative to the current stack register value.
    /// Register arguments, and addresses that are no constant offset to the
    /// stack register, give an error.
    pub fn eval_stack_offset(&self, stack_register: &Variable) -> (r: Result<Bitvector, Error>)
        ensures
            r == match self {
                Arg::Register { .. } => Err(Error::ShapeMismatch),
                Arg::Stack { address, .. } => match stack_offset_of(*address, stack_register@) {
                    Some(b) => Ok(b),
                    None => Err(Error::MalformedExpression),
                },
            },
            r is Ok ==> r->Ok_0.wf(),
    {
        let expression = match self {
            Arg::Register { .. } => return Err(Error::ShapeMismatch),
            Arg::Stack { address, .. } => address,
        };
        Self::eval_stack_offset_expression(expression, stack_register)
    }

    /// The constant offset that `expression` computes relative to the stack register.
    fn eval_stack_offset_expression(expression: &Expression, stack_register: &Variable) -> (r:
        Result<Bitvector, Error>)
        ensures
            r == match stack_offset_of(*expression, stack_register@) {
                Some(b) => Ok(b),
                None => Err::<Bitvector, Error>(Error::MalformedExpression),
            },
            r is Ok ==> r->Ok_0.wf(),
        decreases expression,
    {
        match expression {
            Expression::Var(var) => {
                if *var == *stack_register && 1 <= var.size && var.size <= 8 {
                    Ok(Bitvector::zero(var.size))
                } else {
                    Err(Error::MalformedExpression)
                }
            },
            Expression::Const(bitvec) => {
                if 1 <= bitvec.width && bitvec.width <= 8 && (bitvec.value as u128)
                    < crate::ir::modulus_of(bitvec.width) {
                    Ok(*bitvec)
                } else {
                    Err(Error::MalformedExpression)
                }
            },
            Expression::BinOp { op, lhs, rhs } => {
                let lhs = match Self::eval_stack_offset_expression(lhs, stack_register) {
                    Ok(b) => b,
                    Err(e) => return Err(e),
                };
                let rhs = match Self::eval_stack_offset_expression(rhs, stack_register) {
                    Ok(b) => b,
                    Err(e) => return Err(e),
                };
                lhs.bin_op(*op, &rhs)
            },
            Expression::UnOp { op, arg } => {
                match Self::eval_stack_offset_expression(arg, stack_register) {
                    Ok(b) => Ok(b.un_op(*op)),
                    Err(e) => Err(e),
                }
            },
            _ => Err(Error::MalformedExpression),
        }
    }
}


/// A function with its name and the identifiers of its basic blocks.
/// The first block is the entry point.
#[derive(Debug, PartialEq)]
pub struct Sub {
    pub name: String,
    pub blocks: Vec<Tid>,
    /// The calling convention used to call the function, if known.
    pub calling_convention: Option<String>,
}

/// A function that is dynamically linked from another binary.
#[derive(Debug, PartialEq)]
pub struct ExternSymbol {
    pub tid: Tid,
    /// Addresses of possibly multiple locations of the same extern symbol.
    pub addresses: Vec<String>,
    pub name: String,
    /// The calling convention used for the symbol, if known.
    pub calling_convention: Option<String>,
    /// May be empty if there are no parameters or they are unknown.
    pub parameters: Vec<Arg>,
    /// May be empty if there is no return value or it is unknown.
    pub return_values: Vec<Arg>,
    /// The function never returns to its caller.
    pub no_return: bool,
    /// The function takes a variable number of parameters.
    pub has_var_args: bool,
}

/// The name of the calling convention that applies where a symbol names none.
pub open spec fn standard_cconv_name() -> Seq<char> {
    "__stdcall"@
}

/// The index of the first calling convention named `name`.
pub open spec fn cconv_index(ccs: Seq<CallingConvention>, name: Seq<char>) -> Option<int> {
    if exists|i: int| 0 <= i < ccs.len() && ccs[i].name@ == name {
        Some(
            choose|i: int|
                0 <= i < ccs.len() && ccs[i].name@ == name && forall|j: int|
                    0 <= j < i ==> ccs[j].name@ != name,
        )
    } else {
        None
    }
}

proof fn lemma_first_index(ccs: Seq<CallingConvention>, name: Seq<char>, i: int)
    requires
        0 <= i < ccs.len(),
        ccs[i].name@ == name,
        forall|j: int| 0 <= j < i ==> ccs[j].name@ != name,
    ensures
        cconv_index(ccs, name) == Some(i),
{
    let k = choose|k: int|
        0 <= k < ccs.len() && ccs[k].name@ == name && forall|j: int|
            0 <= j < k ==> ccs[j].name@ != name;
    assert(k == i) by {
        if k < i {
            assert(ccs[k].name@ != name);
        }
        if i < k {
            assert(ccs[i].name@ != name);
        }
    }
}

impl ExternSymbol {
    /// The register of the single return value, where there is exactly one
    /// and it is passed in a plain register.
    pub fn get_unique_return_register(&self) -> (r: Result<&Variable, Error>)
        ensures
            self.return_values.len() != 1 ==> r == Err::<&Variable, Error>(Error::ArityMismatch),
            self.return_values.len() == 1 ==> match self.return_values[0] {
                Arg::Register { expr: Expression::Var(v), .. } => r == Ok::<&Variable, Error>(&v),
                _ => r == Err::<&Variable, Error>(Error::ShapeMismatch),
            },
    {
        if self.return_values.len() == 1 {
            match &self.return_values[0] {
                Arg::Register { expr: Expression::Var(var), .. } => Ok(var),
                Arg::Register { .. } => Err(Error::ShapeMismatch),
                Arg::Stack { .. } => Err(Error::ShapeMismatch),
            }
        } else {
            Err(Error::ArityMismatch)
        }
    }

    /// The single parameter, where there is exactly one and it is passed in
    /// a plain register.
    pub fn get_unique_parameter(&self) -> (r: Result<&Arg, Error>)
        ensures
            self.parameters.len() != 1 ==> r == Err::<&Arg, Error>(Error::ArityMismatch),
            self.parameters.len() == 1 ==> match self.parameters[0] {
                Arg::Register { expr: Expression::Var(_), .. } => r == Ok::<&Arg, Error>(&self.parameters[0]),
                _ => r == Err::<&Arg, Error>(Error::ShapeMismatch),
            },
    {
        if self.parameters.len() == 1 {
            match &self.parameters[0] {
                Arg::Register { expr: Expression::Var(_), .. } => Ok(&self.parameters[0]),
                Arg::Register { .. } => Err(Error::ShapeMismatch),
                Arg::Stack { .. } => Err(Error::ShapeMismatch),
            }
        } else {
            Err(Error::ArityMismatch)
        }
    }

    /// The name of the calling convention of the symbol: its own, or the standard one.
    pub open spec fn cconv_name(&self) -> Seq<char> {
        match self.calling_convention {
            Some(n) => n@,
            None => standard_cconv_name(),
        }
    }

    /// The calling convention of the symbol, looked up in the project.
    pub fn get_calling_convention<'a>(&self, project: &'a Project) -> (r: Result<
        &'a CallingConvention,
        Error,
    >)
        ensures
            match cconv_index(project.calling_conventions@, self.cconv_name()) {
                Some(i) => r == Ok::<&CallingConvention, Error>(&project.calling_conventions@[i]),
                None => r == Err::<&CallingConvention, Error>(Error::MissingCallingConvention),
            },
    {
        let name = match &self.calling_convention {
            Some(n) => n.clone(),
            None => String::from_str("__stdcall"),
        };
        project.find_calling_convention(&name)
    }
}

/// Calling convention related data.
#[derive(Debug, PartialEq)]
pub struct CallingConvention {
    pub name: String,
    /// Integer parameter registers, in the order in which they are used.
    pub integer_parameter_register: Vec<Variable>,
    /// Float parameter registers, in the order in which they are used.
    /// Given as expressions, since they are usually sub-registers of larger registers.
    pub float_parameter_register: Vec<Expression>,
    /// Return registers for non-float values.
    pub integer_return_register: Vec<Variable>,
    /// Return registers for float values, as expressions.
    pub float_return_register: Vec<Expression>,
    /// Registers whose values are the same after a call as before it.
    pub callee_saved_register: Vec<Variable>,
}

/// The variables read by a sequence of expressions, in order.
pub open spec fn input_vars_all(es: Seq<Expression>) -> Seq<(Seq<char>, u64, bool)>
    decreases es.len(),
{
    if es.len() == 0 {
        seq![]
    } else {
        input_vars_all(es.drop_last()) + input_vars_of(es.last())
    }
}

/// Integer registers followed by the base registers of the float expressions.
fn flatten_registers(ints: &Vec<Variable>, floats: &Vec<Expression>) -> (r: Vec<Variable>)
    ensures
        views_of(r@) == views_of(ints@) + input_vars_all(floats@),
{
    let mut register_list: Vec<Variable> = Vec::new();
    let mut i: usize = 0;
    while i < ints.len()
        invariant
            i <= ints.len(),
            views_of(register_list@) == views_of(ints@.take(i as int)),
        decreases ints.len() - i,
    {
        let ghost before = register_list@;
        register_list.push(ints[i].clone());
        proof {
            crate::ir::lemma_views_push(before, register_list@.last());
            crate::ir::lemma_views_push(ints@.take(i as int), ints@[i as int]);
            assert(ints@.take(i + 1) =~= ints@.take(i as int).push(ints@[i as int]));
        }
        i = i + 1;
    }
    assert(ints@.take(i as int) =~= ints@);
    let mut j: usize = 0;
    while j < floats.len()
        invariant
            j <= floats.len(),
            views_of(register_list@) == views_of(ints@) + input_vars_all(floats@.take(j as int)),
        decreases floats.len() - j,
    {
        let vars = floats[j].input_vars();
        let ghost before = register_list@;
        let mut k: usize = 0;
        while k < vars.len()
            invariant
                k <= vars.len(),
                views_of(register_list@) == views_of(before) + views_of(vars@.take(k as int)),
            decreases vars.len() - k,
        {
            let ghost prev = register_list@;
            register_list.push(vars[k].clone());
            proof {
                crate::ir::lemma_views_push(prev, register_list@.last());
                crate::ir::lemma_views_push(vars@.take(k as int), vars@[k as int]);
                assert(vars@.take(k + 1) =~= vars@.take(k as int).push(vars@[k as int]));
                assert(views_of(register_list@) =~= views_of(before) + views_of(vars@.take(k + 1)));
            }
            k = k + 1;
        }
        assert(vars@.take(k as int) =~= vars@);
        assert(floats@.take(j + 1).drop_last() =~= floats@.take(j as int));
        j = j + 1;
        assert(views_of(register_list@) =~= views_of(ints@) + input_vars_all(floats@.take(j as int)));
    }
    assert(floats@.take(j as int) =~= floats@);
    register_list
}

impl CallingConvention {
    /// All parameter registers of the convention: the integer ones, then the
    /// base registers of the float ones.
    pub fn get_all_parameter_register(&self) -> (r: Vec<Variable>)
        ensures
            views_of(r@) == views_of(self.integer_parameter_register@) + input_vars_all(
                self.float_parameter_register@,
            ),
    {
        flatten_registers(&self.integer_parameter_register, &self.float_parameter_register)
    }

    /// All return registers of the convention: the integer ones, then the
    /// base registers of the float ones.
    pub fn get_all_return_register(&self) -> (r: Vec<Variable>)
        ensures
            views_of(r@) == views_of(self.integer_return_register@) + input_vars_all(
                self.float_return_register@,
            ),
    {
        flatten_registers(&self.integer_return_register, &self.float_return_register)
    }
}

/// What the analysis knows of the program as a whole.
#[derive(Debug, PartialEq)]
pub struct Project {
    /// The known calling conventions; the first of a name is the one used.
    pub calling_conventions: Vec<CallingConvention>,
    pub stack_pointer_register: Variable,
    pub cpu_architecture: String,
    pub datatype_properties: DatatypeProperties,
}

impl Project {
    /// The first calling convention named `name`.
    pub fn find_calling_convention(&self, name: &String) -> (r: Result<&CallingConvention, Error>)
        ensures
            match cconv_index(self.calling_conventions@, name@) {
                Some(i) => r == Ok::<&CallingConvention, Error>(&self.calling_conventions@[i]),
                None => r == Err::<&CallingConvention, Error>(Error::MissingCallingConvention),
            },
    {
        let mut i: usize = 0;
        while i < self.calling_conventions.len()
            invariant
                i <= self.calling_conventions.len(),
                forall|j: int| 0 <= j < i ==> self.calling_conventions@[j].name@ != name@,
            decreases self.calling_conventions.len() - i,
        {
            if self.calling_conventions[i].name == *name {
                proof {
                    lemma_first_index(self.calling_conventions@, name@, i as int);
                }
                return Ok(&self.calling_conventions[i]);
            }
            i = i + 1;
        }
        Err(Error::MissingCallingConvention)
    }
}

} // verus!
