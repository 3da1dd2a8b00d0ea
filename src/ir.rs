//! Types of the intermediate representation: variables, term identifiers,
//! fixed-width bitvectors and expressions.
use vstd::prelude::*;

verus! {

/// Errors reported by the analysis core.
#[derive(Clone, Copy, Debug, PartialEq, Eq, Structural)]
pub enum Error {
    /// A value is not a concrete singleton where uniqueness is required.
    UnresolvedPointer,
    /// An address lies outside the read-only memory image.
    MemoryReadOutOfBounds,
    /// Bytes read from memory are not valid text.
    InvalidText,
    /// A format string holds a conversion that is not understood.
    UnknownConversion,
    /// An expression shape that the evaluator does not support.
    MalformedExpression,
    /// A symbol refers to an unknown calling convention.
    MissingCallingConvention,
    /// Exactly one item was expected, a different number was found.
    ArityMismatch,
    /// The single item found does not have the expected shape.
    ShapeMismatch,
    /// An object that may already have been freed was freed again.
    DoubleFreeCandidate,
    /// A literal address is not hexadecimal or does not fit.
    AddressParseError,
}

/// A register or a temporary variable.
#[derive(Debug)]
pub struct Variable {
    pub name: String,
    /// Size in bytes.
    pub size: u64,
    /// Temporaries only live inside one basic block.
    pub is_temp: bool,
}

impl View for Variable {
    type V = (Seq<char>, u64, bool);

    open spec fn view(&self) -> Self::V {
        (self.name@, self.size, self.is_temp)
    }
}

impl Clone for Variable {
    fn clone(&self) -> (r: Self)
        ensures
            r@ == self@,
    {
        Variable { name: self.name.clone(), size: self.size, is_temp: self.is_temp }
    }
}

impl PartialEq for Variable {
    fn eq(&self, o: &Self) -> (r: bool)
        ensures
            r == (self@ == o@),
    {
        self.name == o.name && self.size == o.size && self.is_temp == o.is_temp
    }
}

impl vstd::std_specs::cmp::PartialEqSpecImpl for Variable {
    open spec fn obeys_eq_spec() -> bool {
        true
    }

    open spec fn eq_spec(&self, o: &Variable) -> bool {
        self@ == o@
    }
}

impl Variable {
    pub fn new(name: &str, size: u64, is_temp: bool) -> (r: Variable)
        ensures
            r@ == (name@, size, is_temp),
    {
        Variable { name: String::from_str(name), size, is_temp }
    }
}

/// Identifier of a term of the program, with the address it stands at.
#[derive(Debug)]
pub struct Tid {
    pub id: String,
    /// The address as hexadecimal text, or `UNKNOWN`.
    pub address: String,
}

impl View for Tid {
    type V = (Seq<char>, Seq<char>);

    open spec fn view(&self) -> Self::V {
        (self.id@, self.address@)
    }
}

impl Clone for Tid {
    fn clone(&self) -> (r: Self)
        ensures
            r@ == self@,
    {
        Tid { id: self.id.clone(), address: self.address.clone() }
    }
}

impl PartialEq for Tid {
    fn eq(&self, o: &Self) -> (r: bool)
        ensures
            r == (self@ == o@),
    {
        self.id == o.id && self.address == o.address
    }
}

impl vstd::std_specs::cmp::PartialEqSpecImpl for Tid {
    open spec fn obeys_eq_spec() -> bool {
        true
    }

    open spec fn eq_spec(&self, o: &Tid) -> bool {
        self@ == o@
    }
}

impl Tid {
    pub fn new(id: &str, address: &str) -> (r: Tid)
        ensures
            r@ == (id@, address@),
    {
        Tid { id: String::from_str(id), address: String::from_str(address) }
    }
}

/// The number of distinct values of a bitvector of `width` bytes.
pub open spec fn modulus(width: u64) -> int {
    if width == 1 {
        0x100
    } else if width == 2 {
        0x1_0000
    } else if width == 3 {
        0x100_0000
    } else if width == 4 {
        0x1_0000_0000
    } else if width == 5 {
        0x100_0000_0000
    } else if width == 6 {
        0x1_0000_0000_0000
    } else if width == 7 {
        0x100_0000_0000_0000
    } else {
        0x1_0000_0000_0000_0000
    }
}

pub open spec fn valid_width(width: u64) -> bool {
    1 <= width <= 8
}

pub(crate) fn modulus_of(width: u64) -> (r: u128)
    requires
        valid_width(width),
    ensures
        r == modulus(width),
{
    if width == 1 {
        0x100
    } else if width == 2 {
        0x1_0000
    } else if width == 3 {
        0x100_0000
    } else if width == 4 {
        0x1_0000_0000
    } else if width == 5 {
        0x100_0000_0000
    } else if width == 6 {
        0x1_0000_0000_0000
    } else if width == 7 {
        0x100_0000_0000_0000
    } else {
        0x1_0000_0000_0000_0000
    }
}

/// A fixed-width bitvector of `width` bytes (at most eight) holding `value`.
#[derive(Clone, Copy, Debug, PartialEq, Eq, Structural)]
pub struct Bitvector {
    pub value: u64,
    pub width: u64,
}

/// Binary operations on bitvectors; arithmetic wraps around at the width.
#[derive(Clone, Copy, Debug, PartialEq, Eq, Structural)]
pub enum BinOpType {
    IntAdd,
    IntSub,
    IntMult,
    IntAnd,
    IntOr,
    IntXor,
}

/// Unary operations on bitvectors.
#[derive(Clone, Copy, Debug, PartialEq, Eq, Structural)]
pub enum UnOpType {
    /// Two's complement negation.
    Int2Comp,
    /// Bitwise complement.
    IntNegate,
}

pub open spec fn bin_op_value(op: BinOpType, a: u64, b: u64, width: u64) -> int {
    let m = modulus(width);
    match op {
        BinOpType::IntAdd => (a + b) % m,
        BinOpType::IntSub => (a - b) % m,
        BinOpType::IntMult => (a * b) % m,
        BinOpType::IntAnd => (a & b) as int % m,
        BinOpType::IntOr => (a | b) as int % m,
        BinOpType::IntXor => (a ^ b) as int % m,
    }
}

pub open spec fn un_op_value(op: UnOpType, a: u64, width: u64) -> int {
    let m = modulus(width);
    match op {
        UnOpType::Int2Comp => (0 - a) % m,
        UnOpType::IntNegate => (!a) as int % m,
    }
}

impl Bitvector {
    pub open spec fn wf(&self) -> bool {
        valid_width(self.width) && self.value < modulus(self.width)
    }

    /// The zero of the given width.
    pub fn zero(width: u64) -> (r: Bitvector)
        requires
            valid_width(width),
        ensures
            r.wf(),
            r == (Bitvector { value: 0, width }),
    {
        Bitvector { value: 0, width }
    }

    /// The two's complement representation of `v`, cut to `width` bytes.
    pub fn from_i64(v: i64, width: u64) -> (r: Bitvector)
        requires
            valid_width(width),
        ensures
            r.wf(),
            r.width == width,
            r.value == v as int % modulus(width),
    {
        let m = modulus_of(width);
        let value: u128 = if v >= 0 {
            (v as u128) % m
        } else {
            let a: u128 = (0 - (v as i128)) as u128;
            proof {
                let (ai, mi) = (a as int, m as int);
                let q = ai / mi;
                let r0 = ai % mi;
                vstd::arithmetic::div_mod::lemma_fundamental_div_mod(ai, mi);
                assert(v as int == mi * (0 - q - 1) + (mi - r0));
                vstd::arithmetic::div_mod::lemma_mod_multiples_vanish(0 - q - 1, mi - r0, mi);
            }
            (m - a % m) % m
        };
        Bitvector { value: value as u64, width }
    }

    /// Applies a binary operation; both operands must have the same width.
    pub fn bin_op(&self, op: BinOpType, rhs: &Bitvector) -> (r: Result<Bitvector, Error>)
        requires
            self.wf(),
            rhs.wf(),
        ensures
            r is Err <==> self.width != rhs.width,
            r is Err ==> r->Err_0 == Error::MalformedExpression,
            r is Ok ==> r->Ok_0.wf() && r->Ok_0.width == self.width
                && r->Ok_0.value == bin_op_value(op, self.value, rhs.value, self.width),
    {
        if self.width != rhs.width {
            return Err(Error::MalformedExpression);
        }
        let m = modulus_of(self.width);
        let a = self.value as u128;
        let b = rhs.value as u128;
        let v: u128 = match op {
            BinOpType::IntAdd => (a + b) % m,
            BinOpType::IntSub => {
                proof {
                    let (ai, bi, mi) = (a as int, b as int, m as int);
                    assert((ai - bi + mi) % mi == (ai - bi) % mi) by {
                        vstd::arithmetic::div_mod::lemma_mod_add_multiples_vanish(
                            a - b,
                            m as int,
                        );
                    }
                }
                (a + m - b) % m
            },
            BinOpType::IntMult => {
                assert(a * b <= 0xffff_ffff_ffff_ffffu128 * 0xffff_ffff_ffff_ffffu128) by (nonlinear_arith)
                    requires
                        a <= 0xffff_ffff_ffff_ffffu128,
                        b <= 0xffff_ffff_ffff_ffffu128,
                ;
                (a * b) % m
            },
            BinOpType::IntAnd => ((self.value & rhs.value) as u128) % m,
            BinOpType::IntOr => ((self.value | rhs.value) as u128) % m,
            BinOpType::IntXor => ((self.value ^ rhs.value) as u128) % m,
        };
        Ok(Bitvector { value: v as u64, width: self.width })
    }

    /// Applies a unary operation.
    pub fn un_op(&self, op: UnOpType) -> (r: Bitvector)
        requires
            self.wf(),
        ensures
            r.wf(),
            r.width == self.width,
            r.value == un_op_value(op, self.value, self.width),
    {
        let m = modulus_of(self.width);
        let a = self.value as u128;
        let v: u128 = match op {
            UnOpType::Int2Comp => {
                proof {
                    let (ai, mi) = (a as int, m as int);
                    assert((mi - ai) % mi == (0 - ai) % mi) by {
                        vstd::arithmetic::div_mod::lemma_mod_add_multiples_vanish(
                            0 - a,
                            m as int,
                        );
                    }
                }
                (m - a) % m
            },
            UnOpType::IntNegate => ((!self.value) as u128) % m,
        };
        Bitvector { value: v as u64, width: self.width }
    }
}


/// An expression of the intermediate representation.
#[derive(Debug, PartialEq)]
pub enum Expression {
    /// The value of a variable.
    Var(Variable),
    /// A constant.
    Const(Bitvector),
    /// A binary operation.
    BinOp { op: BinOpType, lhs: Box<Expression>, rhs: Box<Expression> },
    /// A unary operation.
    UnOp { op: UnOpType, arg: Box<Expression> },
    /// The bytes `low_byte .. low_byte + size` of the value of `inner`.
    Subpiece { low_byte: u64, size: u64, inner: Box<Expression> },
    /// A value that the lifter could not describe.
    Unknown { description: String, size: u64 },
}

/// The variables that an expression reads, from left to right.
pub open spec fn input_vars_of(e: Expression) -> Seq<(Seq<char>, u64, bool)>
    decreases e,
{
    match e {
        Expression::Var(v) => seq![v@],
        Expression::Const(_) => seq![],
        Expression::BinOp { lhs, rhs, .. } => input_vars_of(*lhs) + input_vars_of(*rhs),
        Expression::UnOp { arg, .. } => input_vars_of(*arg),
        Expression::Subpiece { inner, .. } => input_vars_of(*inner),
        Expression::Unknown { .. } => seq![],
    }
}

/// The views of a sequence of variables.
pub open spec fn views_of(vs: Seq<Variable>) -> Seq<(Seq<char>, u64, bool)> {
    vs.map_values(|v: Variable| v@)
}


/// Two expressions have the same shape and the same leaves.
pub open spec fn same_expr(a: Expression, b: Expression) -> bool
    decreases a,
{
    match (a, b) {
        (Expression::Var(x), Expression::Var(y)) => x@ == y@,
        (Expression::Const(x), Expression::Const(y)) => x == y,
        (Expression::BinOp { op: o1, lhs: l1, rhs: r1 }, Expression::BinOp { op: o2, lhs: l2, rhs: r2 }) =>
            o1 == o2 && same_expr(*l1, *l2) && same_expr(*r1, *r2),
        (Expression::UnOp { op: o1, arg: a1 }, Expression::UnOp { op: o2, arg: a2 }) =>
            o1 == o2 && same_expr(*a1, *a2),
        (Expression::Subpiece { low_byte: b1, size: s1, inner: i1 }, Expression::Subpiece { low_byte: b2, size: s2, inner: i2 }) =>
            b1 == b2 && s1 == s2 && same_expr(*i1, *i2),
        (Expression::Unknown { description: d1, size: s1 }, Expression::Unknown { description: d2, size: s2 }) =>
            d1@ == d2@ && s1 == s2,
        _ => false,
    }
}

pub proof fn lemma_views_push(s: Seq<Variable>, x: Variable)
    ensures
        views_of(s.push(x)) == views_of(s).push(x@),
{
    assert(views_of(s.push(x)) =~= views_of(s).push(x@));
}

impl Expression {
    /// A copy of the expression.
    pub fn duplicate(&self) -> (r: Expression)
        ensures
            same_expr(*self, r),
        decreases self,
    {
        match self {
            Expression::Var(v) => Expression::Var(v.clone()),
            Expression::Const(c) => Expression::Const(*c),
            Expression::BinOp { op, lhs, rhs } => Expression::BinOp {
                op: *op,
                lhs: Box::new(lhs.duplicate()),
                rhs: Box::new(rhs.duplicate()),
            },
            Expression::UnOp { op, arg } => Expression::UnOp { op: *op, arg: Box::new(arg.duplicate()) },
            Expression::Subpiece { low_byte, size, inner } => Expression::Subpiece {
                low_byte: *low_byte,
                size: *size,
                inner: Box::new(inner.duplicate()),
            },
            Expression::Unknown { description, size } => Expression::Unknown {
                description: description.clone(),
                size: *size,
            },
        }
    }

    /// Appends to `out` the variables that the expression reads, from left to right.
    pub fn collect_input_vars(&self, out: &mut Vec<Variable>)
        ensures
            views_of(final(out)@) == views_of(old(out)@) + input_vars_of(*self),
        decreases self,
    {
        match self {
            Expression::Var(v) => {
                out.push(v.clone());
                assert(views_of(out@) =~= views_of(old(out)@) + input_vars_of(*self));
            },
            Expression::Const(_) => {
                assert(views_of(out@) =~= views_of(old(out)@) + input_vars_of(*self));
            },
            Expression::BinOp { lhs, rhs, .. } => {
                lhs.collect_input_vars(out);
                rhs.collect_input_vars(out);
                assert(views_of(out@) =~= views_of(old(out)@) + input_vars_of(*self));
            },
            Expression::UnOp { arg, .. } => {
                arg.collect_input_vars(out);
            },
            Expression::Subpiece { inner, .. } => {
                inner.collect_input_vars(out);
            },
            Expression::Unknown { .. } => {
                assert(views_of(out@) =~= views_of(old(out)@) + input_vars_of(*self));
            },
        }
    }

    /// The variables that the expression reads, from left to right.
    pub fn input_vars(&self) -> (r: Vec<Variable>)
        ensures
            views_of(r@) == input_vars_of(*self),
    {
        let mut out: Vec<Variable> = Vec::new();
        self.collect_input_vars(&mut out);
        assert(views_of(Seq::<Variable>::empty()) =~= Seq::empty());
        assert(input_vars_of(*self) =~= Seq::empty() + input_vars_of(*self));
        out
    }

    /// `self + value`, with the constant as wide as `width`.
    pub fn plus_const(self, value: i64, width: u64) -> (r: Expression)
        requires
            valid_width(width),
        ensures
            r == (Expression::BinOp {
                op: BinOpType::IntAdd,
                lhs: Box::new(self),
                rhs: Box::new(Expression::Const(Bitvector { value: (value as int % modulus(width)) as u64, width })),
            }),
    {
        let c = Bitvector::from_i64(value, width);
        Expression::BinOp {
            op: BinOpType::IntAdd,
            lhs: Box::new(self),
            rhs: Box::new(Expression::Const(c)),
        }
    }
}

} // verus!
