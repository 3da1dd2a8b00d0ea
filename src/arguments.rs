//! Resolution of the variadic parameters of calls to functions such as
//! `printf`, whose number and types are given by a format string.
use vstd::prelude::*;
use crate::ir::{modulus, same_expr, valid_width, BinOpType, Bitvector, Expression, Error, Variable};
use crate::sub::{cconv_index, same_arg, stack_offset_of, Arg, CallingConvention, Datatype, DatatypeProperties, ExternSymbol, Project};
use crate::data::{DataModel, Interval, Data};
use crate::memory_image::{c_string_at, RuntimeMemoryImage};
use crate::state::{register_value, signed_value, State, StateModel};
use vstd::utf8::{decode_utf8, valid_utf8};

verus! {

/// Characters that may stand between `%` and the conversion character:
/// flags, field width, precision and length modifiers.
pub open spec fn is_modifier(c: char) -> bool {
    c == '-' || c == '+' || c == ' ' || c == '#' || c == '.' || ('0' <= c && c <= '9') || c
        == 'h' || c == 'l' || c == 'L' || c == 'q' || c == 'j' || c == 'z' || c == 't'
}

/// The class of the value that a conversion character stands for.
pub open spec fn conversion_class(c: char) -> Option<Datatype> {
    if c == 'c' {
        Some(Datatype::Char)
    } else if c == 'd' || c == 'i' || c == 'u' || c == 'o' || c == 'x' || c == 'X' {
        Some(Datatype::Integer)
    } else if c == 's' || c == 'p' {
        Some(Datatype::Pointer)
    } else if c == 'f' || c == 'F' || c == 'e' || c == 'E' || c == 'g' || c == 'G' || c == 'a'
        || c == 'A' {
        Some(Datatype::Double)
    } else {
        None
    }
}

/// The classes of the conversions in `s` from position `i` on, left to right;
/// `in_spec` tells that a `%` opened a conversion that has not ended yet.
/// `None` where a conversion ends in a character that is not understood.
/// `%%` is no conversion, and a conversion left open at the end is ignored.
pub open spec fn conversions_from(s: Seq<char>, i: int, in_spec: bool) -> Option<Seq<Datatype>>
    decreases s.len() - i,
{
    if i < 0 || i >= s.len() {
        Some(seq![])
    } else if !in_spec {
        if s[i] != '%' {
            conversions_from(s, i + 1, false)
        } else if i + 1 < s.len() && s[i + 1] == '%' {
            conversions_from(s, i + 2, false)
        } else {
            conversions_from(s, i + 1, true)
        }
    } else if is_modifier(s[i]) {
        conversions_from(s, i + 1, true)
    } else {
        match conversion_class(s[i]) {
            None => None,
            Some(t) => match conversions_from(s, i + 1, false) {
                Some(rest) => Some(seq![t] + rest),
                None => None,
            },
        }
    }
}

/// The classes of the conversions of a whole format string.
pub open spec fn conversions(s: Seq<char>) -> Option<Seq<Datatype>> {
    conversions_from(s, 0, false)
}

/// The size in bytes of a value of class `t`.
pub open spec fn size_of_class(t: Datatype, p: DatatypeProperties) -> u64 {
    match t {
        Datatype::Char => p.integer_size,
        Datatype::Integer => p.integer_size,
        Datatype::Pointer => p.pointer_size,
        Datatype::Double => p.double_size,
    }
}

pub open spec fn with_sizes(ts: Seq<Datatype>, p: DatatypeProperties) -> Seq<(Datatype, u64)> {
    ts.map_values(|t: Datatype| (t, size_of_class(t, p)))
}

pub open spec fn prepend(acc: Seq<Datatype>, rest: Option<Seq<Datatype>>) -> Option<Seq<Datatype>> {
    match rest {
        Some(r) => Some(acc + r),
        None => None,
    }
}

fn class_of_conversion(c: char) -> (r: Option<Datatype>)
    ensures
        r == conversion_class(c),
{
    if c == 'c' {
        Some(Datatype::Char)
    } else if c == 'd' || c == 'i' || c == 'u' || c == 'o' || c == 'x' || c == 'X' {
        Some(Datatype::Integer)
    } else if c == 's' || c == 'p' {
        Some(Datatype::Pointer)
    } else if c == 'f' || c == 'F' || c == 'e' || c == 'E' || c == 'g' || c == 'G' || c == 'a'
        || c == 'A' {
        Some(Datatype::Double)
    } else {
        None
    }
}

fn size_for(t: Datatype, p: &DatatypeProperties) -> (r: u64)
    ensures
        r == size_of_class(t, *p),
{
    match t {
        Datatype::Char => p.integer_size,
        Datatype::Integer => p.integer_size,
        Datatype::Pointer => p.pointer_size,
        Datatype::Double => p.double_size,
    }
}

/// The data type and size of each conversion of a format string, left to right.
/// A conversion that ends in a character that is not understood is an error.
pub fn parse_format_string_parameters(
    format_string: &str,
    datatype_properties: &DatatypeProperties,
) -> (r: Result<Vec<(Datatype, u64)>, Error>)
    ensures
        match conversions(format_string@) {
            Some(ts) => r is Ok && r->Ok_0@ == with_sizes(ts, *datatype_properties),
            None => r == Err::<Vec<(Datatype, u64)>, Error>(Error::UnknownConversion),
        },
{
    let ghost s = format_string@;
    let n = format_string.unicode_len();
    let mut result: Vec<(Datatype, u64)> = Vec::new();
    let ghost acc: Seq<Datatype> = seq![];
    let mut i: usize = 0;
    let mut in_spec = false;
    while i < n
        invariant
            n == s.len(),
            s == format_string@,
            i <= n,
            result@ == with_sizes(acc, *datatype_properties),
            conversions(s) == prepend(acc, conversions_from(s, i as int, in_spec)),
        decreases n - i,
    {
        let c = format_string.get_char(i);
        if !in_spec {
            if c != '%' {
                i = i + 1;
            } else if i + 1 < n && format_string.get_char(i + 1) == '%' {
                i = i + 2;
            } else {
                i = i + 1;
                in_spec = true;
            }
        } else if c == '-' || c == '+' || c == ' ' || c == '#' || c == '.' || ('0' <= c && c
            <= '9') || c == 'h' || c == 'l' || c == 'L' || c == 'q' || c == 'j' || c == 'z' || c
            == 't' {
            i = i + 1;
        } else {
            match class_of_conversion(c) {
                None => {
                    return Err(Error::UnknownConversion);
                },
                Some(t) => {
                    let ghost old_acc = acc;
                    result.push((t, size_for(t, datatype_properties)));
                    proof {
                        acc = acc.push(t);
                        assert(old_acc + (seq![t] + conversions_from(s, i + 1, false)->0)
                            =~= acc + conversions_from(s, i + 1, false)->0);
                        assert(result@ =~= with_sizes(acc, *datatype_properties));
                    }
                    i = i + 1;
                    in_spec = false;
                },
            }
        }
    }
    assert(acc + seq![] =~= acc);
    Ok(result)
}


/// `arg` is a stack argument at `stack register + value` (a constant as wide
/// as the register), of `size` bytes and of class `t`.
pub open spec fn is_stack_slot(
    arg: Arg,
    sp: (Seq<char>, u64, bool),
    value: int,
    size: u64,
    t: Datatype,
) -> bool {
    match arg {
        Arg::Stack { address, size: s, data_type } => s == size && data_type == Some(t)
            && match address {
            Expression::BinOp { op, lhs, rhs } => op == BinOpType::IntAdd && match *lhs {
                Expression::Var(v) => v@ == sp,
                _ => false,
            } && *rhs == Expression::Const(Bitvector { value: value as u64, width: sp.1 }),
            _ => false,
        },
        _ => false,
    }
}

/// `arg` is the plain register `reg` holding a value of class `t`.
pub open spec fn is_register_arg(arg: Arg, reg: (Seq<char>, u64, bool), t: Datatype) -> bool {
    match arg {
        Arg::Register { expr: Expression::Var(v), data_type } => v@ == reg && data_type == Some(t),
        _ => false,
    }
}

/// Builds the stack argument at `stack register + offset`.
fn stack_slot(size: u64, offset: Bitvector, data_type: Datatype, stack_register: &Variable) -> (r: Arg)
    requires
        offset.width == stack_register.size,
    ensures
        is_stack_slot(r, stack_register@, offset.value as int, size, data_type),
{
    Arg::Stack {
        address: Expression::BinOp {
            op: BinOpType::IntAdd,
            lhs: Box::new(Expression::Var(stack_register.clone())),
            rhs: Box::new(Expression::Const(offset)),
        },
        size,
        data_type: Some(data_type),
    }
}

/// The stack argument at `stack register + stack_offset`, of `size` bytes.
pub fn create_stack_arg(size: u64, stack_offset: i64, data_type: Datatype, stack_register: &Variable) -> (r: Arg)
    requires
        valid_width(stack_register.size),
    ensures
        is_stack_slot(r, stack_register@, stack_offset as int % modulus(stack_register.size), size, data_type),
{
    let offset = Bitvector::from_i64(stack_offset, stack_register.size);
    stack_slot(size, offset, data_type, stack_register)
}

/// How many integer registers, float registers and stack bytes the values of
/// `params` take, placed in order; `n_int` and `n_float` registers are free.
pub open spec fn placement_after(params: Seq<(Datatype, u64)>, n_int: int, n_float: int) -> (int, int, int)
    decreases params.len(),
{
    if params.len() == 0 {
        (0, 0, 0)
    } else {
        let (i, f, st) = placement_after(params.drop_last(), n_int, n_float);
        let (t, size) = params.last();
        if t != Datatype::Double {
            if i < n_int {
                (i + 1, f, st)
            } else {
                (i, f, st + size)
            }
        } else {
            if f < n_float {
                (i, f + 1, st)
            } else {
                (i, f, st + size)
            }
        }
    }
}

/// How many of `params` are doubles.
pub open spec fn count_doubles(params: Seq<(Datatype, u64)>) -> int
    decreases params.len(),
{
    if params.len() == 0 {
        0
    } else {
        count_doubles(params.drop_last()) + if params.last().0 == Datatype::Double {
            1int
        } else {
            0int
        }
    }
}

pub open spec fn min_int(a: int, b: int) -> int {
    if a <= b {
        a
    } else {
        b
    }
}

/// Integer and float registers are handed out apart: after any sequence of
/// values, the integer registers taken depend only on how many values are not
/// doubles, and the float registers only on how many are doubles. So a double
/// never takes an integer register, and the `k`-th value that is no double
/// takes the `k`-th free integer register while one is left.
pub proof fn lemma_register_files_apart(params: Seq<(Datatype, u64)>, n_int: int, n_float: int)
    requires
        n_int >= 0,
        n_float >= 0,
    ensures
        placement_after(params, n_int, n_float).0 == min_int(n_int, params.len() - count_doubles(params)),
        placement_after(params, n_int, n_float).1 == min_int(n_float, count_doubles(params)),
    decreases params.len(),
{
    if params.len() > 0 {
        lemma_register_files_apart(params.drop_last(), n_int, n_float);
    }
}

/// The integer registers left for variadic values once the fixed parameters
/// up to the format string have taken theirs.
pub open spec fn free_integer_registers(cconv: CallingConvention, format_string_index: int) -> int {
    if cconv.integer_parameter_register.len() > format_string_index + 1 {
        cconv.integer_parameter_register.len() - (format_string_index + 1)
    } else {
        0
    }
}

/// Where the stack slots of variadic values begin.
pub open spec fn first_stack_offset(cpu_arch: Seq<char>, stack_register: (Seq<char>, u64, bool)) -> int {
    if cpu_arch == "x86"@ || cpu_arch == "x86_32"@ || cpu_arch == "x86_64"@ {
        stack_register.1 as int
    } else {
        0
    }
}

/// `arg` is where the `k`-th variadic value goes.
pub open spec fn placed_at(
    arg: Arg,
    params: Seq<(Datatype, u64)>,
    k: int,
    cconv: CallingConvention,
    format_string_index: int,
    stack_register: (Seq<char>, u64, bool),
    start: int,
) -> bool {
    let n_int = free_integer_registers(cconv, format_string_index);
    let n_float = cconv.float_parameter_register.len() as int;
    let (i, f, st) = placement_after(params.take(k), n_int, n_float);
    let (t, size) = params[k];
    if t != Datatype::Double && i < n_int {
        is_register_arg(arg, cconv.integer_parameter_register@[format_string_index + 1 + i]@, t)
    } else if t == Datatype::Double && f < n_float {
        match arg {
            Arg::Register { expr, data_type } => same_expr(cconv.float_parameter_register@[f], expr)
                && data_type == Some(t),
            _ => false,
        }
    } else {
        is_stack_slot(arg, stack_register, (start + st) % modulus(stack_register.1), size, t)
    }
}

fn is_x86(cpu_arch: &str) -> (r: bool)
    ensures
        r == (cpu_arch@ == "x86"@ || cpu_arch@ == "x86_32"@ || cpu_arch@ == "x86_64"@),
{
    let a = String::from_str(cpu_arch);
    a == String::from_str("x86") || a == String::from_str("x86_32") || a == String::from_str(
        "x86_64",
    )
}

/// Assigns a location to each variadic value, in order: integer-class values
/// take the free integer parameter registers, double values the float ones,
/// and a value whose registers are used up goes to the next stack slot. The
/// stack slots begin at the architecture's first free slot.
pub fn calculate_parameter_locations(
    variadic_parameters: Vec<(Datatype, u64)>,
    calling_convention: &CallingConvention,
    format_string_index: usize,
    stack_register: &Variable,
    cpu_arch: &str,
) -> (r: Vec<Arg>)
    requires
        valid_width(stack_register.size),
    ensures
        r.len() == variadic_parameters.len(),
        forall|k: int|
            0 <= k < r.len() ==> placed_at(
                #[trigger] r@[k],
                variadic_parameters@,
                k,
                *calling_convention,
                format_string_index as int,
                stack_register@,
                first_stack_offset(cpu_arch@, stack_register@),
            ),
{
    let start = first_free_stack_offset(cpu_arch, stack_register);
    place_variadic_parameters(variadic_parameters, calling_convention, format_string_index, stack_register, start)
}

fn first_free_stack_offset(cpu_arch: &str, stack_register: &Variable) -> (r: i64)
    requires
        valid_width(stack_register.size),
    ensures
        r == first_stack_offset(cpu_arch@, stack_register@),
{
    if is_x86(cpu_arch) {
        stack_register.size as i64
    } else {
        0
    }
}

/// Places the variadic values as `calculate_parameter_locations` does, with
/// the stack slots beginning at `start`.
fn place_variadic_parameters(
    variadic_parameters: Vec<(Datatype, u64)>,
    calling_convention: &CallingConvention,
    format_string_index: usize,
    stack_register: &Variable,
    start_offset: i64,
) -> (r: Vec<Arg>)
    requires
        valid_width(stack_register.size),
    ensures
        r.len() == variadic_parameters.len(),
        forall|k: int|
            0 <= k < r.len() ==> placed_at(
                #[trigger] r@[k],
                variadic_parameters@,
                k,
                *calling_convention,
                format_string_index as int,
                stack_register@,
                start_offset as int,
            ),
{
    let ghost params = variadic_parameters@;
    let ghost start = start_offset as int;
    let ghost n_float = calling_convention.float_parameter_register.len() as int;
    let ghost m = modulus(stack_register.size);
    let n_int_regs = calling_convention.integer_parameter_register.len();
    let first_free: usize = if format_string_index < n_int_regs {
        format_string_index + 1
    } else {
        n_int_regs
    };
    let mut int_used: usize = 0;
    let mut float_used: usize = 0;
    let mw = crate::ir::modulus_of(stack_register.size);
    let mut offset: u128 = Bitvector::from_i64(start_offset, stack_register.size).value as u128;
    let mut var_args: Vec<Arg> = Vec::new();
    let mut k: usize = 0;
    while k < variadic_parameters.len()
        invariant
            params == variadic_parameters@,
            start == start_offset as int,
            n_float == calling_convention.float_parameter_register.len(),
            m == modulus(stack_register.size),
            mw == m,
            valid_width(stack_register.size),
            n_int_regs == calling_convention.integer_parameter_register.len(),
            first_free <= n_int_regs,
            n_int_regs - first_free == free_integer_registers(*calling_convention, format_string_index as int),
            first_free < n_int_regs ==> first_free == format_string_index + 1,
            k <= params.len(),
            var_args.len() == k,
            placement_after(params.take(k as int), n_int_regs - first_free, n_float) == (
                int_used as int,
                float_used as int,
                placement_after(params.take(k as int), n_int_regs - first_free, n_float).2,
            ),
            offset == (start + placement_after(params.take(k as int), n_int_regs - first_free, n_float).2) % m,
            int_used <= n_int_regs - first_free,
            float_used <= n_float,
            forall|j: int|
                0 <= j < k ==> placed_at(
                    #[trigger] var_args@[j],
                    params,
                    j,
                    *calling_convention,
                    format_string_index as int,
                    stack_register@,
                    start,
                ),
        decreases params.len() - k,
    {
        let (data_type, size) = variadic_parameters[k];
        let ghost st = placement_after(params.take(k as int), n_int_regs - first_free, n_float);
        proof {
            assert(params.take(k + 1).drop_last() =~= params.take(k as int));
            assert(params.take(k + 1).last() == params[k as int]);
        }
        let arg = if data_type != Datatype::Double && int_used < n_int_regs - first_free {
            let reg = calling_convention.integer_parameter_register[first_free + int_used].clone();
            int_used = int_used + 1;
            Arg::Register { expr: Expression::Var(reg), data_type: Some(data_type) }
        } else if data_type == Datatype::Double && float_used < calling_convention.float_parameter_register.len() {
            let expr = calling_convention.float_parameter_register[float_used].duplicate();
            float_used = float_used + 1;
            Arg::Register { expr, data_type: Some(data_type) }
        } else {
            let arg = stack_slot(
                size,
                Bitvector { value: offset as u64, width: stack_register.size },
                data_type,
                stack_register,
            );
            proof {
                let s0 = start + st.2;
                vstd::arithmetic::div_mod::lemma_add_mod_noop(s0, size as int, m);
                vstd::arithmetic::div_mod::lemma_mod_twice(s0, m);
                vstd::arithmetic::div_mod::lemma_small_mod(size as nat % m as nat, m as nat);
                vstd::arithmetic::div_mod::lemma_add_mod_noop(s0 % m, size as int, m);
            }
            offset = (offset + size as u128) % mw;
            arg
        };
        var_args.push(arg);
        k = k + 1;
    }
    proof {
        assert(params.take(k as int) =~= params);
    }
    var_args
}



/// Where a declared stack parameter ends, relative to the stack register.
pub open spec fn stack_param_end(a: Arg, sp: (Seq<char>, u64, bool)) -> Option<int> {
    match a {
        Arg::Stack { address, size, .. } => match stack_offset_of(address, sp) {
            Some(b) => Some(signed_value(b) + size),
            None => None,
        },
        _ => None,
    }
}

/// Where the stack slots of variadic values begin: right after the declared
/// stack parameter that ends last, or at `first_free` where none ends later.
pub open spec fn declared_stack_end(params: Seq<Arg>, sp: (Seq<char>, u64, bool), first_free: int) -> int
    decreases params.len(),
{
    if params.len() == 0 {
        first_free
    } else {
        let rest = declared_stack_end(params.drop_last(), sp, first_free);
        match stack_param_end(params.last(), sp) {
            Some(e) => if e > rest && e <= i64::MAX {
                e
            } else {
                rest
            },
            None => rest,
        }
    }
}

/// The first stack offset that no declared stack parameter of the symbol takes.
fn variadic_stack_start(extern_symbol: &ExternSymbol, stack_register: &Variable, cpu_arch: &str) -> (r: i64)
    requires
        valid_width(stack_register.size),
    ensures
        r == declared_stack_end(
            extern_symbol.parameters@,
            stack_register@,
            first_stack_offset(cpu_arch@, stack_register@),
        ),
{
    let ghost params = extern_symbol.parameters@;
    let mut end = first_free_stack_offset(cpu_arch, stack_register);
    let mut i: usize = 0;
    while i < extern_symbol.parameters.len()
        invariant
            params == extern_symbol.parameters@,
            i <= params.len(),
            end == declared_stack_end(params.take(i as int), stack_register@, first_stack_offset(cpu_arch@, stack_register@)),
        decreases params.len() - i,
    {
        proof {
            assert(params.take(i + 1).drop_last() =~= params.take(i as int));
            assert(params.take(i + 1).last() == params[i as int]);
        }
        let param = &extern_symbol.parameters[i];
        match param {
            Arg::Stack { size, .. } => {
                match param.eval_stack_offset(stack_register) {
                    Ok(b) => {
                        let m = crate::ir::modulus_of(b.width);
                        let signed: i128 = if (b.value as u128) < m / 2 {
                            b.value as i128
                        } else {
                            b.value as i128 - m as i128
                        };
                        let e: i128 = signed + *size as i128;
                        if e > end as i128 && e <= i64::MAX as i128 {
                            end = e as i64;
                        }
                    },
                    Err(_) => {},
                }
            },
            Arg::Register { .. } => {},
        }
        i = i + 1;
    }
    proof {
        assert(params.take(i as int) =~= params);
    }
    end
}

/// Relies on `String::from_utf8`: it accepts exactly the byte sequences that
/// are valid UTF-8, and decodes them.
#[verifier::external_body]
fn decode_text(bytes: Vec<u8>) -> (r: Option<String>)
    ensures
        r is Some <==> valid_utf8(bytes@),
        r is Some ==> r->0@ == decode_utf8(bytes@),
{
    String::from_utf8(bytes).ok()
}

/// The text of the NUL-terminated string at the single address `address`.
pub open spec fn format_string_at(img: RuntimeMemoryImage, address: Interval) -> Result<Seq<char>, Error> {
    if address.start != address.end {
        Err(Error::UnresolvedPointer)
    } else if address.start < 0 {
        Err(Error::MemoryReadOutOfBounds)
    } else {
        match c_string_at(img, address.start as int) {
            None => Err(Error::MemoryReadOutOfBounds),
            Some(b) => if valid_utf8(b) {
                Ok(decode_utf8(b))
            } else {
                Err(Error::InvalidText)
            },
        }
    }
}

/// Reads the format string at `address`, which must hold a single value.
pub fn parse_format_string_destination_and_return_content(
    address: Interval,
    runtime_memory_image: &RuntimeMemoryImage,
) -> (r: Result<String, Error>)
    ensures
        match format_string_at(*runtime_memory_image, address) {
            Ok(t) => r is Ok && r->Ok_0@ == t,
            Err(e) => r == Err::<String, Error>(e),
        },
{
    if address.start != address.end {
        return Err(Error::UnresolvedPointer);
    }
    if address.start < 0 {
        return Err(Error::MemoryReadOutOfBounds);
    }
    match runtime_memory_image.read_string_until_null_terminator(address.start as u64) {
        Ok(bytes) => match decode_text(bytes) {
            Some(text) => Ok(text),
            None => Err(Error::InvalidText),
        },
        Err(e) => Err(e),
    }
}

/// The format string that the parameter at `format_string_index` points to.
pub open spec fn input_format_string(
    s: StateModel,
    symbol: ExternSymbol,
    format_string_index: int,
    img: RuntimeMemoryImage,
) -> Result<Seq<char>, Error> {
    if 0 <= format_string_index < symbol.parameters.len() {
        match symbol.parameters@[format_string_index] {
            Arg::Register { expr: Expression::Var(v), .. } => match register_value(s, v@) {
                DataModel::Value(_, iv) => format_string_at(img, iv),
                _ => Err(Error::UnresolvedPointer),
            },
            _ => Err(Error::ShapeMismatch),
        }
    } else {
        Err(Error::ShapeMismatch)
    }
}

/// Reads the format string of a call: the parameter at
/// `format_string_index` must be a register holding a single address.
pub fn get_input_format_string(
    pi_state: &State,
    extern_symbol: &ExternSymbol,
    format_string_index: usize,
    runtime_memory_image: &RuntimeMemoryImage,
) -> (r: Result<String, Error>)
    requires
        pi_state.wf(),
    ensures
        match input_format_string(pi_state@, *extern_symbol, format_string_index as int, *runtime_memory_image) {
            Ok(t) => r is Ok && r->Ok_0@ == t,
            Err(e) => r == Err::<String, Error>(e),
        },
{
    if format_string_index >= extern_symbol.parameters.len() {
        return Err(Error::ShapeMismatch);
    }
    match &extern_symbol.parameters[format_string_index] {
        Arg::Register { expr: Expression::Var(var), .. } => match pi_state.get_register(var) {
            Data::Value(_, iv) => parse_format_string_destination_and_return_content(iv, runtime_memory_image),
            _ => Err(Error::UnresolvedPointer),
        },
        _ => Err(Error::ShapeMismatch),
    }
}

/// The format-string index that `table` gives for `name`: its first entry of that name.
pub open spec fn format_index_for(table: Seq<(String, usize)>, name: Seq<char>) -> Option<usize>
    decreases table.len(),
{
    if table.len() == 0 {
        None
    } else {
        match format_index_for(table.drop_last(), name) {
            Some(i) => Some(i),
            None => if table.last().0@ == name {
                Some(table.last().1)
            } else {
                None
            },
        }
    }
}

fn find_format_index(table: &Vec<(String, usize)>, name: &String) -> (r: Option<usize>)
    ensures
        r == format_index_for(table@, name@),
{
    let ghost t = table@;
    let mut i: usize = 0;
    while i < table.len()
        invariant
            t == table@,
            i <= t.len(),
            format_index_for(t.take(i as int), name@) is None,
        decreases t.len() - i,
    {
        proof {
            assert(t.take(i + 1).drop_last() =~= t.take(i as int));
        }
        if table[i].0 == *name {
            proof {
                assert(format_index_for(t.take(i + 1), name@) == Some(t[i as int].1));
                lemma_format_index_keeps(t, name@, i as int + 1);
            }
            return Some(table[i].1);
        }
        i = i + 1;
    }
    proof {
        assert(t.take(i as int) =~= t);
    }
    None
}

proof fn lemma_format_index_keeps(t: Seq<(String, usize)>, name: Seq<char>, j: int)
    requires
        0 <= j <= t.len(),
        format_index_for(t.take(j), name) is Some,
    ensures
        format_index_for(t, name) == format_index_for(t.take(j), name),
    decreases t.len() - j,
{
    if j < t.len() {
        assert(t.take(j + 1).drop_last() =~= t.take(j));
        lemma_format_index_keeps(t, name, j + 1);
    } else {
        assert(t.take(j) =~= t);
    }
}

/// The locations of the variadic parameters of a call to `extern_symbol`:
/// none where `format_string_index_map` names no format string for the
/// symbol; else those of the conversions of its format string, placed by
/// its calling convention. Their stack slots begin right after the declared
/// stack parameter that ends last.
pub fn get_variable_parameters(
    project: &Project,
    pi_state: &State,
    extern_symbol: &ExternSymbol,
    format_string_index_map: &Vec<(String, usize)>,
    runtime_memory_image: &RuntimeMemoryImage,
) -> (r: Result<Vec<Arg>, Error>)
    requires
        pi_state.wf(),
        valid_width(project.stack_pointer_register.size),
    ensures
        variable_parameters_are(
            *project,
            pi_state@,
            *extern_symbol,
            format_string_index_map@,
            *runtime_memory_image,
            match r {
                Ok(v) => Ok(v@),
                Err(e) => Err(e),
            },
        ),
{
    let format_string_index = match find_format_index(format_string_index_map, &extern_symbol.name) {
        Some(i) => i,
        None => return Ok(Vec::new()),
    };
    let format_string = match get_input_format_string(
        pi_state,
        extern_symbol,
        format_string_index,
        runtime_memory_image,
    ) {
        Ok(t) => t,
        Err(e) => return Err(e),
    };
    let parameters = match parse_format_string_parameters(
        format_string.as_str(),
        &project.datatype_properties,
    ) {
        Ok(p) => p,
        Err(e) => return Err(e),
    };
    let cconv = match extern_symbol.get_calling_convention(project) {
        Ok(c) => c,
        Err(e) => return Err(e),
    };
    let start = variadic_stack_start(
        extern_symbol,
        &project.stack_pointer_register,
        project.cpu_architecture.as_str(),
    );
    Ok(
        place_variadic_parameters(
            parameters,
            cconv,
            format_string_index,
            &project.stack_pointer_register,
            start,
        ),
    )
}


/// `r` is what resolving the variadic parameters of a call gives: nothing
/// where the table names no format string for the symbol; else an error of
/// reading or parsing the format string or of finding the calling
/// convention, or the locations of the conversions of the format string,
/// with stack slots from the end of the declared stack parameters on.
pub open spec fn variable_parameters_are(
    project: Project,
    s: StateModel,
    symbol: ExternSymbol,
    table: Seq<(String, usize)>,
    img: RuntimeMemoryImage,
    r: Result<Seq<Arg>, Error>,
) -> bool {
    match format_index_for(table, symbol.name@) {
        None => r is Ok && r->Ok_0.len() == 0,
        Some(fi) => match input_format_string(s, symbol, fi as int, img) {
            Err(e) => r == Err::<Seq<Arg>, Error>(e),
            Ok(text) => match conversions(text) {
                None => r == Err::<Seq<Arg>, Error>(Error::UnknownConversion),
                Some(ts) => match cconv_index(project.calling_conventions@, symbol.cconv_name()) {
                    None => r == Err::<Seq<Arg>, Error>(Error::MissingCallingConvention),
                    Some(ci) => r is Ok && r->Ok_0.len() == ts.len() && forall|k: int|
                        0 <= k < ts.len() ==> placed_at(
                            #[trigger] r->Ok_0[k],
                            with_sizes(ts, project.datatype_properties),
                            k,
                            project.calling_conventions@[ci],
                            fi as int,
                            project.stack_pointer_register@,
                            declared_stack_end(
                                symbol.parameters@,
                                project.stack_pointer_register@,
                                first_stack_offset(project.cpu_architecture@, project.stack_pointer_register@),
                            ),
                        ),
                },
            },
        },
    }
}

/// Resolves the variadic parameters of a call to `extern_symbol`, see
/// `get_variable_parameters`, and appends them to the parameters that the
/// symbol declares: the parameters that the call in effect takes.
pub fn get_effective_parameters(
    project: &Project,
    pi_state: &State,
    extern_symbol: &ExternSymbol,
    format_string_index_map: &Vec<(String, usize)>,
    runtime_memory_image: &RuntimeMemoryImage,
) -> (r: Result<Vec<Arg>, Error>)
    requires
        pi_state.wf(),
        valid_width(project.stack_pointer_register.size),
    ensures
        match r {
            Err(e) => variable_parameters_are(
                *project,
                pi_state@,
                *extern_symbol,
                format_string_index_map@,
                *runtime_memory_image,
                Err(e),
            ),
            Ok(all) => {
                let n = extern_symbol.parameters.len() as int;
                &&& all.len() >= n
                &&& forall|i: int| 0 <= i < n ==> same_arg(extern_symbol.parameters@[i], #[trigger] all@[i])
                &&& variable_parameters_are(
                    *project,
                    pi_state@,
                    *extern_symbol,
                    format_string_index_map@,
                    *runtime_memory_image,
                    Ok(all@.subrange(n, all.len() as int)),
                )
            },
        },
{
    let mut variadic = match get_variable_parameters(
        project,
        pi_state,
        extern_symbol,
        format_string_index_map,
        runtime_memory_image,
    ) {
        Ok(v) => v,
        Err(e) => return Err(e),
    };
    let mut all: Vec<Arg> = Vec::new();
    let mut i: usize = 0;
    while i < extern_symbol.parameters.len()
        invariant
            i <= extern_symbol.parameters.len(),
            all.len() == i,
            forall|j: int| 0 <= j < i ==> same_arg(extern_symbol.parameters@[j], #[trigger] all@[j]),
        decreases extern_symbol.parameters.len() - i,
    {
        all.push(extern_symbol.parameters[i].duplicate());
        i = i + 1;
    }
    let ghost declared = all@;
    let ghost resolved = variadic@;
    all.append(&mut variadic);
    proof {
        assert forall|j: int| 0 <= j < i implies same_arg(extern_symbol.parameters@[j], #[trigger] all@[j]) by {
            assert(all@[j] == declared[j]);
        }
        assert(all@.subrange(i as int, all.len() as int) =~= resolved);
    }
    Ok(all)
}

} // verus!
