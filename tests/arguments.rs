use cwe_checker_lib::arguments::{
    calculate_parameter_locations, create_stack_arg, get_input_format_string,
    get_effective_parameters, get_variable_parameters,
    parse_format_string_destination_and_return_content,
    parse_format_string_parameters,
};
use cwe_checker_lib::data::{Data, Interval};
use cwe_checker_lib::ir::{BinOpType, Bitvector, Error, Expression, Tid, Variable};
use cwe_checker_lib::memory_image::{MemorySegment, RuntimeMemoryImage};
use cwe_checker_lib::state::State;
use cwe_checker_lib::sub::{Arg, CallingConvention, Datatype, DatatypeProperties, ExternSymbol, Project};

fn var(name: &str, size: u64) -> Variable {
    Variable::new(name, size, false)
}

fn reg_arg(name: &str, size: u64) -> Arg {
    Arg::Register { expr: Expression::Var(var(name, size)), data_type: None }
}

fn rsp_plus(offset: u64) -> Expression {
    Expression::BinOp {
        op: BinOpType::IntAdd,
        lhs: Box::new(Expression::Var(var("RSP", 8))),
        rhs: Box::new(Expression::Const(Bitvector { value: offset, width: 8 })),
    }
}

fn properties() -> DatatypeProperties {
    DatatypeProperties { integer_size: 4, pointer_size: 8, double_size: 8 }
}

fn cconv_with(int_regs: Vec<Variable>, float_regs: Vec<Variable>) -> CallingConvention {
    CallingConvention {
        name: "__stdcall".to_string(),
        integer_parameter_register: int_regs,
        float_parameter_register: float_regs.into_iter().map(Expression::Var).collect(),
        integer_return_register: vec![var("RAX", 8)],
        float_return_register: vec![],
        callee_saved_register: vec![var("RBP", 8)],
    }
}

fn sprintf_symbol() -> ExternSymbol {
    ExternSymbol {
        tid: Tid::new("sprintf", "UNKNOWN"),
        addresses: vec!["UNKNOWN".to_string()],
        name: "sprintf".to_string(),
        calling_convention: Some("__stdcall".to_string()),
        parameters: vec![reg_arg("RDI", 8), reg_arg("RSI", 8)],
        return_values: vec![reg_arg("RAX", 8)],
        no_return: false,
        has_var_args: true,
    }
}

fn mem_image() -> RuntimeMemoryImage {
    RuntimeMemoryImage {
        memory_segments: vec![
            MemorySegment { base_address: 0x1000, bytes: vec![0xb0, 0xb1, 0xb2, 0xb3, 0xb4] },
            MemorySegment { base_address: 0x2000, bytes: vec![0; 8] },
            MemorySegment {
                base_address: 0x3000,
                bytes: vec![
                    0x01, 0x02, 0x48, 0x65, 0x6c, 0x6c, 0x6f, 0x20, 0x57, 0x6f, 0x72, 0x6c, 0x64,
                    0x00,
                ],
            },
            MemorySegment { base_address: 0x4000, bytes: vec![0x02, 0x30, 0x00, 0x00] },
            MemorySegment {
                base_address: 0x5000,
                bytes: vec![
                    0x2f, 0x64, 0x65, 0x76, 0x2f, 0x73, 0x64, 0x25, 0x63, 0x25, 0x64, 0x00, 0x63,
                    0x61, 0x74, 0x20, 0x25, 0x73, 0x00,
                ],
            },
        ],
    }
}

fn pi_state() -> State {
    State::new(&var("RSP", 8), Tid::new("func", "0"))
}

fn project(cconv: CallingConvention) -> Project {
    Project {
        calling_conventions: vec![cconv],
        stack_pointer_register: var("RSP", 8),
        cpu_architecture: "x86_64".to_string(),
        datatype_properties: properties(),
    }
}

#[test]
fn test_get_variable_parameters() {
    let mem_image = mem_image();
    let mut pi_state = pi_state();
    let sprintf_symbol = sprintf_symbol();
    let format_string_index_map = vec![("sprintf".to_string(), 0usize)];
    pi_state.set_register(&var("RDI", 8), Data::Value(8, Interval::exact(0x5000)));
    let project = project(cconv_with(vec![var("RDI", 8)], vec![var("XMM0", 16)]));

    let output = vec![
        Arg::Stack { address: rsp_plus(8), size: 4, data_type: Some(Datatype::Char) },
        Arg::Stack { address: rsp_plus(12), size: 4, data_type: Some(Datatype::Integer) },
    ];
    assert_eq!(
        output,
        get_variable_parameters(&project, &pi_state, &sprintf_symbol, &format_string_index_map, &mem_image)
            .unwrap()
    );

    let output = vec![Arg::Stack { address: rsp_plus(8), size: 8, data_type: Some(Datatype::Pointer) }];
    pi_state.set_register(&var("RDI", 8), Data::Value(8, Interval::exact(0x500c)));
    assert_eq!(
        output,
        get_variable_parameters(&project, &pi_state, &sprintf_symbol, &format_string_index_map, &mem_image)
            .unwrap()
    );
}

#[test]
fn unknown_symbol_has_no_variable_parameters() {
    let project = project(cconv_with(vec![var("RDI", 8)], vec![]));
    let table = vec![("printf".to_string(), 0usize)];
    let r = get_variable_parameters(&project, &pi_state(), &sprintf_symbol(), &table, &mem_image());
    assert_eq!(r, Ok(vec![]));
}

#[test]
fn missing_calling_convention_is_an_error() {
    let mut cconv = cconv_with(vec![var("RDI", 8)], vec![]);
    cconv.name = "__cdecl".to_string();
    let project = project(cconv);
    let mut pi_state = pi_state();
    pi_state.set_register(&var("RDI", 8), Data::Value(8, Interval::exact(0x500c)));
    let table = vec![("sprintf".to_string(), 0usize)];
    let r = get_variable_parameters(&project, &pi_state, &sprintf_symbol(), &table, &mem_image());
    assert_eq!(r, Err(Error::MissingCallingConvention));
}

#[test]
fn test_get_input_format_string() {
    let mem_image = mem_image();
    let mut pi_state = pi_state();
    let sprintf_symbol = sprintf_symbol();
    pi_state.set_register(&var("RSI", 8), Data::Value(8, Interval::exact(0x3002)));
    assert_eq!(
        "Hello World",
        get_input_format_string(&pi_state, &sprintf_symbol, 1, &mem_image).unwrap()
    );
}

#[test]
fn format_string_register_without_address_is_unresolved() {
    let r = get_input_format_string(&pi_state(), &sprintf_symbol(), 1, &mem_image());
    assert_eq!(r, Err(Error::UnresolvedPointer));
    let r = get_input_format_string(&pi_state(), &sprintf_symbol(), 5, &mem_image());
    assert_eq!(r, Err(Error::ShapeMismatch));
}

#[test]
fn test_parse_format_string_destination_and_return_content() {
    let mem_image = mem_image();
    let string_address = Interval::exact(0x3002);
    assert_eq!(
        "Hello World",
        parse_format_string_destination_and_return_content(string_address, &mem_image).unwrap()
    );
}

#[test]
fn format_string_destination_errors() {
    let img = mem_image();
    let r = parse_format_string_destination_and_return_content(Interval { start: 0x3002, end: 0x3003 }, &img);
    assert_eq!(r, Err(Error::UnresolvedPointer));
    let r = parse_format_string_destination_and_return_content(Interval::exact(0x9000), &img);
    assert_eq!(r, Err(Error::MemoryReadOutOfBounds));
    // the first segment holds no zero byte
    let r = parse_format_string_destination_and_return_content(Interval::exact(0x1000), &img);
    assert_eq!(r, Err(Error::MemoryReadOutOfBounds));
    // 0xb0 is no valid start of a UTF-8 sequence
    let bad = RuntimeMemoryImage {
        memory_segments: vec![MemorySegment { base_address: 0x10, bytes: vec![0x41, 0xb0, 0x00] }],
    };
    let r = parse_format_string_destination_and_return_content(Interval::exact(0x10), &bad);
    assert_eq!(r, Err(Error::InvalidText));
}

#[test]
fn test_parse_format_string_parameters() {
    let test_cases: Vec<&str> = vec![
        "%s \"%s\" %s",
        "ifconfig eth0 add 3ffe:501:ffff:101:2%02x:%02xff:fe%02x:%02x%02x/64",
        "/dev/sd%c%d",
        "%s: Unable to open \'%s\', errno=%d\n",
        "%s %lli",
    ];
    let properties = properties();
    let expected_outputs: Vec<Vec<(Datatype, u64)>> = vec![
        vec![
            (Datatype::Pointer, properties.pointer_size),
            (Datatype::Pointer, properties.pointer_size),
            (Datatype::Pointer, properties.pointer_size),
        ],
        vec![
            (Datatype::Integer, properties.integer_size),
            (Datatype::Integer, properties.integer_size),
            (Datatype::Integer, properties.integer_size),
            (Datatype::Integer, properties.integer_size),
            (Datatype::Integer, properties.integer_size),
        ],
        vec![
            (Datatype::Char, properties.integer_size),
            (Datatype::Integer, properties.integer_size),
        ],
        vec![
            (Datatype::Pointer, properties.pointer_size),
            (Datatype::Pointer, properties.pointer_size),
            (Datatype::Integer, properties.integer_size),
        ],
        vec![
            (Datatype::Pointer, properties.pointer_size),
            (Datatype::Integer, properties.pointer_size),
        ],
    ];

    for (index, (case, output)) in test_cases.into_iter().zip(expected_outputs.into_iter()).enumerate() {
        if index == 4 {
            assert_ne!(output, parse_format_string_parameters(case, &properties).unwrap_or(vec![]));
        } else {
            assert_eq!(output, parse_format_string_parameters(case, &properties).unwrap());
        }
    }
}

#[test]
fn format_string_with_length_modifier_is_integer_sized() {
    let r = parse_format_string_parameters("%s %lli", &properties()).unwrap();
    assert_eq!(r, vec![(Datatype::Pointer, 8), (Datatype::Integer, 4)]);
}

#[test]
fn format_string_percent_literal_and_trailing_percent() {
    let p = properties();
    assert_eq!(parse_format_string_parameters("100%% of %f", &p).unwrap(), vec![(Datatype::Double, 8)]);
    assert_eq!(parse_format_string_parameters("%d%", &p).unwrap(), vec![(Datatype::Integer, 4)]);
    assert_eq!(parse_format_string_parameters("%-08.3lf%p", &p).unwrap(), vec![(Datatype::Double, 8), (Datatype::Pointer, 8)]);
    assert_eq!(parse_format_string_parameters("", &p).unwrap(), vec![]);
}

#[test]
fn format_string_unknown_conversion_is_an_error() {
    assert_eq!(parse_format_string_parameters("%d %y", &properties()), Err(Error::UnknownConversion));
}

#[test]
fn test_calculate_parameter_locations() {
    let cconv = cconv_with(
        vec![var("RDI", 8), var("RSI", 8), var("R8", 8), var("R9", 8)],
        vec![var("XMM0", 16)],
    );
    let format_string_index: usize = 1;
    let mut parameters: Vec<(Datatype, u64)> = Vec::new();
    parameters.push((Datatype::Integer, 8));
    parameters.push((Datatype::Double, 16));
    parameters.push((Datatype::Pointer, 8));

    let mut expected_args = vec![
        Arg::Register { expr: Expression::Var(var("R8", 8)), data_type: Some(Datatype::Integer) },
        Arg::Register { expr: Expression::Var(var("XMM0", 16)), data_type: Some(Datatype::Double) },
        Arg::Register { expr: Expression::Var(var("R9", 8)), data_type: Some(Datatype::Pointer) },
    ];

    // The string parameter still goes to R9, since the double took the float register.
    assert_eq!(
        expected_args,
        calculate_parameter_locations(parameters.clone(), &cconv, format_string_index, &var("RSP", 8), "x86_64")
    );

    parameters.push((Datatype::Pointer, 8));
    expected_args.push(Arg::Stack { address: rsp_plus(8), size: 8, data_type: Some(Datatype::Pointer) });

    // A second string parameter no longer fits into the registers and goes to the stack.
    assert_eq!(
        expected_args,
        calculate_parameter_locations(parameters, &cconv, format_string_index, &var("RSP", 8), "x86_64")
    );
}

#[test]
fn stack_slots_start_at_zero_off_x86() {
    let cconv = cconv_with(vec![var("r0", 4)], vec![]);
    let r = calculate_parameter_locations(
        vec![(Datatype::Integer, 4), (Datatype::Double, 8), (Datatype::Char, 4)],
        &cconv,
        0,
        &var("sp", 4),
        "arm32",
    );
    let sp_plus = |v: u64| Expression::BinOp {
        op: BinOpType::IntAdd,
        lhs: Box::new(Expression::Var(var("sp", 4))),
        rhs: Box::new(Expression::Const(Bitvector { value: v, width: 4 })),
    };
    assert_eq!(
        r,
        vec![
            Arg::Stack { address: sp_plus(0), size: 4, data_type: Some(Datatype::Integer) },
            Arg::Stack { address: sp_plus(4), size: 8, data_type: Some(Datatype::Double) },
            Arg::Stack { address: sp_plus(12), size: 4, data_type: Some(Datatype::Char) },
        ]
    );
}

#[test]
fn test_create_stack_arg() {
    assert_eq!(
        Arg::Stack { address: Expression::Var(var("RSP", 8)).plus_const(8, 8), size: 8, data_type: Some(Datatype::Pointer) },
        create_stack_arg(8, 8, Datatype::Pointer, &var("RSP", 8)),
    )
}

#[test]
fn stack_arg_with_negative_offset_wraps() {
    assert_eq!(
        create_stack_arg(4, -4, Datatype::Integer, &var("RSP", 8)),
        Arg::Stack { address: rsp_plus(0xffff_ffff_ffff_fffc), size: 4, data_type: Some(Datatype::Integer) },
    )
}

#[test]
fn effective_parameters_append_variadic_ones() {
    let mut pi_state = pi_state();
    pi_state.set_register(&var("RDI", 8), Data::Value(8, Interval::exact(0x500c)));
    let project = project(cconv_with(vec![var("RDI", 8)], vec![var("XMM0", 16)]));
    let table = vec![("sprintf".to_string(), 0usize)];
    let r = get_effective_parameters(&project, &pi_state, &sprintf_symbol(), &table, &mem_image()).unwrap();
    assert_eq!(
        r,
        vec![
            reg_arg("RDI", 8),
            reg_arg("RSI", 8),
            Arg::Stack { address: rsp_plus(8), size: 8, data_type: Some(Datatype::Pointer) },
        ]
    );
    pi_state.set_register(&var("RDI", 8), Data::Value(8, Interval::exact(0x9000)));
    let r = get_effective_parameters(&project, &pi_state, &sprintf_symbol(), &table, &mem_image());
    assert_eq!(r, Err(Error::MemoryReadOutOfBounds));
}

#[test]
fn variadic_stack_slots_follow_declared_stack_parameters() {
    let mut symbol = sprintf_symbol();
    symbol.parameters.push(Arg::Stack { address: rsp_plus(8), size: 8, data_type: None });
    symbol.parameters.push(Arg::Stack { address: rsp_plus(16), size: 4, data_type: None });
    let mut pi_state = pi_state();
    pi_state.set_register(&var("RDI", 8), Data::Value(8, Interval::exact(0x500c)));
    let project = project(cconv_with(vec![var("RDI", 8)], vec![]));
    let table = vec![("sprintf".to_string(), 0usize)];
    let r = get_variable_parameters(&project, &pi_state, &symbol, &table, &mem_image()).unwrap();
    assert_eq!(r, vec![Arg::Stack { address: rsp_plus(20), size: 8, data_type: Some(Datatype::Pointer) }]);
}

#[test]
fn doubles_never_take_integer_registers() {
    let cconv = cconv_with(vec![var("RDI", 8), var("RSI", 8), var("RDX", 8)], vec![var("XMM0", 16), var("XMM1", 16)]);
    let params = vec![
        (Datatype::Double, 8),
        (Datatype::Integer, 4),
        (Datatype::Double, 8),
        (Datatype::Double, 8),
        (Datatype::Pointer, 8),
        (Datatype::Char, 4),
    ];
    let r = calculate_parameter_locations(params, &cconv, 0, &var("RSP", 8), "x86_64");
    assert_eq!(
        r,
        vec![
            Arg::Register { expr: Expression::Var(var("XMM0", 16)), data_type: Some(Datatype::Double) },
            Arg::Register { expr: Expression::Var(var("RSI", 8)), data_type: Some(Datatype::Integer) },
            Arg::Register { expr: Expression::Var(var("XMM1", 16)), data_type: Some(Datatype::Double) },
            Arg::Stack { address: rsp_plus(8), size: 8, data_type: Some(Datatype::Double) },
            Arg::Register { expr: Expression::Var(var("RDX", 8)), data_type: Some(Datatype::Pointer) },
            Arg::Stack { address: rsp_plus(16), size: 4, data_type: Some(Datatype::Char) },
        ]
    );
}
