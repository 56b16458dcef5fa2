use bril_jit::env::{Env, Value};
use bril_jit::interpreter::{Fault, Interpreter, Out};
use bril_jit::program::{Function, InstrType, Instruction, OpCode, Param, Program};

fn s(x: &str) -> String {
    x.to_string()
}

fn op(name: &str) -> OpCode {
    OpCode::from_name(&s(name)).unwrap()
}

fn instr(o: &str, dest: Option<&str>, args: &[&str], ty: Option<&str>) -> Instruction {
    Instruction {
        label: None,
        args: Some(args.iter().map(|a| s(a)).collect()),
        dest: dest.map(s),
        op: Some(op(o)),
        value: None,
        ty: ty.map(s),
    }
}

fn konst(dest: &str, v: InstrType) -> Instruction {
    let ty = match v {
        InstrType::VInt(_) => "int",
        InstrType::VBool(_) => "bool",
    };
    Instruction {
        label: None,
        args: None,
        dest: Some(s(dest)),
        op: Some(OpCode::Const),
        value: Some(v),
        ty: Some(s(ty)),
    }
}

fn label(l: &str) -> Instruction {
    Instruction { label: Some(s(l)), args: None, dest: None, op: None, value: None, ty: None }
}

fn func(name: &str, params: &[&str], instrs: Vec<Instruction>) -> Function {
    Function {
        args: if params.is_empty() {
            None
        } else {
            Some(params.iter().map(|p| Param { name: s(p) }).collect())
        },
        instrs,
        name: s(name),
    }
}

fn run(p: Program) -> (Result<(), Fault>, Vec<Out>) {
    Interpreter::new(p).eval_program(&vec![], 100_000_000)
}

fn constant_and_arithmetic() -> Program {
    Program {
        functions: vec![func(
            "main",
            &[],
            vec![
                konst("a", InstrType::VInt(7)),
                konst("b", InstrType::VInt(5)),
                instr("sub", Some("c"), &["a", "b"], Some("int")),
                instr("print", None, &["c"], None),
                instr("ret", None, &[], None),
            ],
        )],
    }
}

#[test]
fn scenario_constant_arithmetic() {
    let (r, out) = run(constant_and_arithmetic());
    assert_eq!(r, Ok(()));
    assert_eq!(out, vec![Out::Int(2), Out::Newline]);
}

#[test]
fn scenario_comparison_branch() {
    let p = Program {
        functions: vec![func(
            "main",
            &[],
            vec![
                konst("x", InstrType::VInt(3)),
                konst("y", InstrType::VInt(4)),
                instr("lt", Some("c"), &["x", "y"], Some("bool")),
                instr("br", None, &["c", "L1", "L2"], None),
                label("L1"),
                konst("t", InstrType::VInt(1)),
                instr("print", None, &["t"], None),
                instr("ret", None, &[], None),
                label("L2"),
                konst("t", InstrType::VInt(0)),
                instr("print", None, &["t"], None),
                instr("ret", None, &[], None),
            ],
        )],
    };
    let (r, out) = run(p);
    assert_eq!(r, Ok(()));
    assert_eq!(out, vec![Out::Int(1), Out::Newline]);
}

#[test]
fn scenario_boolean_ops() {
    let p = Program {
        functions: vec![func(
            "main",
            &[],
            vec![
                konst("t", InstrType::VBool(true)),
                konst("f", InstrType::VBool(false)),
                instr("and", Some("a"), &["t", "f"], Some("bool")),
                instr("or", Some("b"), &["t", "f"], Some("bool")),
                instr("not", Some("n"), &["t"], Some("bool")),
                instr("print", None, &["a", "b", "n"], None),
            ],
        )],
    };
    let (r, out) = run(p);
    assert_eq!(r, Ok(()));
    assert_eq!(out, vec![Out::Bool(false), Out::Bool(true), Out::Bool(false), Out::Newline]);
}

pub fn sum_program() -> Program {
    Program {
        functions: vec![
            func(
                "main",
                &[],
                vec![
                    konst("n", InstrType::VInt(10)),
                    konst("z", InstrType::VInt(0)),
                    instr("call", Some("r"), &["sum", "n", "z"], Some("int")),
                    instr("print", None, &["r"], None),
                ],
            ),
            func(
                "sum",
                &["n", "acc"],
                vec![
                    konst("zero", InstrType::VInt(0)),
                    instr("eq", Some("done"), &["n", "zero"], Some("bool")),
                    instr("br", None, &["done", "base", "rec"], None),
                    label("base"),
                    instr("ret", None, &["acc"], None),
                    label("rec"),
                    konst("one", InstrType::VInt(1)),
                    instr("sub", Some("m"), &["n", "one"], Some("int")),
                    instr("add", Some("a2"), &["acc", "n"], Some("int")),
                    instr("call", Some("r"), &["sum", "m", "a2"], Some("int")),
                    instr("ret", None, &["r"], None),
                ],
            ),
        ],
    }
}

#[test]
fn scenario_self_recursion() {
    let (r, out) = run(sum_program());
    assert_eq!(r, Ok(()));
    assert_eq!(out, vec![Out::Int(55), Out::Newline]);
}

#[test]
fn scenario_counted_loop() {
    let p = Program {
        functions: vec![func(
            "main",
            &[],
            vec![
                konst("i", InstrType::VInt(0)),
                konst("s", InstrType::VInt(0)),
                konst("n", InstrType::VInt(1_000_000)),
                konst("one", InstrType::VInt(1)),
                label("loop"),
                instr("lt", Some("c"), &["i", "n"], Some("bool")),
                instr("br", None, &["c", "body", "end"], None),
                label("body"),
                instr("add", Some("s"), &["s", "i"], Some("int")),
                instr("add", Some("i"), &["i", "one"], Some("int")),
                instr("jmp", None, &["loop"], None),
                label("end"),
                instr("print", None, &["s"], None),
            ],
        )],
    };
    let (r, out) = run(p);
    assert_eq!(r, Ok(()));
    assert_eq!(out, vec![Out::Int(499999500000), Out::Newline]);
}

#[test]
fn empty_main_prints_nothing() {
    let p = Program { functions: vec![func("main", &[], vec![instr("ret", None, &[], None)])] };
    let (r, out) = run(p);
    assert_eq!(r, Ok(()));
    assert!(out.is_empty());
}

#[test]
fn main_takes_integer_arguments() {
    let p = Program {
        functions: vec![func(
            "main",
            &["x", "y"],
            vec![instr("mul", Some("z"), &["x", "y"], Some("int")), instr("print", None, &["z"], None)],
        )],
    };
    let (r, out) = Interpreter::new(p.clone()).eval_program(&vec![6, 7], 1000);
    assert_eq!(r, Ok(()));
    assert_eq!(out, vec![Out::Int(42), Out::Newline]);
    let (r, out) = Interpreter::new(p).eval_program(&vec![6], 1000);
    assert_eq!(r, Err(Fault::MissingArgument));
    assert!(out.is_empty());
}

#[test]
fn forward_jump_skips_code() {
    let p = Program {
        functions: vec![func(
            "main",
            &[],
            vec![
                konst("a", InstrType::VInt(1)),
                instr("jmp", None, &["skip"], None),
                instr("print", None, &["a"], None),
                label("skip"),
                konst("b", InstrType::VInt(2)),
                instr("print", None, &["b"], None),
            ],
        )],
    };
    let (r, out) = run(p);
    assert_eq!(r, Ok(()));
    assert_eq!(out, vec![Out::Int(2), Out::Newline]);
}

#[test]
fn id_copies_value() {
    let p = Program {
        functions: vec![func(
            "main",
            &[],
            vec![
                konst("x", InstrType::VInt(-9)),
                instr("id", Some("y"), &["x"], Some("int")),
                instr("print", None, &["y"], None),
            ],
        )],
    };
    assert_eq!(run(p).1, vec![Out::Int(-9), Out::Newline]);
}

fn binop_result(o: &str, a: i64, b: i64) -> (Result<(), Fault>, Vec<Out>) {
    run(Program {
        functions: vec![func(
            "main",
            &[],
            vec![
                konst("a", InstrType::VInt(a)),
                konst("b", InstrType::VInt(b)),
                instr(o, Some("c"), &["a", "b"], None),
                instr("print", None, &["c"], None),
            ],
        )],
    })
}

#[test]
fn comparisons_are_complements() {
    for (a, b) in [(1, 2), (2, 1), (3, 3), (i64::MIN, i64::MAX)] {
        let lt = binop_result("lt", a, b).1[0];
        let ge = binop_result("ge", a, b).1[0];
        assert_eq!(lt, Out::Bool(a < b));
        assert_eq!(ge, Out::Bool(!(a < b)));
        let le = binop_result("le", a, b).1[0];
        let gt = binop_result("gt", a, b).1[0];
        assert_eq!(le, Out::Bool(a <= b));
        assert_eq!(gt, Out::Bool(!(a <= b)));
    }
}

#[test]
fn arithmetic_values() {
    assert_eq!(binop_result("add", 40, 2).1[0], Out::Int(42));
    assert_eq!(binop_result("mul", -6, 7).1[0], Out::Int(-42));
    assert_eq!(binop_result("div", -7, 2).1[0], Out::Int(-3));
    assert_eq!(binop_result("div", 7, -2).1[0], Out::Int(-3));
    assert_eq!(binop_result("div", -7, -2).1[0], Out::Int(3));
    assert_eq!(binop_result("add", i64::MAX, 1).1[0], Out::Int(i64::MIN));
    assert_eq!(binop_result("eq", 5, 5).1[0], Out::Bool(true));
}

#[test]
fn division_faults() {
    assert_eq!(binop_result("div", 1, 0).0, Err(Fault::ArithmeticFault));
    assert_eq!(binop_result("div", i64::MIN, -1).0, Err(Fault::ArithmeticFault));
}

#[test]
fn type_error_on_bool_operand() {
    let p = Program {
        functions: vec![func(
            "main",
            &[],
            vec![
                konst("t", InstrType::VBool(true)),
                konst("one", InstrType::VInt(1)),
                instr("add", Some("x"), &["t", "one"], None),
            ],
        )],
    };
    assert_eq!(run(p).0, Err(Fault::TypeError));
}

#[test]
fn unbound_variable_fault() {
    let p = Program { functions: vec![func("main", &[], vec![instr("print", None, &["nope"], None)])] };
    let (r, out) = run(p);
    assert_eq!(r, Err(Fault::UnboundVariable));
    assert!(out.is_empty());
}

#[test]
fn unknown_label_fault() {
    let p = Program { functions: vec![func("main", &[], vec![instr("jmp", None, &["nowhere"], None)])] };
    assert_eq!(run(p).0, Err(Fault::UnknownLabel));
}

#[test]
fn unknown_function_fault() {
    let p = Program { functions: vec![func("main", &[], vec![instr("call", None, &["ghost"], None)])] };
    assert_eq!(run(p).0, Err(Fault::UnknownFunction));
    let q = Program { functions: vec![func("other", &[], vec![])] };
    assert_eq!(run(q).0, Err(Fault::UnknownFunction));
}

#[test]
fn missing_argument_fault() {
    let p = Program {
        functions: vec![
            func("main", &[], vec![instr("call", None, &["f"], None)]),
            func("f", &["x"], vec![instr("ret", None, &[], None)]),
        ],
    };
    assert_eq!(run(p).0, Err(Fault::MissingArgument));
}

#[test]
fn bare_ret_returns_no_value() {
    let discard = Program {
        functions: vec![
            func(
                "main",
                &[],
                vec![
                    instr("call", None, &["f"], None),
                    konst("k", InstrType::VInt(3)),
                    instr("print", None, &["k"], None),
                ],
            ),
            func("f", &[], vec![instr("ret", None, &[], None)]),
        ],
    };
    assert_eq!(run(discard), (Ok(()), vec![Out::Int(3), Out::Newline]));
    let bind = Program {
        functions: vec![
            func("main", &[], vec![instr("call", Some("v"), &["f"], None)]),
            func("f", &[], vec![instr("ret", None, &[], None)]),
        ],
    };
    assert_eq!(run(bind).0, Err(Fault::NoReturnValue));
}

#[test]
fn malformed_instruction_fault() {
    let p = Program { functions: vec![func("main", &[], vec![instr("id", None, &["x"], None)])] };
    let no_dest = Program {
        functions: vec![func(
            "main",
            &[],
            vec![konst("x", InstrType::VInt(1)), instr("id", None, &["x"], None)],
        )],
    };
    assert_eq!(run(p).0, Err(Fault::UnboundVariable));
    assert_eq!(run(no_dest).0, Err(Fault::Malformed));
}

#[test]
fn fuel_runs_out_on_infinite_loop() {
    let p = Program {
        functions: vec![func("main", &[], vec![label("l"), instr("jmp", None, &["l"], None)])],
    };
    let (r, _) = Interpreter::new(p).eval_program(&vec![], 1000);
    assert_eq!(r, Err(Fault::OutOfFuel));
}

#[test]
fn print_emits_before_later_fault() {
    let p = Program {
        functions: vec![func(
            "main",
            &[],
            vec![
                konst("a", InstrType::VInt(5)),
                instr("print", None, &["a"], None),
                instr("jmp", None, &["missing"], None),
            ],
        )],
    };
    assert_eq!(run(p), (Err(Fault::UnknownLabel), vec![Out::Int(5), Out::Newline]));
}

#[test]
fn opcode_names() {
    assert!(matches!(OpCode::from_name(&s("add")), Some(OpCode::BinOp(n)) if n == "add"));
    assert!(matches!(OpCode::from_name(&s("or")), Some(OpCode::BinOpBool(n)) if n == "or"));
    assert!(matches!(OpCode::from_name(&s("not")), Some(OpCode::UnOpBool(_))));
    assert!(matches!(OpCode::from_name(&s("call")), Some(OpCode::Call)));
    assert!(matches!(OpCode::from_name(&s("nop")), Some(OpCode::Nop)));
    assert!(OpCode::from_name(&s("mod")).is_none());
}

#[test]
fn labels_and_functions_are_found_by_name() {
    let f = func("main", &[], vec![instr("nop", None, &[], None), label("a"), label("b")]);
    assert_eq!(Interpreter::find_label(&f, &s("b")), Some(2));
    assert_eq!(Interpreter::find_label(&f, &s("z")), None);
    let it = Interpreter::new(Program { functions: vec![func("x", &[], vec![]), f] });
    assert_eq!(it.find_function(&s("main")), Some(1));
    assert_eq!(it.find_function(&s("y")), None);
}

#[test]
fn eval_func_runs_one_function() {
    let f = func(
        "f",
        &["x"],
        vec![instr("add", Some("y"), &["x", "x"], Some("int")), instr("ret", None, &["y"], None)],
    );
    let it = Interpreter::new(Program { functions: vec![f.clone()] });
    let mut env = Env::new();
    env.put(&s("x"), Value::Int(21));
    let mut out = Vec::new();
    assert_eq!(it.eval_func(&f, &mut env, &mut out, 10), Ok(()));
    assert_eq!(env.get(&s("_ rho")), Some(Value::Int(42)));
    assert!(out.is_empty());
}

#[test]
fn failed_instruction_leaves_frame() {
    let it = Interpreter::new(Program { functions: vec![] });
    let mut env = Env::new();
    env.put(&s("t"), Value::Bool(true));
    env.put(&s("one"), Value::Int(1));
    let mut out = Vec::new();
    let bad_add = instr("add", Some("x"), &["t", "one"], None);
    assert_eq!(it.eval_instr(&bad_add, &mut env, &mut out, 10), Err(Fault::TypeError));
    assert_eq!(env.get(&s("x")), None);
    let bad_call = instr("call", Some("x"), &["ghost"], None);
    assert_eq!(it.eval_instr(&bad_call, &mut env, &mut out, 10), Err(Fault::UnknownFunction));
    assert_eq!(env.get(&s("x")), None);
    assert!(out.is_empty());
}

#[test]
fn failed_run_keeps_earlier_effects_only() {
    let f = func(
        "main",
        &[],
        vec![
            konst("a", InstrType::VInt(1)),
            instr("jmp", None, &["missing"], None),
            konst("b", InstrType::VInt(2)),
        ],
    );
    let it = Interpreter::new(Program { functions: vec![f.clone()] });
    let mut env = Env::new();
    let mut out = Vec::new();
    assert_eq!(it.eval_func(&f, &mut env, &mut out, 100), Err(Fault::UnknownLabel));
    assert_eq!(env.get(&s("a")), Some(Value::Int(1)));
    assert_eq!(env.get(&s("b")), None);
}

#[test]
fn bare_ret_with_parameters_returns_no_value() {
    let p = Program {
        functions: vec![
            func(
                "main",
                &[],
                vec![konst("x", InstrType::VInt(4)), instr("call", None, &["f", "x"], None), instr("call", Some("v"), &["f", "x"], None)],
            ),
            func("f", &["p"], vec![instr("ret", None, &[], None)]),
        ],
    };
    let (r, out) = run(p);
    assert_eq!(r, Err(Fault::NoReturnValue));
    assert!(out.is_empty());
}
