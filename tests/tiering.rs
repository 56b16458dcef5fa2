use bril_jit::env::Value;
use bril_jit::interpreter::{Fault, Out};
use bril_jit::codegen::Hosts;
use bril_jit::env::Env;
use bril_jit::jit::{value_of_word, CallPlan, Interpreter, Event, Frame, Tiers};
use bril_jit::program::{Function, InstrType, Instruction, OpCode, Param, Program};

fn s(x: &str) -> String {
    x.to_string()
}

fn instr(o: &str, dest: Option<&str>, args: &[&str], ty: Option<&str>) -> Instruction {
    Instruction {
        label: None,
        args: Some(args.iter().map(|a| s(a)).collect()),
        dest: dest.map(s),
        op: Some(OpCode::from_name(&s(o)).unwrap()),
        value: None,
        ty: ty.map(s),
    }
}

fn konst(dest: &str, v: i64) -> Instruction {
    Instruction {
        label: None,
        args: None,
        dest: Some(s(dest)),
        op: Some(OpCode::Const),
        value: Some(InstrType::VInt(v)),
        ty: Some(s("int")),
    }
}

fn label(l: &str) -> Instruction {
    Instruction { label: Some(s(l)), args: None, dest: None, op: None, value: None, ty: None }
}

fn func(name: &str, params: &[&str], instrs: Vec<Instruction>) -> Function {
    Function {
        args: if params.is_empty() {
            None
        } else {
            Some(params.iter().map(|p| Param { name: s(p) }).collect())
        },
        instrs,
        name: s(name),
    }
}

fn cross_tier_program() -> Program {
    Program {
        functions: vec![
            func("main", &[], vec![instr("call", Some("r"), &["helper"], Some("int")), instr("print", None, &["r"], None)]),
            func("helper", &[], vec![instr("call", Some("v"), &["leaf"], Some("int")), instr("ret", None, &["v"], None)]),
            func("leaf", &[], vec![konst("k", 42), instr("ret", None, &["k"], None)]),
        ],
    }
}

/// Drives interpreted frames only, the way the engine does when no code is installed.
fn interpret(p: &Program, d: &mut Interpreter, idx: usize, args: Vec<Value>, out: &mut Vec<Out>) -> Result<Option<Value>, Fault> {
    let mut frame = Frame::enter(p, idx, &args)?;
    loop {
        match frame.step(p, d, out) {
            Event::Next => {},
            Event::Call { callee, args } => {
                let _ = d.handle_call(callee);
                let r = interpret(p, d, callee, args, out)?;
                frame.finish_call(p, r)?;
            },
            Event::Returned(v) => return Ok(v),
            Event::Osr(_) => panic!("no on-stack replacement expected"),
            Event::Fault(f) => return Err(f),
        }
    }
}

#[test]
fn cross_tier_plan_with_threshold_one() {
    let p = cross_tier_program();
    let mut d = Interpreter::new(&p, Tiers { jit: true, jit_n: 1, osr: false, osr_n: 0 });
    assert_eq!(d.handle_call(1), CallPlan::Compile);
    d.install(1);
    assert_eq!(d.handle_call(1), CallPlan::Enter);
    assert_eq!(d.handle_call(2), CallPlan::Compile);
}

#[test]
fn interpret_without_jit() {
    let p = cross_tier_program();
    let mut d = Interpreter::new(&p, Tiers { jit: false, jit_n: 0, osr: false, osr_n: 0 });
    for _ in 0..3 {
        assert_eq!(d.handle_call(1), CallPlan::Interpret);
    }
    let mut out = Vec::new();
    let r = interpret(&p, &mut d, 0, vec![], &mut out);
    assert_eq!(r, Ok(None));
    assert_eq!(out, vec![Out::Int(42), Out::Newline]);
}

#[test]
fn threshold_counts_calls() {
    let p = cross_tier_program();
    let mut d = Interpreter::new(&p, Tiers { jit: true, jit_n: 3, osr: false, osr_n: 0 });
    assert_eq!(d.handle_call(2), CallPlan::Interpret);
    assert_eq!(d.handle_call(2), CallPlan::Interpret);
    assert_eq!(d.handle_call(2), CallPlan::Compile);
}

#[test]
fn osr_triggers_at_label_threshold() {
    let p = Program {
        functions: vec![func("main", &[], vec![konst("i", 0), label("loop"), instr("jmp", None, &["loop"], None)])],
    };
    let mut d = Interpreter::new(&p, Tiers { jit: false, jit_n: 0, osr: true, osr_n: 2 });
    let mut frame = Frame::enter(&p, 0, &vec![]).unwrap();
    let mut out = Vec::new();
    assert_eq!(frame.step(&p, &mut d, &mut out), Event::Next);
    assert_eq!(frame.step(&p, &mut d, &mut out), Event::Next);
    assert_eq!(frame.pc, 2);
    assert_eq!(frame.step(&p, &mut d, &mut out), Event::Next);
    assert_eq!(frame.pc, 1);
    assert_eq!(frame.step(&p, &mut d, &mut out), Event::Osr(s("loop")));
    assert_eq!(frame.env.get(&s("i")), Some(Value::Int(0)));
}

#[test]
fn osr_off_never_triggers() {
    let p = Program { functions: vec![func("main", &[], vec![label("l"), instr("ret", None, &[], None)])] };
    let mut d = Interpreter::new(&p, Tiers { jit: false, jit_n: 0, osr: false, osr_n: 0 });
    let mut frame = Frame::enter(&p, 0, &vec![]).unwrap();
    let mut out = Vec::new();
    assert_eq!(frame.step(&p, &mut d, &mut out), Event::Next);
    assert_eq!(frame.step(&p, &mut d, &mut out), Event::Returned(None));
}

#[test]
fn self_recursion_through_frames() {
    let p = Program {
        functions: vec![
            func("main", &[], vec![konst("n", 10), konst("z", 0), instr("call", Some("r"), &["sum", "n", "z"], Some("int")), instr("print", None, &["r"], None)]),
            func(
                "sum",
                &["n", "acc"],
                vec![
                    konst("zero", 0),
                    instr("eq", Some("done"), &["n", "zero"], Some("bool")),
                    instr("br", None, &["done", "base", "rec"], None),
                    label("base"),
                    instr("ret", None, &["acc"], None),
                    label("rec"),
                    konst("one", 1),
                    instr("sub", Some("m"), &["n", "one"], Some("int")),
                    instr("add", Some("a2"), &["acc", "n"], Some("int")),
                    instr("call", Some("r"), &["sum", "m", "a2"], Some("int")),
                    instr("ret", None, &["r"], None),
                ],
            ),
        ],
    };
    let mut d = Interpreter::new(&p, Tiers { jit: false, jit_n: 0, osr: false, osr_n: 0 });
    let mut out = Vec::new();
    assert_eq!(interpret(&p, &mut d, 0, vec![], &mut out), Ok(None));
    assert_eq!(out, vec![Out::Int(55), Out::Newline]);
}

#[test]
fn enter_needs_all_arguments() {
    let p = Program { functions: vec![func("f", &["a", "b"], vec![])] };
    assert!(matches!(Frame::enter(&p, 0, &vec![Value::Int(1)]), Err(Fault::MissingArgument)));
    let fr = Frame::enter(&p, 0, &vec![Value::Int(1), Value::Int(2)]).unwrap();
    assert_eq!(fr.env.get(&s("b")), Some(Value::Int(2)));
}

#[test]
fn returned_words_take_the_call_type() {
    let as_bool = instr("call", Some("r"), &["f"], Some("bool"));
    let as_int = instr("call", Some("r"), &["f"], Some("int"));
    assert_eq!(value_of_word(&as_bool, 1), Value::Bool(true));
    assert_eq!(value_of_word(&as_bool, 0), Value::Bool(false));
    assert_eq!(value_of_word(&as_int, 7), Value::Int(7));
}

#[test]
fn osr_compilation_installs_code() {
    let p = Program {
        functions: vec![func("main", &[], vec![konst("i", 0), label("loop"), instr("ret", None, &["i"], None)])],
    };
    let hosts = Hosts { call: 1, print_int: 2, print_bool: 3, print_newline: 4 };
    let mut d = Interpreter::new(&p, Tiers { jit: false, jit_n: 0, osr: true, osr_n: 1 });
    let mut env = Env::new();
    env.put(&s("i"), Value::Int(9));
    let a = d.handle_osr(&p, &env, 0, &s("loop"), hosts).unwrap();
    assert_eq!(a.osr_start, Some(0));
    assert_eq!(&a.code[18..20], &[0x48, 0xB8]);
    assert_eq!(a.code[20], 9);
    assert_eq!(d.handle_call(0), CallPlan::Enter);
    assert!(d.handle_osr(&p, &env, 0, &s("gone"), hosts).is_err());
    let plain = d.compile(&p, 0, hosts, None).unwrap();
    assert_eq!(plain.start, 0);
    assert_eq!(plain.osr_start, None);
}

#[test]
fn osr_hands_over_on_first_header_visit() {
    let p = Program {
        functions: vec![func(
            "main",
            &[],
            vec![
                konst("i", 0),
                konst("s", 0),
                konst("n", 1_000_000),
                konst("one", 1),
                label("loop"),
                instr("lt", Some("c"), &["i", "n"], Some("bool")),
                instr("br", None, &["c", "body", "done"], None),
                label("body"),
                instr("add", Some("s"), &["s", "i"], Some("int")),
                instr("add", Some("i"), &["i", "one"], Some("int")),
                instr("jmp", None, &["loop"], None),
                label("done"),
                instr("print", None, &["s"], None),
                instr("ret", None, &[], None),
            ],
        )],
    };
    let mut d = Interpreter::new(&p, Tiers { jit: false, jit_n: 0, osr: true, osr_n: 1 });
    let mut frame = Frame::enter(&p, 0, &vec![]).unwrap();
    let mut out = Vec::new();
    let mut steps = 0;
    let event = loop {
        let e = frame.step(&p, &mut d, &mut out);
        steps += 1;
        if e != Event::Next {
            break e;
        }
    };
    assert_eq!(event, Event::Osr(s("loop")));
    assert_eq!(steps, 5);
    assert_eq!(frame.pc, 4);
    assert_eq!(frame.env.get(&s("n")), Some(Value::Int(1_000_000)));
    assert!(out.is_empty());
}
