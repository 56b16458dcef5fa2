use bril_jit::codegen::{compile, CompileError, Compiler, Hosts};
use bril_jit::env::{Env, Value};
use bril_jit::layout::frame_layout;
use bril_jit::program::{Function, InstrType, Instruction, OpCode, Param, Program};

fn s(x: &str) -> String {
    x.to_string()
}

fn instr(o: &str, dest: Option<&str>, args: &[&str], ty: Option<&str>) -> Instruction {
    Instruction {
        label: None,
        args: Some(args.iter().map(|a| s(a)).collect()),
        dest: dest.map(s),
        op: Some(OpCode::from_name(&s(o)).unwrap()),
        value: None,
        ty: ty.map(s),
    }
}

fn konst(dest: &str, v: InstrType, ty: &str) -> Instruction {
    Instruction {
        label: None,
        args: None,
        dest: Some(s(dest)),
        op: Some(OpCode::Const),
        value: Some(v),
        ty: Some(s(ty)),
    }
}

fn label(l: &str) -> Instruction {
    Instruction { label: Some(s(l)), args: None, dest: None, op: None, value: None, ty: None }
}

fn func(name: &str, params: &[&str], instrs: Vec<Instruction>) -> Function {
    Function {
        args: if params.is_empty() {
            None
        } else {
            Some(params.iter().map(|p| Param { name: s(p) }).collect())
        },
        instrs,
        name: s(name),
    }
}

const HOSTS: Hosts = Hosts {
    call: 0x1111_2222_3333_4444,
    print_int: 0xAAAA_0000_0000_0001,
    print_bool: 0xBBBB_0000_0000_0002,
    print_newline: 0xCCCC_0000_0000_0003,
};

const SETUP_EMPTY: [u8; 18] =
    [0x55, 0x48, 0x89, 0xE5, 0x48, 0x81, 0xEC, 0x10, 0, 0, 0, 0x48, 0x89, 0xBD, 0xF8, 0xFF, 0xFF, 0xFF];
const RET_NONE: [u8; 19] = [
    0x48, 0xC7, 0xC0, 0, 0, 0, 0, 0x48, 0xC7, 0xC2, 0, 0, 0, 0, 0x48, 0x89, 0xEC, 0x5D, 0xC3,
];

#[test]
fn compiles_bare_return() {
    let f = func("main", &[], vec![instr("ret", None, &[], None)]);
    let p = Program { functions: vec![f.clone()] };
    let a = compile(&p, &f, HOSTS, None).unwrap();
    let mut expect = SETUP_EMPTY.to_vec();
    expect.extend_from_slice(&RET_NONE);
    expect.extend_from_slice(&RET_NONE);
    assert_eq!(a.code, expect);
    assert_eq!(a.start, 0);
    assert_eq!(a.osr_start, None);
}

#[test]
fn frame_slots_in_first_seen_order() {
    let f = func(
        "f",
        &["a", "b"],
        vec![
            konst("c", InstrType::VBool(true), "bool"),
            instr("add", Some("a"), &["a", "b"], Some("int")),
            konst("d", InstrType::VInt(1), "int"),
        ],
    );
    let lay = frame_layout(&f);
    assert_eq!(lay.vars, vec![s("a"), s("b"), s("c"), s("d")]);
    assert_eq!(lay.bools, vec![false, false, true, false]);
}

#[test]
fn parameters_copied_from_argument_words() {
    let f = func("f", &["x"], vec![instr("ret", None, &["x"], None)]);
    let p = Program { functions: vec![f.clone()] };
    let a = compile(&p, &f, HOSTS, None).unwrap();
    // frame of one variable: 16 * ((1 + 2) / 2) = 16 bytes
    assert_eq!(&a.code[7..11], &[0x10, 0, 0, 0]);
    // mov rax, [rsi + 0]; mov [rbp - 16], rax
    assert_eq!(&a.code[18..32], &[0x48, 0x8B, 0x86, 0, 0, 0, 0, 0x48, 0x89, 0x85, 0xF0, 0xFF, 0xFF, 0xFF]);
    // ret x: mov rax, 1; mov rdx, [rbp - 16]; leave; ret
    assert_eq!(
        &a.code[32..51],
        &[0x48, 0xC7, 0xC0, 1, 0, 0, 0, 0x48, 0x8B, 0x95, 0xF0, 0xFF, 0xFF, 0xFF, 0x48, 0x89, 0xEC, 0x5D, 0xC3]
    );
}

#[test]
fn arithmetic_lowering() {
    let f = func(
        "main",
        &[],
        vec![
            konst("a", InstrType::VInt(7), "int"),
            konst("b", InstrType::VInt(5), "int"),
            instr("sub", Some("c"), &["a", "b"], Some("int")),
        ],
    );
    let p = Program { functions: vec![f.clone()] };
    let a = compile(&p, &f, HOSTS, None).unwrap();
    // three variables: 16 * ((3 + 2) / 2) = 32 bytes
    assert_eq!(&a.code[7..11], &[0x20, 0, 0, 0]);
    // const a = 7: mov rax, 7; mov [rbp - 16], rax
    assert_eq!(
        &a.code[18..35],
        &[0x48, 0xB8, 7, 0, 0, 0, 0, 0, 0, 0, 0x48, 0x89, 0x85, 0xF0, 0xFF, 0xFF, 0xFF]
    );
    // c = a - b: mov rax, [rbp-16]; sub rax, [rbp-24]; mov [rbp-32], rax
    assert_eq!(
        &a.code[52..73],
        &[
            0x48, 0x8B, 0x85, 0xF0, 0xFF, 0xFF, 0xFF, 0x48, 0x2B, 0x85, 0xE8, 0xFF, 0xFF, 0xFF, 0x48, 0x89,
            0x85, 0xE0, 0xFF, 0xFF, 0xFF
        ]
    );
    assert_eq!(a.code.len(), 18 + 17 + 17 + 21 + 19);
}

#[test]
fn comparison_sets_byte() {
    let f = func(
        "main",
        &[],
        vec![
            konst("x", InstrType::VInt(3), "int"),
            konst("y", InstrType::VInt(4), "int"),
            instr("lt", Some("c"), &["x", "y"], Some("bool")),
        ],
    );
    let p = Program { functions: vec![f.clone()] };
    let a = compile(&p, &f, HOSTS, None).unwrap();
    // cmp rax, [rbp-24]; setl al; movzx rax, al
    assert_eq!(
        &a.code[59..73],
        &[0x48, 0x3B, 0x85, 0xE8, 0xFF, 0xFF, 0xFF, 0x0F, 0x9C, 0xC0, 0x48, 0x0F, 0xB6, 0xC0]
    );
}

#[test]
fn forward_and_backward_labels_resolve() {
    let f = func(
        "main",
        &[],
        vec![
            instr("jmp", None, &["fwd"], None),
            instr("nop", None, &[], None),
            label("fwd"),
            label("back"),
            instr("nop", None, &[], None),
            instr("jmp", None, &["back"], None),
        ],
    );
    let p = Program { functions: vec![f.clone()] };
    let a = compile(&p, &f, HOSTS, None).unwrap();
    let body = &a.code[18..];
    // jmp at 0 ends at 5; the label sits at 6
    assert_eq!(&body[0..5], &[0xE9, 1, 0, 0, 0]);
    assert_eq!(body[5], 0x90);
    assert_eq!(body[6], 0x90);
    // jmp at 7 ends at 12; back to 6
    assert_eq!(&body[7..12], &[0xE9, 0xFA, 0xFF, 0xFF, 0xFF]);
}

#[test]
fn print_picks_printer_by_recorded_type() {
    let f = func(
        "main",
        &[],
        vec![
            konst("b", InstrType::VBool(true), "bool"),
            konst("i", InstrType::VInt(3), "int"),
            instr("print", None, &["b", "i"], None),
        ],
    );
    let p = Program { functions: vec![f.clone()] };
    let a = compile(&p, &f, HOSTS, None).unwrap();
    let print = &a.code[18 + 34..18 + 34 + 50];
    assert_eq!(&print[0..3], &[0x48, 0x8B, 0xBD]);
    assert_eq!(&print[7..9], &[0x48, 0xB8]);
    assert_eq!(&print[9..17], &HOSTS.print_bool.to_le_bytes());
    assert_eq!(&print[17..19], &[0xFF, 0xD0]);
    assert_eq!(&print[28..36], &HOSTS.print_int.to_le_bytes());
    assert_eq!(&print[40..48], &HOSTS.print_newline.to_le_bytes());
}

#[test]
fn call_passes_callee_index_and_result() {
    let helper = func(
        "helper",
        &[],
        vec![instr("call", Some("v"), &["leaf"], Some("int")), instr("ret", None, &["v"], None)],
    );
    let leaf = func("leaf", &[], vec![konst("k", InstrType::VInt(42), "int"), instr("ret", None, &["k"], None)]);
    let main = func("main", &[], vec![instr("call", Some("r"), &["helper"], Some("int"))]);
    let p = Program { functions: vec![main, helper.clone(), leaf] };
    let a = compile(&p, &helper, HOSTS, None).unwrap();
    let call = &a.code[18..18 + 53];
    // sub rsp, 16 * ((0 + 1) / 2) + 16
    assert_eq!(&call[0..7], &[0x48, 0x81, 0xEC, 16, 0, 0, 0]);
    // mov rdi, [rbp - 8]
    assert_eq!(&call[7..14], &[0x48, 0x8B, 0xBD, 0xF8, 0xFF, 0xFF, 0xFF]);
    // mov rsi, 2 (the index of leaf)
    assert_eq!(&call[14..24], &[0x48, 0xBE, 2, 0, 0, 0, 0, 0, 0, 0]);
    assert_eq!(&call[24..27], &[0x48, 0x89, 0xE2]);
    assert_eq!(&call[29..37], &HOSTS.call.to_le_bytes());
    // mov [rbp - 16], rdx; add rsp, 16
    assert_eq!(&call[39..53], &[0x48, 0x89, 0x95, 0xF0, 0xFF, 0xFF, 0xFF, 0x48, 0x81, 0xC4, 16, 0, 0, 0]);
}

#[test]
fn osr_entry_restores_frame_and_jumps() {
    let f = func(
        "main",
        &[],
        vec![
            konst("x", InstrType::VInt(0), "int"),
            label("loop"),
            instr("ret", None, &["x"], None),
        ],
    );
    let p = Program { functions: vec![f.clone()] };
    let mut env = Env::new();
    env.put(&s("x"), Value::Int(5));
    let a = compile(&p, &f, HOSTS, Some((&env, &s("loop")))).unwrap();
    assert_eq!(a.osr_start, Some(0));
    assert_eq!(a.start, 18 + 17 + 5);
    // mov rax, 5; mov [rbp - 16], rax
    assert_eq!(
        &a.code[18..35],
        &[0x48, 0xB8, 5, 0, 0, 0, 0, 0, 0, 0, 0x48, 0x89, 0x85, 0xF0, 0xFF, 0xFF, 0xFF]
    );
    // jump over the normal entry (18) to the label (body offset 17)
    assert_eq!(&a.code[35..40], &[0xE9, 35, 0, 0, 0]);
    assert_eq!(a.code[40 + 18 + 17], 0x48);
}

#[test]
fn compile_errors() {
    let p = Program { functions: vec![] };
    let unknown_var = func("main", &[], vec![instr("print", None, &["q"], None)]);
    assert_eq!(compile(&p, &unknown_var, HOSTS, None).err(), Some(CompileError::UnknownVariable));
    let unknown_label = func("main", &[], vec![instr("jmp", None, &["q"], None)]);
    assert_eq!(compile(&p, &unknown_label, HOSTS, None).err(), Some(CompileError::UnknownLabel));
    let unknown_fn = func("main", &[], vec![instr("call", None, &["q"], None)]);
    assert_eq!(compile(&p, &unknown_fn, HOSTS, None).err(), Some(CompileError::UnknownFunction));
    let two = Program { functions: vec![func("g", &["a", "b"], vec![])] };
    let short_call = func("main", &[], vec![konst("x", InstrType::VInt(1), "int"), instr("call", None, &["g", "x"], None)]);
    assert_eq!(compile(&two, &short_call, HOSTS, None).err(), Some(CompileError::MissingArgument));
    let mut no_value = konst("x", InstrType::VInt(1), "int");
    no_value.value = None;
    let malformed = func("main", &[], vec![no_value]);
    assert_eq!(compile(&p, &malformed, HOSTS, None).err(), Some(CompileError::Malformed));
    let env = Env::new();
    let plain = func("main", &[], vec![instr("ret", None, &[], None)]);
    assert_eq!(compile(&p, &plain, HOSTS, Some((&env, &s("none")))).err(), Some(CompileError::UnknownLabel));
}

#[test]
fn method_compiler_matches_compile() {
    let leaf = func("leaf", &[], vec![konst("k", InstrType::VInt(42), "int"), instr("ret", None, &["k"], None)]);
    let main = func("main", &[], vec![instr("call", Some("r"), &["leaf"], Some("int"))]);
    let p = Program { functions: vec![main.clone(), leaf] };
    let c = Compiler::new(p.clone(), HOSTS);
    assert_eq!(c.index_of(&s("leaf")), Some(1));
    assert_eq!(c.index_of(&s("none")), None);
    let a = c.compile(&main).unwrap();
    let b = compile(&p, &main, HOSTS, None).unwrap();
    assert_eq!(a.code, b.code);
    assert_eq!(a.start, 0);
}
