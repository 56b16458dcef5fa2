use vstd::prelude::*;
use crate::env::{Env, Value};
use crate::interpreter::{
    arg_name, arg_list, find_fn, function_index, label_index, lemma_find_fn_found,
    lemma_label_index_found, lit_value,
    params_of, Interpreter,
};
use crate::layout::{
    frame_layout, frame_vars, find_name, lemma_param_has_slot, lemma_position_found, position,
    recorded_type, Layout,
};
use crate::program::{Function, InstrType, Instruction, OpCode, Param, Program, str_is};
use crate::x86::{
    call_rax, emit2, emit3, emit4, emit_frame_setup, emit_idiv_slot, emit_imul_slot, emit_jmp_rel,
    emit_jne_rel, emit_leave_ret, emit_load_arg, emit_mov_imm32, emit_mov_imm64,
    emit_rbp_op, emit_rsp_adjust, emit_setcc_rax, emit_store_outgoing, emit_test_slot_one, emit_u8,
    frame_setup, idiv_slot, imul_slot, jmp_rel, jne_rel, leave_ret, load_arg, mov_imm32,
    mov_imm64, rbp_op, rdx_from_rsp, rsp_adjust, setcc_rax, slot_disp, slot_displacement,
    store_outgoing, test_slot_one, xor_rax_one, MAX_SLOTS, RM_RAX, RM_RDI, RM_RDX,
};

verus! {

/// Addresses of the host routines that compiled code calls: the runtime's
/// call entry `(runtime, callee index, argument words) -> (has value, value)`,
/// and the three printers.
#[derive(Clone, Copy, Debug, PartialEq, Eq, Structural)]
pub struct Hosts {
    pub call: u64,
    pub print_int: u64,
    pub print_bool: u64,
    pub print_newline: u64,
}

/// Why a function could not be compiled.
#[derive(Clone, Copy, Debug, PartialEq, Eq, Structural)]
pub enum CompileError {
    /// An instruction lacks operands, a destination or a literal, or names an
    /// unknown operator.
    Malformed,
    /// An operand that is neither a parameter nor a destination.
    UnknownVariable,
    /// A jump, or the on-stack-replacement target, names no label of the function.
    UnknownLabel,
    /// A call names no function of the program.
    UnknownFunction,
    /// A call passes fewer arguments than its callee has parameters.
    MissingArgument,
    /// The frame or the code exceeds what 32-bit displacements address.
    TooLarge,
}

/// The most code bytes a function body may take.
pub const MAX_CODE: u64 = 0x1000_0000;

/// Extra bytes reserved below a call's outgoing argument words.
pub const CALL_SCRATCH: u64 = 16;

/// A 32-bit two's-complement displacement.
pub open spec fn rel32(x: int) -> u32 {
    if x >= 0 {
        x as u32
    } else {
        (0x1_0000_0000 + x) as u32
    }
}

/// Bytes a frame reserves below the saved rbp for `n` variables and the
/// runtime pointer, rounded up to 16.
pub open spec fn frame_bytes(n: int) -> int {
    16 * ((n + 2) / 2)
}

/// Bytes a call reserves for `n` outgoing argument words.
pub open spec fn outgoing_bytes(n: int) -> int {
    16 * ((n + 1) / 2) + CALL_SCRATCH
}

pub open spec fn operand_disp(vars: Seq<String>, ins: Instruction, k: int) -> Result<u32, CompileError> {
    match arg_name(ins, k) {
        None => Err(CompileError::Malformed),
        Some(n) => match position(vars, n) {
            None => Err(CompileError::UnknownVariable),
            Some(j) => Ok(slot_disp(j + 1)),
        },
    }
}

pub open spec fn dest_disp(vars: Seq<String>, ins: Instruction) -> Result<u32, CompileError> {
    match ins.dest {
        None => Err(CompileError::Malformed),
        Some(d) => match position(vars, d@) {
            None => Err(CompileError::UnknownVariable),
            Some(j) => Ok(slot_disp(j + 1)),
        },
    }
}

/// What an integer operator does to rax with its right operand at `b`.
pub open spec fn int_op_code(op: Seq<char>, b: u32) -> Option<Seq<u8>> {
    if op == "add"@ {
        Some(rbp_op(0x03, RM_RAX, b))
    } else if op == "sub"@ {
        Some(rbp_op(0x2B, RM_RAX, b))
    } else if op == "mul"@ {
        Some(imul_slot(b))
    } else if op == "div"@ {
        Some(idiv_slot(b))
    } else if op == "eq"@ {
        Some(rbp_op(0x3B, RM_RAX, b) + setcc_rax(0x94))
    } else if op == "lt"@ {
        Some(rbp_op(0x3B, RM_RAX, b) + setcc_rax(0x9C))
    } else if op == "gt"@ {
        Some(rbp_op(0x3B, RM_RAX, b) + setcc_rax(0x9F))
    } else if op == "le"@ {
        Some(rbp_op(0x3B, RM_RAX, b) + setcc_rax(0x9E))
    } else if op == "ge"@ {
        Some(rbp_op(0x3B, RM_RAX, b) + setcc_rax(0x9D))
    } else {
        None
    }
}

pub open spec fn int_op_size(op: Seq<char>) -> int {
    if op == "mul"@ {
        8
    } else if op == "div"@ {
        9
    } else if op == "add"@ || op == "sub"@ {
        7
    } else {
        14
    }
}

pub open spec fn bool_op_code(op: Seq<char>) -> Option<u8> {
    if op == "and"@ {
        Some(0x23u8)
    } else if op == "or"@ {
        Some(0x0Bu8)
    } else {
        None
    }
}

/// Calls to the printers for `names`, each chosen by the variable's recorded type.
pub open spec fn print_calls(vars: Seq<String>, bools: Seq<bool>, h: Hosts, names: Seq<String>) -> Result<
    Seq<u8>,
    CompileError,
>
    decreases names.len(),
{
    if names.len() == 0 {
        Ok(seq![])
    } else {
        match print_calls(vars, bools, h, names.drop_last()) {
            Err(e) => Err(e),
            Ok(b) => match position(vars, names.last()@) {
                None => Err(CompileError::UnknownVariable),
                Some(j) => Ok(b + (rbp_op(0x8B, RM_RDI, slot_disp(j + 1)) + mov_imm64(
                    0xB8,
                    if bools[j] {
                        h.print_bool
                    } else {
                        h.print_int
                    },
                ) + call_rax())),
            },
        }
    }
}

/// Copies of the actual arguments `actuals[1..]` into the outgoing words at `[rsp + 8 i]`.
pub open spec fn outgoing_args(vars: Seq<String>, actuals: Seq<String>, n: int) -> Result<
    Seq<u8>,
    CompileError,
>
    decreases n,
{
    if n <= 0 {
        Ok(seq![])
    } else {
        match outgoing_args(vars, actuals, n - 1) {
            Err(e) => Err(e),
            Ok(b) => match position(vars, actuals[n]@) {
                None => Err(CompileError::UnknownVariable),
                Some(j) => Ok(b + (rbp_op(0x8B, RM_RAX, slot_disp(j + 1)) + store_outgoing(
                    (8 * (n - 1)) as u32,
                ))),
            },
        }
    }
}

/// Bytes that `ins` takes, whatever its operands resolve to.
pub open spec fn instr_size(ins: Instruction) -> int {
    if ins.label is Some {
        0
    } else {
        match ins.op {
            None => 0,
            Some(OpCode::Nop) => 1,
            Some(OpCode::Const) => 17,
            Some(OpCode::Id) => 14,
            Some(OpCode::BinOp(op)) => 14 + int_op_size(op@),
            Some(OpCode::BinOpBool(_)) => 21,
            Some(OpCode::UnOpBool(_)) => 18,
            Some(OpCode::Print) => 19 * (arg_list(ins).len() as int) + 12,
            Some(OpCode::Jmp) => 5,
            Some(OpCode::Br) => 22,
            Some(OpCode::Ret) => 19,
            Some(OpCode::Call) => 46 + 15 * (arg_list(ins).len() as int - 1) + if ins.dest is Some {
                7int
            } else {
                0
            },
        }
    }
}

pub open spec fn body_size(instrs: Seq<Instruction>) -> int
    decreases instrs.len(),
{
    if instrs.len() == 0 {
        0
    } else {
        body_size(instrs.drop_last()) + instr_size(instrs.last())
    }
}

/// Where label `l` stands in the body: at the code of its first marker.
pub open spec fn label_at(instrs: Seq<Instruction>, l: Seq<char>) -> Option<int> {
    match label_index(instrs, l) {
        Some(i) => Some(body_size(instrs.take(i))),
        None => None,
    }
}

/// The jump to label `l` whose rel32 field ends at body offset `end`.
pub open spec fn jump_rel(instrs: Seq<Instruction>, l: Seq<char>, end: int) -> Result<u32, CompileError> {
    match label_at(instrs, l) {
        Some(t) => Ok(rel32(t - end)),
        None => Err(CompileError::UnknownLabel),
    }
}

pub open spec fn enc_const(vars: Seq<String>, ins: Instruction) -> Result<Seq<u8>, CompileError> {
    match dest_disp(vars, ins) {
        Err(e) => Err(e),
        Ok(d) => match ins.value {
            None => Err(CompileError::Malformed),
            Some(l) => Ok(mov_imm64(0xB8, lit_value(l).word() as u64) + rbp_op(0x89, RM_RAX, d)),
        },
    }
}

pub open spec fn enc_id(vars: Seq<String>, ins: Instruction) -> Result<Seq<u8>, CompileError> {
    match operand_disp(vars, ins, 0) {
        Err(e) => Err(e),
        Ok(a) => match dest_disp(vars, ins) {
            Err(e) => Err(e),
            Ok(d) => Ok(rbp_op(0x8B, RM_RAX, a) + rbp_op(0x89, RM_RAX, d)),
        },
    }
}

pub open spec fn enc_int_binop(vars: Seq<String>, ins: Instruction, op: Seq<char>) -> Result<
    Seq<u8>,
    CompileError,
> {
    match operand_disp(vars, ins, 0) {
        Err(e) => Err(e),
        Ok(a) => match operand_disp(vars, ins, 1) {
            Err(e) => Err(e),
            Ok(b) => match dest_disp(vars, ins) {
                Err(e) => Err(e),
                Ok(d) => match int_op_code(op, b) {
                    None => Err(CompileError::Malformed),
                    Some(c) => Ok(rbp_op(0x8B, RM_RAX, a) + c + rbp_op(0x89, RM_RAX, d)),
                },
            },
        },
    }
}

pub open spec fn enc_bool_binop(vars: Seq<String>, ins: Instruction, op: Seq<char>) -> Result<
    Seq<u8>,
    CompileError,
> {
    match operand_disp(vars, ins, 0) {
        Err(e) => Err(e),
        Ok(a) => match operand_disp(vars, ins, 1) {
            Err(e) => Err(e),
            Ok(b) => match dest_disp(vars, ins) {
                Err(e) => Err(e),
                Ok(d) => match bool_op_code(op) {
                    None => Err(CompileError::Malformed),
                    Some(c) => Ok(rbp_op(0x8B, RM_RAX, a) + rbp_op(c, RM_RAX, b) + rbp_op(0x89, RM_RAX, d)),
                },
            },
        },
    }
}

pub open spec fn enc_not(vars: Seq<String>, ins: Instruction, op: Seq<char>) -> Result<Seq<u8>, CompileError> {
    match operand_disp(vars, ins, 0) {
        Err(e) => Err(e),
        Ok(a) => match dest_disp(vars, ins) {
            Err(e) => Err(e),
            Ok(d) => if op == "not"@ {
                Ok(rbp_op(0x8B, RM_RAX, a) + xor_rax_one() + rbp_op(0x89, RM_RAX, d))
            } else {
                Err(CompileError::Malformed)
            },
        },
    }
}

pub open spec fn enc_print(vars: Seq<String>, bools: Seq<bool>, h: Hosts, ins: Instruction) -> Result<
    Seq<u8>,
    CompileError,
> {
    match print_calls(vars, bools, h, arg_list(ins)) {
        Err(e) => Err(e),
        Ok(b) => Ok(b + (mov_imm64(0xB8, h.print_newline) + call_rax())),
    }
}

pub open spec fn enc_jmp(instrs: Seq<Instruction>, ins: Instruction, at: int) -> Result<Seq<u8>, CompileError> {
    match arg_name(ins, 0) {
        None => Err(CompileError::Malformed),
        Some(l) => match jump_rel(instrs, l, at + 5) {
            Err(e) => Err(e),
            Ok(r) => Ok(jmp_rel(r)),
        },
    }
}

pub open spec fn enc_br(vars: Seq<String>, instrs: Seq<Instruction>, ins: Instruction, at: int) -> Result<
    Seq<u8>,
    CompileError,
> {
    match operand_disp(vars, ins, 0) {
        Err(e) => Err(e),
        Ok(c) => match (arg_name(ins, 1), arg_name(ins, 2)) {
            (Some(t), Some(f)) => match jump_rel(instrs, t, at + 17) {
                Err(e) => Err(e),
                Ok(rt) => match jump_rel(instrs, f, at + 22) {
                    Err(e) => Err(e),
                    Ok(rf) => Ok(test_slot_one(c) + jne_rel(rt) + jmp_rel(rf)),
                },
            },
            _ => Err(CompileError::Malformed),
        },
    }
}

pub open spec fn enc_ret(vars: Seq<String>, ins: Instruction) -> Result<Seq<u8>, CompileError> {
    if arg_list(ins).len() == 0 {
        Ok(mov_imm32(0xC0, 0) + mov_imm32(0xC2, 0) + leave_ret())
    } else {
        match operand_disp(vars, ins, 0) {
            Err(e) => Err(e),
            Ok(a) => Ok(mov_imm32(0xC0, 1) + rbp_op(0x8B, RM_RDX, a) + leave_ret()),
        }
    }
}

/// A call: reserve the outgoing words, fill them, call the runtime's entry
/// with `(runtime pointer, callee index, words)`, keep `rdx` as the result.
pub open spec fn enc_call(p: Program, vars: Seq<String>, h: Hosts, ins: Instruction) -> Result<
    Seq<u8>,
    CompileError,
> {
    match arg_name(ins, 0) {
        None => Err(CompileError::Malformed),
        Some(name) => match find_fn(p.functions@, name) {
            None => Err(CompileError::UnknownFunction),
            Some(idx) => {
                let n = arg_list(ins).len() as int - 1;
                let bytes = outgoing_bytes(n) as u32;
                if n < params_of(p.functions@[idx]).len() {
                    Err(CompileError::MissingArgument)
                } else {
                    match outgoing_args(vars, arg_list(ins), n) {
                        Err(e) => Err(e),
                        Ok(moves) => {
                            let pre = rsp_adjust(0xEC, bytes) + moves + rbp_op(0x8B, RM_RDI, slot_disp(0))
                                + mov_imm64(0xBE, idx as u64) + rdx_from_rsp() + mov_imm64(0xB8, h.call)
                                + call_rax();
                            match ins.dest {
                                None => Ok(pre + rsp_adjust(0xC4, bytes)),
                                Some(_) => match dest_disp(vars, ins) {
                                    Err(e) => Err(e),
                                    Ok(d) => Ok(pre + rbp_op(0x89, RM_RDX, d) + rsp_adjust(0xC4, bytes)),
                                },
                            }
                        },
                    }
                }
            },
        },
    }
}

/// The code of one instruction placed at body offset `at`.
pub open spec fn enc_instr(
    p: Program,
    vars: Seq<String>,
    bools: Seq<bool>,
    h: Hosts,
    instrs: Seq<Instruction>,
    ins: Instruction,
    at: int,
) -> Result<Seq<u8>, CompileError> {
    if ins.label is Some {
        Ok(seq![])
    } else {
        match ins.op {
            None => Ok(seq![]),
            Some(OpCode::Nop) => Ok(seq![0x90u8]),
            Some(OpCode::Const) => enc_const(vars, ins),
            Some(OpCode::Id) => enc_id(vars, ins),
            Some(OpCode::BinOp(op)) => enc_int_binop(vars, ins, op@),
            Some(OpCode::BinOpBool(op)) => enc_bool_binop(vars, ins, op@),
            Some(OpCode::UnOpBool(op)) => enc_not(vars, ins, op@),
            Some(OpCode::Print) => enc_print(vars, bools, h, ins),
            Some(OpCode::Jmp) => enc_jmp(instrs, ins, at),
            Some(OpCode::Br) => enc_br(vars, instrs, ins, at),
            Some(OpCode::Ret) => enc_ret(vars, ins),
            Some(OpCode::Call) => enc_call(p, vars, h, ins),
        }
    }
}

/// The code of the first `k` instructions of `instrs`, laid out from body offset 0.
pub open spec fn enc_body(
    p: Program,
    vars: Seq<String>,
    bools: Seq<bool>,
    h: Hosts,
    instrs: Seq<Instruction>,
    k: int,
) -> Result<
    Seq<u8>,
    CompileError,
>
    decreases k,
{
    if k <= 0 {
        Ok(seq![])
    } else {
        match enc_body(p, vars, bools, h, instrs, k - 1) {
            Err(e) => Err(e),
            Ok(b) => match enc_instr(p, vars, bools, h, instrs, instrs[k - 1], body_size(instrs.take(k - 1))) {
                Err(e) => Err(e),
                Ok(c) => Ok(b + c),
            },
        }
    }
}

/// Copies of the incoming argument words `[rsi + 8 i]` into the parameters' slots.
pub open spec fn param_loads(vars: Seq<String>, params: Seq<Param>) -> Seq<u8>
    decreases params.len(),
{
    if params.len() == 0 {
        seq![]
    } else {
        let i = params.len() - 1;
        param_loads(vars, params.drop_last()) + load_arg((8 * i) as u32) + rbp_op(
            0x89,
            RM_RAX,
            slot_disp(position(vars, params[i].name@)->0 + 1),
        )
    }
}

/// The normal entry: frame setup and parameter copies.
pub open spec fn entry_code(vars: Seq<String>, f: Function) -> Seq<u8> {
    frame_setup(frame_bytes(vars.len() as int) as u32) + param_loads(vars, params_of(f))
}

/// Stores of the frame's current values into the slots of the first `k` variables.
pub open spec fn restores(vars: Seq<String>, env: Map<Seq<char>, Value>, k: int) -> Seq<u8>
    decreases k,
{
    if k <= 0 {
        seq![]
    } else {
        let n = vars[k - 1]@;
        restores(vars, env, k - 1) + if env.contains_key(n) {
            mov_imm64(0xB8, env[n].word() as u64) + rbp_op(0x89, RM_RAX, slot_disp(k))
        } else {
            seq![]
        }
    }
}

/// The on-stack-replacement entry, placed before the normal entry: frame
/// setup, the frame's values as immediates, and a jump to the label.
pub open spec fn osr_prefix(vars: Seq<String>, env: Map<Seq<char>, Value>, rel: u32) -> Seq<u8> {
    frame_setup(frame_bytes(vars.len() as int) as u32) + restores(vars, env, vars.len() as int)
        + jmp_rel(rel)
}

/// The code after the last instruction: an argument-less return.
pub open spec fn epilogue() -> Seq<u8> {
    mov_imm32(0xC0, 0) + mov_imm32(0xC2, 0) + leave_ret()
}

/// Which variables of `f` print as booleans, by slot order.
pub open spec fn frame_bools(f: Function) -> Seq<bool> {
    frame_vars(f).map(|k: int, v: String| recorded_type(f.instrs@, v@) == Some("bool"@))
}

/// The code of `f`, with the offset of its normal entry and, when an
/// on-stack-replacement frame and label are given, of the entry that resumes
/// at that label with that frame's values.
pub open spec fn compiled(
    p: Program,
    f: Function,
    h: Hosts,
    osr: Option<(Map<Seq<char>, Value>, Seq<char>)>,
) -> Result<(Seq<u8>, int, Option<usize>), CompileError> {
    let vars = frame_vars(f);
    let bools = frame_bools(f);
    if vars.len() >= MAX_SLOTS || params_of(f).len() >= MAX_SLOTS || body_size(f.instrs@) > MAX_CODE {
        Err(CompileError::TooLarge)
    } else {
        match enc_body(p, vars, bools, h, f.instrs@, f.instrs@.len() as int) {
            Err(e) => Err(e),
            Ok(body) => {
                let entry = entry_code(vars, f);
                match osr {
                    None => Ok((entry + body + epilogue(), 0, None)),
                    Some((env, l)) => match label_at(f.instrs@, l) {
                        None => Err(CompileError::UnknownLabel),
                        Some(t) => {
                            let pre = osr_prefix(vars, env, rel32(entry.len() + t));
                            Ok((pre + entry + body + epilogue(), pre.len() as int, Some(0usize)))
                        },
                    },
                }
            },
        }
    }
}

proof fn lemma_print_calls_prefix(vars: Seq<String>, bools: Seq<bool>, h: Hosts, names: Seq<String>, k: int)
    requires
        0 <= k <= names.len(),
        print_calls(vars, bools, h, names.take(k)) is Err,
    ensures
        print_calls(vars, bools, h, names) == print_calls(vars, bools, h, names.take(k)),
    decreases names.len(),
{
    if k == names.len() {
        assert(names.take(k) =~= names);
    } else {
        assert(names.drop_last().take(k) =~= names.take(k));
        lemma_print_calls_prefix(vars, bools, h, names.drop_last(), k);
    }
}

proof fn lemma_outgoing_err(vars: Seq<String>, actuals: Seq<String>, k: int, n: int)
    requires
        0 <= k <= n,
        outgoing_args(vars, actuals, k) is Err,
    ensures
        outgoing_args(vars, actuals, n) == outgoing_args(vars, actuals, k),
    decreases n,
{
    if k < n {
        lemma_outgoing_err(vars, actuals, k, n - 1);
    }
}

/// The slot displacement of variable `n`.
fn var_slot(vars: &Vec<String>, n: &String) -> (r: Result<u32, CompileError>)
    requires
        vars@.len() < MAX_SLOTS,
    ensures
        match position(vars@, n@) {
            None => r == Err::<u32, CompileError>(CompileError::UnknownVariable),
            Some(j) => r == Ok::<u32, CompileError>(slot_disp(j + 1)),
        },
{
    match find_name(vars, n) {
        None => Err(CompileError::UnknownVariable),
        Some(j) => {
            proof {
                lemma_position_found(vars@, n@);
            }
            Ok(slot_displacement(j as u64 + 1))
        },
    }
}

fn operand_slot(vars: &Vec<String>, ins: &Instruction, k: usize) -> (r: Result<u32, CompileError>)
    requires
        vars@.len() < MAX_SLOTS,
    ensures
        r == operand_disp(vars@, *ins, k as int),
{
    match &ins.args {
        Some(a) => if k < a.len() {
            var_slot(vars, &a[k])
        } else {
            Err(CompileError::Malformed)
        },
        None => Err(CompileError::Malformed),
    }
}

fn dest_slot(vars: &Vec<String>, ins: &Instruction) -> (r: Result<u32, CompileError>)
    requires
        vars@.len() < MAX_SLOTS,
    ensures
        r == dest_disp(vars@, *ins),
{
    match &ins.dest {
        Some(d) => var_slot(vars, d),
        None => Err(CompileError::Malformed),
    }
}

fn emit_print_calls(code: &mut Vec<u8>, lay: &Layout, h: Hosts, names: &Vec<String>) -> (r: Result<
    (),
    CompileError,
>)
    requires
        lay.vars@.len() < MAX_SLOTS,
        lay.bools@.len() == lay.vars@.len(),
    ensures
        match print_calls(lay.vars@, lay.bools@, h, names@) {
            Ok(b) => r is Ok && final(code)@ == old(code)@ + b,
            Err(e) => r == Err::<(), CompileError>(e),
        },
{
    let ghost vars = lay.vars@;
    let ghost bools = lay.bools@;
    let ghost mut emitted: Seq<u8> = seq![];
    assert(names@.take(0) =~= Seq::<String>::empty());
    assert(old(code)@ + Seq::<u8>::empty() =~= old(code)@);
    let mut i: usize = 0;
    while i < names.len()
        invariant
            lay.vars@.len() < MAX_SLOTS,
            lay.bools@.len() == lay.vars@.len(),
            vars == lay.vars@,
            bools == lay.bools@,
            i <= names@.len(),
            code@ == old(code)@ + emitted,
            print_calls(vars, bools, h, names@.take(i as int)) == Ok::<Seq<u8>, CompileError>(emitted),
        decreases names@.len() - i,
    {
        let ghost t = names@.take(i as int + 1);
        assert(t.drop_last() =~= names@.take(i as int));
        match find_name(&lay.vars, &names[i]) {
            None => {
                proof {
                    lemma_print_calls_prefix(vars, bools, h, names@, i as int + 1);
                }
                return Err(CompileError::UnknownVariable);
            },
            Some(j) => {
                proof {
                    lemma_position_found(vars, names@[i as int]@);
                }
                let d = slot_displacement(j as u64 + 1);
                let target = if lay.bools[j] {
                    h.print_bool
                } else {
                    h.print_int
                };
                let ghost before = code@;
                emit_rbp_op(code, 0x8B, RM_RDI, d);
                emit_mov_imm64(code, 0xB8, target);
                emit_u8(code, 0xFF);
                emit_u8(code, 0xD0);
                proof {
                    let piece = rbp_op(0x8B, RM_RDI, d) + mov_imm64(0xB8, target) + call_rax();
                    assert(t.last() == names@[i as int]);
                    assert(position(vars, t.last()@) == Some(j as int));
                    assert(print_calls(vars, bools, h, t) == Ok::<Seq<u8>, CompileError>(emitted + piece));
                    assert(code@ =~= before + piece);
                    assert(old(code)@ + (emitted + piece) =~= before + piece);
                    emitted = emitted + piece;
                }
            },
        }
        i += 1;
    }
    assert(names@.take(i as int) =~= names@);
    Ok(())
}

fn emit_outgoing(code: &mut Vec<u8>, vars: &Vec<String>, actuals: &Vec<String>) -> (r: Result<
    (),
    CompileError,
>)
    requires
        vars@.len() < MAX_SLOTS,
        1 <= actuals@.len() <= MAX_CODE,
    ensures
        match outgoing_args(vars@, actuals@, actuals@.len() - 1) {
            Ok(b) => r is Ok && final(code)@ == old(code)@ + b,
            Err(e) => r == Err::<(), CompileError>(e),
        },
{
    let ghost mut emitted: Seq<u8> = seq![];
    assert(old(code)@ + Seq::<u8>::empty() =~= old(code)@);
    let mut i: usize = 1;
    while i < actuals.len()
        invariant
            vars@.len() < MAX_SLOTS,
            1 <= i <= actuals@.len() <= MAX_CODE,
            code@ == old(code)@ + emitted,
            outgoing_args(vars@, actuals@, i - 1) == Ok::<Seq<u8>, CompileError>(emitted),
        decreases actuals@.len() - i,
    {
        match var_slot(vars, &actuals[i]) {
            Err(e) => {
                proof {
                    lemma_outgoing_err(vars@, actuals@, i as int, actuals@.len() - 1);
                }
                return Err(e);
            },
            Ok(d) => {
                let off: u32 = (8 * (i as u64 - 1)) as u32;
                let ghost before = code@;
                emit_rbp_op(code, 0x8B, RM_RAX, d);
                emit_store_outgoing(code, off);
                proof {
                    let piece = rbp_op(0x8B, RM_RAX, d) + store_outgoing(off);
                    assert(outgoing_args(vars@, actuals@, i as int) == Ok::<Seq<u8>, CompileError>(
                        emitted + piece,
                    ));
                    assert(code@ =~= before + piece);
                    assert(old(code)@ + (emitted + piece) =~= before + piece);
                    emitted = emitted + piece;
                }
            },
        }
        i += 1;
    }
    Ok(())
}

/// Code offsets of each instruction of the body: `starts[i]` is where
/// instruction `i` begins, and `starts[len]` the body's end.
pub open spec fn starts_ok(starts: Seq<u64>, instrs: Seq<Instruction>) -> bool {
    &&& starts.len() == instrs.len() + 1
    &&& forall|i: int|
        0 <= i <= instrs.len() ==> #[trigger] starts[i] as int == body_size(instrs.take(i))
            && starts[i] <= MAX_CODE
}

/// The rel32 field of a jump to label `l` that ends at body offset `end`.
fn jump_to(f: &Function, starts: &Vec<u64>, l: &String, end: u64) -> (r: Result<u32, CompileError>)
    requires
        starts_ok(starts@, f.instrs@),
        end <= MAX_CODE,
    ensures
        r == jump_rel(f.instrs@, l@, end as int),
{
    match Interpreter::find_label(f, l) {
        None => Err(CompileError::UnknownLabel),
        Some(i) => {
            proof {
                lemma_label_index_found(f.instrs@, l@);
            }
            let t = starts[i];
            if t >= end {
                Ok((t - end) as u32)
            } else {
                Ok((0x1_0000_0000u64 - (end - t)) as u32)
            }
        },
    }
}

fn int_op(code: &mut Vec<u8>, op: &String, b: u32) -> (r: bool)
    ensures
        match int_op_code(op@, b) {
            Some(c) => r && final(code)@ == old(code)@ + c,
            None => !r,
        },
{
    proof {
        reveal_strlit("add");
        reveal_strlit("sub");
        reveal_strlit("mul");
        reveal_strlit("div");
        reveal_strlit("eq");
        reveal_strlit("lt");
        reveal_strlit("gt");
        reveal_strlit("le");
        reveal_strlit("ge");
    }
    if str_is(op, "add") {
        emit_rbp_op(code, 0x03, RM_RAX, b);
    } else if str_is(op, "sub") {
        emit_rbp_op(code, 0x2B, RM_RAX, b);
    } else if str_is(op, "mul") {
        emit_imul_slot(code, b);
    } else if str_is(op, "div") {
        emit_idiv_slot(code, b);
    } else {
        let cc: u8 = if str_is(op, "eq") {
            0x94
        } else if str_is(op, "lt") {
            0x9C
        } else if str_is(op, "gt") {
            0x9F
        } else if str_is(op, "le") {
            0x9E
        } else if str_is(op, "ge") {
            0x9D
        } else {
            return false;
        };
        emit_rbp_op(code, 0x3B, RM_RAX, b);
        emit_setcc_rax(code, cc);
        assert(final(code)@ =~= old(code)@ + (rbp_op(0x3B, RM_RAX, b) + setcc_rax(cc)));
    }
    true
}

fn emit_const(code: &mut Vec<u8>, vars: &Vec<String>, ins: &Instruction) -> (r: Result<(), CompileError>)
    requires
        vars@.len() < MAX_SLOTS,
    ensures
        match enc_const(vars@, *ins) {
            Ok(b) => r is Ok && final(code)@ == old(code)@ + b,
            Err(e) => r == Err::<(), CompileError>(e),
        },
{
    let d = match dest_slot(vars, ins) {
        Err(e) => return Err(e),
        Ok(d) => d,
    };
    match &ins.value {
        None => Err(CompileError::Malformed),
        Some(l) => {
            let w: i64 = match l {
                InstrType::VInt(n) => *n,
                InstrType::VBool(b) => if *b {
                    1
                } else {
                    0
                },
            };
            emit_mov_imm64(code, 0xB8, w as u64);
            emit_rbp_op(code, 0x89, RM_RAX, d);
            assert(code@ =~= old(code)@ + (mov_imm64(0xB8, lit_value(*l).word() as u64) + rbp_op(
                0x89,
                RM_RAX,
                d,
            )));
            Ok(())
        },
    }
}

fn emit_id(code: &mut Vec<u8>, vars: &Vec<String>, ins: &Instruction) -> (r: Result<(), CompileError>)
    requires
        vars@.len() < MAX_SLOTS,
    ensures
        match enc_id(vars@, *ins) {
            Ok(b) => r is Ok && final(code)@ == old(code)@ + b,
            Err(e) => r == Err::<(), CompileError>(e),
        },
{
    let a = match operand_slot(vars, ins, 0) {
        Err(e) => return Err(e),
        Ok(a) => a,
    };
    let d = match dest_slot(vars, ins) {
        Err(e) => return Err(e),
        Ok(d) => d,
    };
    emit_rbp_op(code, 0x8B, RM_RAX, a);
    emit_rbp_op(code, 0x89, RM_RAX, d);
    assert(code@ =~= old(code)@ + (rbp_op(0x8B, RM_RAX, a) + rbp_op(0x89, RM_RAX, d)));
    Ok(())
}

fn emit_int_binop(code: &mut Vec<u8>, vars: &Vec<String>, ins: &Instruction, op: &String) -> (r: Result<
    (),
    CompileError,
>)
    requires
        vars@.len() < MAX_SLOTS,
    ensures
        match enc_int_binop(vars@, *ins, op@) {
            Ok(b) => r is Ok && final(code)@ == old(code)@ + b,
            Err(e) => r == Err::<(), CompileError>(e),
        },
{
    let a = match operand_slot(vars, ins, 0) {
        Err(e) => return Err(e),
        Ok(a) => a,
    };
    let b = match operand_slot(vars, ins, 1) {
        Err(e) => return Err(e),
        Ok(b) => b,
    };
    let d = match dest_slot(vars, ins) {
        Err(e) => return Err(e),
        Ok(d) => d,
    };
    emit_rbp_op(code, 0x8B, RM_RAX, a);
    if !int_op(code, op, b) {
        return Err(CompileError::Malformed);
    }
    let ghost c = int_op_code(op@, b)->0;
    emit_rbp_op(code, 0x89, RM_RAX, d);
    assert(code@ =~= old(code)@ + (rbp_op(0x8B, RM_RAX, a) + c + rbp_op(0x89, RM_RAX, d)));
    Ok(())
}

fn emit_bool_binop(code: &mut Vec<u8>, vars: &Vec<String>, ins: &Instruction, op: &String) -> (r: Result<
    (),
    CompileError,
>)
    requires
        vars@.len() < MAX_SLOTS,
    ensures
        match enc_bool_binop(vars@, *ins, op@) {
            Ok(b) => r is Ok && final(code)@ == old(code)@ + b,
            Err(e) => r == Err::<(), CompileError>(e),
        },
{
    proof {
        reveal_strlit("and");
        reveal_strlit("or");
    }
    let a = match operand_slot(vars, ins, 0) {
        Err(e) => return Err(e),
        Ok(a) => a,
    };
    let b = match operand_slot(vars, ins, 1) {
        Err(e) => return Err(e),
        Ok(b) => b,
    };
    let d = match dest_slot(vars, ins) {
        Err(e) => return Err(e),
        Ok(d) => d,
    };
    let c: u8 = if str_is(op, "and") {
        0x23
    } else if str_is(op, "or") {
        0x0B
    } else {
        return Err(CompileError::Malformed);
    };
    emit_rbp_op(code, 0x8B, RM_RAX, a);
    emit_rbp_op(code, c, RM_RAX, b);
    emit_rbp_op(code, 0x89, RM_RAX, d);
    assert(code@ =~= old(code)@ + (rbp_op(0x8B, RM_RAX, a) + rbp_op(c, RM_RAX, b) + rbp_op(
        0x89,
        RM_RAX,
        d,
    )));
    Ok(())
}

fn emit_not(code: &mut Vec<u8>, vars: &Vec<String>, ins: &Instruction, op: &String) -> (r: Result<
    (),
    CompileError,
>)
    requires
        vars@.len() < MAX_SLOTS,
    ensures
        match enc_not(vars@, *ins, op@) {
            Ok(b) => r is Ok && final(code)@ == old(code)@ + b,
            Err(e) => r == Err::<(), CompileError>(e),
        },
{
    proof {
        reveal_strlit("not");
    }
    let a = match operand_slot(vars, ins, 0) {
        Err(e) => return Err(e),
        Ok(a) => a,
    };
    let d = match dest_slot(vars, ins) {
        Err(e) => return Err(e),
        Ok(d) => d,
    };
    if !str_is(op, "not") {
        return Err(CompileError::Malformed);
    }
    emit_rbp_op(code, 0x8B, RM_RAX, a);
    emit4(code, 0x48, 0x83, 0xF0, 0x01);
    emit_rbp_op(code, 0x89, RM_RAX, d);
    assert(code@ =~= old(code)@ + (rbp_op(0x8B, RM_RAX, a) + xor_rax_one() + rbp_op(0x89, RM_RAX, d)));
    Ok(())
}

fn emit_print(code: &mut Vec<u8>, lay: &Layout, h: Hosts, ins: &Instruction) -> (r: Result<(), CompileError>)
    requires
        lay.vars@.len() < MAX_SLOTS,
        lay.bools@.len() == lay.vars@.len(),
    ensures
        match enc_print(lay.vars@, lay.bools@, h, *ins) {
            Ok(b) => r is Ok && final(code)@ == old(code)@ + b,
            Err(e) => r == Err::<(), CompileError>(e),
        },
{
    let empty: Vec<String> = Vec::new();
    let names = match &ins.args {
        Some(a) => a,
        None => &empty,
    };
    assert(names@ == arg_list(*ins));
    match emit_print_calls(code, lay, h, names) {
        Err(e) => return Err(e),
        Ok(()) => {},
    }
    let ghost mid = code@;
    let ghost b = mid.subrange(old(code)@.len() as int, mid.len() as int);
    assert(mid =~= old(code)@ + b);
    emit_mov_imm64(code, 0xB8, h.print_newline);
    emit2(code, 0xFF, 0xD0);
    assert(code@ =~= old(code)@ + (b + (mov_imm64(0xB8, h.print_newline) + call_rax())));
    Ok(())
}

fn emit_jmp(code: &mut Vec<u8>, f: &Function, starts: &Vec<u64>, ins: &Instruction, at: u64) -> (r: Result<
    (),
    CompileError,
>)
    requires
        starts_ok(starts@, f.instrs@),
        at + 5 <= MAX_CODE,
    ensures
        match enc_jmp(f.instrs@, *ins, at as int) {
            Ok(b) => r is Ok && final(code)@ == old(code)@ + b,
            Err(e) => r == Err::<(), CompileError>(e),
        },
{
    let l = match &ins.args {
        Some(a) => if a.len() >= 1 {
            &a[0]
        } else {
            return Err(CompileError::Malformed);
        },
        None => return Err(CompileError::Malformed),
    };
    let rel = match jump_to(f, starts, l, at + 5) {
        Err(e) => return Err(e),
        Ok(r) => r,
    };
    emit_jmp_rel(code, rel);
    Ok(())
}

fn emit_br(code: &mut Vec<u8>, vars: &Vec<String>, f: &Function, starts: &Vec<u64>, ins: &Instruction, at: u64) -> (r:
    Result<(), CompileError>)
    requires
        vars@.len() < MAX_SLOTS,
        starts_ok(starts@, f.instrs@),
        at + 22 <= MAX_CODE,
    ensures
        match enc_br(vars@, f.instrs@, *ins, at as int) {
            Ok(b) => r is Ok && final(code)@ == old(code)@ + b,
            Err(e) => r == Err::<(), CompileError>(e),
        },
{
    let c = match operand_slot(vars, ins, 0) {
        Err(e) => return Err(e),
        Ok(c) => c,
    };
    let (t, e) = match &ins.args {
        Some(a) => if a.len() >= 3 {
            (&a[1], &a[2])
        } else {
            return Err(CompileError::Malformed);
        },
        None => return Err(CompileError::Malformed),
    };
    let rt = match jump_to(f, starts, t, at + 17) {
        Err(e) => return Err(e),
        Ok(r) => r,
    };
    let rf = match jump_to(f, starts, e, at + 22) {
        Err(e) => return Err(e),
        Ok(r) => r,
    };
    emit_test_slot_one(code, c);
    emit_jne_rel(code, rt);
    emit_jmp_rel(code, rf);
    assert(code@ =~= old(code)@ + (test_slot_one(c) + jne_rel(rt) + jmp_rel(rf)));
    Ok(())
}

fn emit_ret(code: &mut Vec<u8>, vars: &Vec<String>, ins: &Instruction) -> (r: Result<(), CompileError>)
    requires
        vars@.len() < MAX_SLOTS,
    ensures
        match enc_ret(vars@, *ins) {
            Ok(b) => r is Ok && final(code)@ == old(code)@ + b,
            Err(e) => r == Err::<(), CompileError>(e),
        },
{
    let n: usize = match &ins.args {
        Some(a) => a.len(),
        None => 0,
    };
    if n == 0 {
        emit_mov_imm32(code, 0xC0, 0);
        emit_mov_imm32(code, 0xC2, 0);
        emit_leave_ret(code);
        assert(code@ =~= old(code)@ + (mov_imm32(0xC0, 0) + mov_imm32(0xC2, 0) + leave_ret()));
    } else {
        let a = match operand_slot(vars, ins, 0) {
            Err(e) => return Err(e),
            Ok(a) => a,
        };
        emit_mov_imm32(code, 0xC0, 1);
        emit_rbp_op(code, 0x8B, RM_RDX, a);
        emit_leave_ret(code);
        assert(code@ =~= old(code)@ + (mov_imm32(0xC0, 1) + rbp_op(0x8B, RM_RDX, a) + leave_ret()));
    }
    Ok(())
}

fn emit_call(code: &mut Vec<u8>, p: &Program, vars: &Vec<String>, h: Hosts, ins: &Instruction) -> (r: Result<
    (),
    CompileError,
>)
    requires
        vars@.len() < MAX_SLOTS,
        instr_size(*ins) <= MAX_CODE,
        ins.label is None,
        ins.op matches Some(OpCode::Call),
    ensures
        match enc_call(*p, vars@, h, *ins) {
            Ok(b) => r is Ok && final(code)@ == old(code)@ + b,
            Err(e) => r == Err::<(), CompileError>(e),
        },
{
    let actuals = match &ins.args {
        Some(a) => if a.len() >= 1 {
            a
        } else {
            return Err(CompileError::Malformed);
        },
        None => return Err(CompileError::Malformed),
    };
    let idx = match function_index(p, &actuals[0]) {
        None => return Err(CompileError::UnknownFunction),
        Some(i) => i,
    };
    proof {
        lemma_find_fn_found(p.functions@, actuals@[0]@);
    }
    let nparams: usize = match &p.functions[idx].args {
        Some(ps) => ps.len(),
        None => 0,
    };
    assert(nparams == params_of(p.functions@[idx as int]).len());
    if actuals.len() - 1 < nparams {
        return Err(CompileError::MissingArgument);
    }
    let n: u64 = actuals.len() as u64 - 1;
    let bytes: u32 = (16 * ((n + 1) / 2) + CALL_SCRATCH) as u32;
    emit_rsp_adjust(code, 0xEC, bytes);
    let ghost c1 = code@;
    match emit_outgoing(code, vars, actuals) {
        Err(e) => return Err(e),
        Ok(()) => {},
    }
    let ghost c2 = code@;
    let ghost moves = c2.subrange(c1.len() as int, c2.len() as int);
    assert(c2 =~= c1 + moves);
    emit_rbp_op(code, 0x8B, RM_RDI, slot_displacement(0));
    emit_mov_imm64(code, 0xBE, idx as u64);
    emit3(code, 0x48, 0x89, 0xE2);
    emit_mov_imm64(code, 0xB8, h.call);
    emit2(code, 0xFF, 0xD0);
    let ghost pre = rsp_adjust(0xEC, bytes) + moves + rbp_op(0x8B, RM_RDI, slot_disp(0)) + mov_imm64(
        0xBE,
        idx as u64,
    ) + rdx_from_rsp() + mov_imm64(0xB8, h.call) + call_rax();
    assert(code@ =~= old(code)@ + pre);
    match &ins.dest {
        None => {
            emit_rsp_adjust(code, 0xC4, bytes);
            assert(code@ =~= old(code)@ + (pre + rsp_adjust(0xC4, bytes)));
        },
        Some(_) => {
            let d = match dest_slot(vars, ins) {
                Err(e) => return Err(e),
                Ok(d) => d,
            };
            emit_rbp_op(code, 0x89, RM_RDX, d);
            emit_rsp_adjust(code, 0xC4, bytes);
            assert(code@ =~= old(code)@ + (pre + rbp_op(0x89, RM_RDX, d) + rsp_adjust(0xC4, bytes)));
        },
    }
    Ok(())
}

/// Emits the code of one instruction placed at body offset `at`.
fn emit_instr(
    code: &mut Vec<u8>,
    p: &Program,
    lay: &Layout,
    h: Hosts,
    f: &Function,
    starts: &Vec<u64>,
    ins: &Instruction,
    at: u64,
) -> (r: Result<(), CompileError>)
    requires
        lay.vars@.len() < MAX_SLOTS,
        lay.bools@.len() == lay.vars@.len(),
        starts_ok(starts@, f.instrs@),
        at + instr_size(*ins) <= MAX_CODE,
    ensures
        match enc_instr(*p, lay.vars@, lay.bools@, h, f.instrs@, *ins, at as int) {
            Ok(b) => r is Ok && final(code)@ == old(code)@ + b,
            Err(e) => r == Err::<(), CompileError>(e),
        },
{
    assert(old(code)@ + Seq::<u8>::empty() =~= old(code)@);
    if ins.label.is_some() {
        return Ok(());
    }
    match &ins.op {
        None => Ok(()),
        Some(OpCode::Nop) => {
            emit_u8(code, 0x90);
            Ok(())
        },
        Some(OpCode::Const) => emit_const(code, &lay.vars, ins),
        Some(OpCode::Id) => emit_id(code, &lay.vars, ins),
        Some(OpCode::BinOp(op)) => emit_int_binop(code, &lay.vars, ins, op),
        Some(OpCode::BinOpBool(op)) => emit_bool_binop(code, &lay.vars, ins, op),
        Some(OpCode::UnOpBool(op)) => emit_not(code, &lay.vars, ins, op),
        Some(OpCode::Print) => emit_print(code, lay, h, ins),
        Some(OpCode::Jmp) => emit_jmp(code, f, starts, ins, at),
        Some(OpCode::Br) => emit_br(code, &lay.vars, f, starts, ins, at),
        Some(OpCode::Ret) => emit_ret(code, &lay.vars, ins),
        Some(OpCode::Call) => emit_call(code, p, &lay.vars, h, ins),
    }
}

/// Compiled code: the bytes, the offset of the normal entry, and the offset
/// of the on-stack-replacement entry when there is one.
pub struct AsmProgram {
    pub code: Vec<u8>,
    pub start: usize,
    pub osr_start: Option<usize>,
}

proof fn lemma_body_size_mono(instrs: Seq<Instruction>, k: int)
    requires
        0 <= k <= instrs.len(),
    ensures
        body_size(instrs.take(k)) <= body_size(instrs),
    decreases instrs.len(),
{
    if k == instrs.len() {
        assert(instrs.take(k) =~= instrs);
    } else {
        assert(instrs.drop_last().take(k) =~= instrs.take(k));
        lemma_body_size_mono(instrs.drop_last(), k);
        assert(instr_size(instrs.last()) >= 0);
    }
}

proof fn lemma_enc_body_err(p: Program, vars: Seq<String>, bools: Seq<bool>, h: Hosts, instrs: Seq<Instruction>, k: int, n: int)
    requires
        0 <= k <= n,
        enc_body(p, vars, bools, h, instrs, k) is Err,
    ensures
        enc_body(p, vars, bools, h, instrs, n) == enc_body(p, vars, bools, h, instrs, k),
    decreases n,
{
    if k < n {
        lemma_enc_body_err(p, vars, bools, h, instrs, k, n - 1);
    }
}

proof fn lemma_param_loads_len(vars: Seq<String>, ps: Seq<Param>)
    ensures
        param_loads(vars, ps).len() == 14 * ps.len(),
    decreases ps.len(),
{
    if ps.len() > 0 {
        lemma_param_loads_len(vars, ps.drop_last());
    }
}

/// The size of `ins`, or `None` when it exceeds `MAX_CODE`.
fn instr_bytes(ins: &Instruction) -> (r: Option<u64>)
    ensures
        r matches Some(n) ==> n == instr_size(*ins) && n <= MAX_CODE,
        r is None ==> instr_size(*ins) > MAX_CODE,
{
    proof {
        reveal_strlit("mul");
        reveal_strlit("div");
        reveal_strlit("add");
        reveal_strlit("sub");
    }
    let n: usize = match &ins.args {
        Some(a) => a.len(),
        None => 0,
    };
    assert(n == arg_list(*ins).len());
    if n as u64 > MAX_CODE {
        let big = match (&ins.label, &ins.op) {
            (None, Some(OpCode::Print)) => true,
            (None, Some(OpCode::Call)) => true,
            _ => false,
        };
        if big {
            return None;
        }
    }
    let r = instr_bytes_small(ins);
    if r > MAX_CODE {
        None
    } else {
        Some(r)
    }
}

fn instr_bytes_small(ins: &Instruction) -> (r: u64)
    requires
        ins.label is None && (ins.op matches Some(OpCode::Print) || ins.op matches Some(OpCode::Call))
            ==> arg_list(*ins).len() <= MAX_CODE,
    ensures
        r == instr_size(*ins),
        r <= MAX_CODE || (ins.label is None && (ins.op matches Some(OpCode::Print) || ins.op matches Some(
            OpCode::Call,
        ))),
{
    proof {
        reveal_strlit("mul");
        reveal_strlit("div");
        reveal_strlit("add");
        reveal_strlit("sub");
    }
    let n: u64 = match &ins.args {
        Some(a) => a.len() as u64,
        None => 0,
    };
    if ins.label.is_some() {
        return 0;
    }
    match &ins.op {
        None => 0,
        Some(OpCode::Nop) => 1,
        Some(OpCode::Const) => 17,
        Some(OpCode::Id) => 14,
        Some(OpCode::BinOp(op)) => if str_is(op, "mul") {
            22
        } else if str_is(op, "div") {
            23
        } else if str_is(op, "add") || str_is(op, "sub") {
            21
        } else {
            28
        },
        Some(OpCode::BinOpBool(_)) => 21,
        Some(OpCode::UnOpBool(_)) => 18,
        Some(OpCode::Print) => 19 * n + 12,
        Some(OpCode::Jmp) => 5,
        Some(OpCode::Br) => 22,
        Some(OpCode::Ret) => 19,
        Some(OpCode::Call) => {
            let d: u64 = if ins.dest.is_some() {
                7
            } else {
                0
            };
            if n == 0 {
                31 + d
            } else {
                46 + 15 * (n - 1) + d
            }
        },
    }
}

pub open spec fn osr_view(osr: Option<(&Env, &String)>) -> Option<(Map<Seq<char>, Value>, Seq<char>)> {
    match osr {
        None => None,
        Some((e, l)) => Some((e@, l@)),
    }
}

/// Where each instruction's code begins in the body.
fn body_offsets(f: &Function) -> (r: Result<Vec<u64>, CompileError>)
    ensures
        body_size(f.instrs@) <= MAX_CODE ==> (r matches Ok(s) && starts_ok(s@, f.instrs@)),
        body_size(f.instrs@) > MAX_CODE ==> r == Err::<Vec<u64>, CompileError>(CompileError::TooLarge),
{
    let mut starts: Vec<u64> = Vec::new();
    starts.push(0);
    assert(f.instrs@.take(0) =~= Seq::<Instruction>::empty());
    let mut i: usize = 0;
    while i < f.instrs.len()
        invariant
            i <= f.instrs@.len(),
            starts@.len() == i + 1,
            forall|k: int|
                0 <= k <= i ==> #[trigger] starts@[k] as int == body_size(f.instrs@.take(k))
                    && starts@[k] <= MAX_CODE,
        decreases f.instrs@.len() - i,
    {
        let ghost t = f.instrs@.take(i as int + 1);
        assert(t.drop_last() =~= f.instrs@.take(i as int));
        let here = starts[i];
        let next = match instr_bytes(&f.instrs[i]) {
            None => {
                proof {
                    lemma_body_size_mono(f.instrs@, i as int + 1);
                }
                return Err(CompileError::TooLarge);
            },
            Some(n) => here + n,
        };
        if next > MAX_CODE {
            proof {
                lemma_body_size_mono(f.instrs@, i as int + 1);
            }
            return Err(CompileError::TooLarge);
        }
        starts.push(next);
        i += 1;
    }
    assert(f.instrs@.take(i as int) =~= f.instrs@);
    assert(starts@[i as int] as int == body_size(f.instrs@.take(i as int)));
    Ok(starts)
}

/// The body: every instruction's code, jumps resolved against `starts`.
fn emit_body(p: &Program, lay: &Layout, h: Hosts, f: &Function, starts: &Vec<u64>) -> (r: Result<
    Vec<u8>,
    CompileError,
>)
    requires
        lay.vars@.len() < MAX_SLOTS,
        lay.bools@.len() == lay.vars@.len(),
        starts_ok(starts@, f.instrs@),
    ensures
        match enc_body(*p, lay.vars@, lay.bools@, h, f.instrs@, f.instrs@.len() as int) {
            Ok(b) => r matches Ok(v) && v@ == b,
            Err(e) => r matches Err(g) && g == e,
        },
{
    let mut body: Vec<u8> = Vec::new();
    let mut j: usize = 0;
    while j < f.instrs.len()
        invariant
            j <= f.instrs@.len(),
            lay.vars@.len() < MAX_SLOTS,
            lay.bools@.len() == lay.vars@.len(),
            starts_ok(starts@, f.instrs@),
            enc_body(*p, lay.vars@, lay.bools@, h, f.instrs@, j as int) == Ok::<Seq<u8>, CompileError>(
                body@,
            ),
        decreases f.instrs@.len() - j,
    {
        let ghost t = f.instrs@.take(j as int + 1);
        assert(t.drop_last() =~= f.instrs@.take(j as int));
        assert(t.last() == f.instrs@[j as int]);
        assert(starts@[j as int + 1] as int == body_size(t));
        match emit_instr(&mut body, p, lay, h, f, starts, &f.instrs[j], starts[j]) {
            Err(e) => {
                proof {
                    lemma_enc_body_err(
                        *p,
                        lay.vars@,
                        lay.bools@,
                        h,
                        f.instrs@,
                        j as int + 1,
                        f.instrs@.len() as int,
                    );
                }
                return Err(e);
            },
            Ok(()) => {},
        }
        j += 1;
    }
    Ok(body)
}

/// The normal entry of `f`.
fn emit_entry(lay: &Layout, f: &Function) -> (r: Vec<u8>)
    requires
        lay.vars@.len() < MAX_SLOTS,
        lay.vars@ == frame_vars(*f),
        params_of(*f).len() < MAX_SLOTS,
    ensures
        r@ == entry_code(lay.vars@, *f),
        r@.len() == 18 + 14 * params_of(*f).len(),
{
    let empty_p: Vec<Param> = Vec::new();
    let params = match &f.args {
        Some(ps) => ps,
        None => &empty_p,
    };
    assert(params@ == params_of(*f));
    let frame: u32 = (16 * ((lay.vars.len() as u64 + 2) / 2)) as u32;
    let mut entry: Vec<u8> = Vec::new();
    emit_frame_setup(&mut entry, frame);
    assert(params@.take(0) =~= Seq::<Param>::empty());
    assert(entry@ =~= frame_setup(frame) + param_loads(lay.vars@, params@.take(0)));
    let mut k: usize = 0;
    while k < params.len()
        invariant
            k <= params@.len(),
            params@ == params_of(*f),
            params@.len() < MAX_SLOTS,
            lay.vars@.len() < MAX_SLOTS,
            lay.vars@ == frame_vars(*f),
            entry@ == frame_setup(frame) + param_loads(lay.vars@, params@.take(k as int)),
        decreases params@.len() - k,
    {
        let ghost t = params@.take(k as int + 1);
        assert(t.drop_last() =~= params@.take(k as int));
        assert(t.last() == params@[k as int]);
        proof {
            lemma_param_has_slot(*f, k as int);
        }
        let s = find_name(&lay.vars, &params[k].name);
        proof {
            lemma_position_found(lay.vars@, params@[k as int].name@);
        }
        let d = match s {
            Some(s) => slot_displacement(s as u64 + 1),
            None => 0,
        };
        emit_load_arg(&mut entry, (8 * k as u64) as u32);
        emit_rbp_op(&mut entry, 0x89, RM_RAX, d);
        assert(entry@ =~= frame_setup(frame) + param_loads(lay.vars@, t));
        k += 1;
    }
    assert(params@.take(k as int) =~= params@);
    proof {
        lemma_param_loads_len(lay.vars@, params@);
    }
    entry
}

/// The on-stack-replacement entry: the frame's values, then a jump by `rel`.
fn emit_osr_prefix(lay: &Layout, env: &Env, rel: u32) -> (r: Vec<u8>)
    requires
        lay.vars@.len() < MAX_SLOTS,
        env.wf(),
    ensures
        r@ == osr_prefix(lay.vars@, env@, rel),
{
    let frame: u32 = (16 * ((lay.vars.len() as u64 + 2) / 2)) as u32;
    let mut code: Vec<u8> = Vec::new();
    emit_frame_setup(&mut code, frame);
    assert(code@ =~= frame_setup(frame) + restores(lay.vars@, env@, 0));
    let mut v: usize = 0;
    while v < lay.vars.len()
        invariant
            v <= lay.vars@.len(),
            lay.vars@.len() < MAX_SLOTS,
            env.wf(),
            code@ == frame_setup(frame) + restores(lay.vars@, env@, v as int),
        decreases lay.vars@.len() - v,
    {
        match env.get(&lay.vars[v]) {
            Some(val) => {
                emit_mov_imm64(&mut code, 0xB8, val.to_word() as u64);
                emit_rbp_op(&mut code, 0x89, RM_RAX, slot_displacement(v as u64 + 1));
            },
            None => {},
        }
        assert(code@ =~= frame_setup(frame) + restores(lay.vars@, env@, v as int + 1));
        v += 1;
    }
    emit_jmp_rel(&mut code, rel);
    code
}

/// Lowers `f` to x86-64 code. With `osr`, the code also gets an entry at
/// offset 0 that takes the frame's current values and resumes at the label.
pub fn compile(p: &Program, f: &Function, h: Hosts, osr: Option<(&Env, &String)>) -> (r: Result<
    AsmProgram,
    CompileError,
>)
    requires
        osr matches Some((e, _)) ==> e.wf(),
    ensures
        match compiled(*p, *f, h, osr_view(osr)) {
            Ok((c, s, o)) => r matches Ok(a) && a.code@ == c && a.start == s && a.osr_start == o,
            Err(e) => r matches Err(g) && g == e,
        },
{
    let lay = frame_layout(f);
    assert(lay.vars@ == frame_vars(*f));
    assert(lay.bools@ =~= frame_bools(*f));
    let nparams: usize = match &f.args {
        Some(ps) => ps.len(),
        None => 0,
    };
    assert(nparams == params_of(*f).len());
    if lay.vars.len() as u64 >= MAX_SLOTS || nparams as u64 >= MAX_SLOTS {
        return Err(CompileError::TooLarge);
    }
    let starts = match body_offsets(f) {
        Err(e) => return Err(e),
        Ok(s) => s,
    };
    let body = match emit_body(p, &lay, h, f, &starts) {
        Err(e) => return Err(e),
        Ok(b) => b,
    };
    let entry = emit_entry(&lay, f);
    let mut code: Vec<u8> = match osr {
        None => Vec::new(),
        Some((env, label)) => {
            let t = match Interpreter::find_label(f, label) {
                None => return Err(CompileError::UnknownLabel),
                Some(ix) => {
                    proof {
                        lemma_label_index_found(f.instrs@, label@);
                    }
                    starts[ix]
                },
            };
            emit_osr_prefix(&lay, env, (entry.len() as u64 + t) as u32)
        },
    };
    let osr_start: Option<usize> = match osr {
        None => None,
        Some(_) => Some(0),
    };
    let start = code.len();
    let ghost pre = code@;
    let ghost body_bytes = body@;
    let ghost entry_bytes = entry@;
    let mut entry_mut = entry;
    code.append(&mut entry_mut);
    let mut body_mut = body;
    code.append(&mut body_mut);
    emit_mov_imm32(&mut code, 0xC0, 0);
    emit_mov_imm32(&mut code, 0xC2, 0);
    emit_leave_ret(&mut code);
    assert(code@ =~= pre + entry_bytes + body_bytes + epilogue());
    Ok(AsmProgram { code, start, osr_start })
}

/// A method compiler: lowers functions of one program against fixed host
/// routines.
pub struct Compiler {
    program: Program,
    hosts: Hosts,
}

impl Compiler {
    pub closed spec fn source(&self) -> Program {
        self.program
    }

    pub closed spec fn host_routines(&self) -> Hosts {
        self.hosts
    }

    pub fn new(bril_program: Program, hosts: Hosts) -> (r: Compiler)
        ensures
            r.source() == bril_program,
            r.host_routines() == hosts,
    {
        Compiler { program: bril_program, hosts }
    }

    /// The index of the function named `name`.
    pub fn index_of(&self, name: &String) -> (r: Option<usize>)
        ensures
            r matches Some(i) ==> find_fn(self.source().functions@, name@) == Some(i as int),
            r is None ==> find_fn(self.source().functions@, name@) is None,
    {
        function_index(&self.program, name)
    }

    /// Lowers `bril_func` with its normal entry only.
    pub fn compile(&self, bril_func: &Function) -> (r: Result<AsmProgram, CompileError>)
        ensures
            match compiled(self.source(), *bril_func, self.host_routines(), None) {
                Ok((c, s, o)) => r matches Ok(a) && a.code@ == c && a.start == s && a.osr_start == o,
                Err(e) => r matches Err(g) && g == e,
            },
    {
        compile(&self.program, bril_func, self.hosts, None)
    }
}

} // verus!
