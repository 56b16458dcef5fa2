use vstd::prelude::*;
use crate::env::{Env, Value, RETURN_VAR};
use crate::program::{Function, Instruction, OpCode, InstrType, Param, Program, str_is};

verus! {

/// One unit of program output: a printed integer or boolean (each followed
/// by a single space when rendered), or the end of a `print` line.
#[derive(Clone, Copy, Debug, PartialEq, Eq, Structural)]
pub enum Out {
    Int(i64),
    Bool(bool),
    Newline,
}

/// Why an interpreted frame was abandoned.
#[derive(Clone, Copy, Debug, PartialEq, Eq, Structural)]
pub enum Fault {
    /// A jump to a label that the function does not hold.
    UnknownLabel,
    /// A call to a name that no function has.
    UnknownFunction,
    /// An operand of the wrong kind.
    TypeError,
    /// An operand that names no variable of the frame.
    UnboundVariable,
    /// An instruction without the operands, destination or literal its opcode needs.
    Malformed,
    /// A call with fewer actual arguments than the callee has parameters.
    MissingArgument,
    /// Integer division by zero, or the one quotient that overflows.
    ArithmeticFault,
    /// A call binds a destination but the callee returned no value.
    NoReturnValue,
    /// The step budget ran out.
    OutOfFuel,
}

/// What the interpreter does after an instruction.
#[derive(Clone, Debug, PartialEq, Eq)]
pub enum Action {
    Next,
    Jump(String),
    Return,
}

pub open spec fn arg_name(ins: Instruction, k: int) -> Option<Seq<char>> {
    match ins.args {
        Some(a) => if 0 <= k < a@.len() {
            Some(a@[k]@)
        } else {
            None
        },
        None => None,
    }
}

/// The value of the `k`-th operand.
pub open spec fn read(env: Map<Seq<char>, Value>, ins: Instruction, k: int) -> Result<Value, Fault> {
    match arg_name(ins, k) {
        None => Err(Fault::Malformed),
        Some(n) => if env.contains_key(n) {
            Ok(env[n])
        } else {
            Err(Fault::UnboundVariable)
        },
    }
}

pub open spec fn read_int(env: Map<Seq<char>, Value>, ins: Instruction, k: int) -> Result<i64, Fault> {
    match read(env, ins, k) {
        Ok(Value::Int(n)) => Ok(n),
        Ok(Value::Bool(_)) => Err(Fault::TypeError),
        Err(e) => Err(e),
    }
}

pub open spec fn read_bool(env: Map<Seq<char>, Value>, ins: Instruction, k: int) -> Result<bool, Fault> {
    match read(env, ins, k) {
        Ok(Value::Bool(b)) => Ok(b),
        Ok(Value::Int(_)) => Err(Fault::TypeError),
        Err(e) => Err(e),
    }
}

/// Quotient rounded toward zero.
pub open spec fn trunc_div(a: int, b: int) -> int {
    let q: int = (vstd::math::abs(a) / vstd::math::abs(b)) as int;
    if (a < 0) == (b < 0) {
        q
    } else {
        -q
    }
}

/// An integer operator on two integers. Addition, subtraction and
/// multiplication wrap as the machine's 64-bit instructions do.
pub open spec fn int_binop(op: Seq<char>, a: i64, b: i64) -> Result<Value, Fault> {
    if op == "add"@ {
        Ok(Value::Int(a.wrapping_add(b)))
    } else if op == "sub"@ {
        Ok(Value::Int(a.wrapping_sub(b)))
    } else if op == "mul"@ {
        Ok(Value::Int(a.wrapping_mul(b)))
    } else if op == "div"@ {
        if b == 0 || (a == i64::MIN && b == -1) {
            Err(Fault::ArithmeticFault)
        } else {
            Ok(Value::Int(trunc_div(a as int, b as int) as i64))
        }
    } else if op == "eq"@ {
        Ok(Value::Bool(a == b))
    } else if op == "lt"@ {
        Ok(Value::Bool(a < b))
    } else if op == "gt"@ {
        Ok(Value::Bool(a > b))
    } else if op == "le"@ {
        Ok(Value::Bool(a <= b))
    } else if op == "ge"@ {
        Ok(Value::Bool(a >= b))
    } else {
        Err(Fault::Malformed)
    }
}

pub open spec fn bool_binop(op: Seq<char>, a: bool, b: bool) -> Result<Value, Fault> {
    if op == "and"@ {
        Ok(Value::Bool(a && b))
    } else if op == "or"@ {
        Ok(Value::Bool(a || b))
    } else {
        Err(Fault::Malformed)
    }
}

pub open spec fn out_of(v: Value) -> Out {
    match v {
        Value::Int(n) => Out::Int(n),
        Value::Bool(b) => Out::Bool(b),
    }
}

pub open spec fn lit_value(l: InstrType) -> Value {
    match l {
        InstrType::VInt(n) => Value::Int(n),
        InstrType::VBool(b) => Value::Bool(b),
    }
}

/// The items that printing `names` emits, before the newline.
pub open spec fn print_items(env: Map<Seq<char>, Value>, names: Seq<String>) -> Seq<Out>
    decreases names.len(),
{
    if names.len() == 0 {
        seq![]
    } else {
        print_items(env, names.drop_last()).push(out_of(env[names.last()@]))
    }
}

pub open spec fn all_bound(env: Map<Seq<char>, Value>, names: Seq<String>) -> bool {
    forall|i: int| 0 <= i < names.len() ==> env.contains_key((#[trigger] names[i])@)
}

pub open spec fn arg_list(ins: Instruction) -> Seq<String> {
    match ins.args {
        Some(a) => a@,
        None => seq![],
    }
}

pub open spec fn is_call(ins: Instruction) -> bool {
    ins.label is None && ins.op matches Some(OpCode::Call)
}

/// Stores `r` into the destination of `ins`.
pub open spec fn define(env: Map<Seq<char>, Value>, ins: Instruction, r: Result<Value, Fault>)
    -> Result<(Action, Map<Seq<char>, Value>, Seq<Out>), Fault> {
    match r {
        Err(e) => Err(e),
        Ok(v) => match ins.dest {
            Some(d) => Ok((Action::Next, env.insert(d@, v), seq![])),
            None => Err(Fault::Malformed),
        },
    }
}

/// The effect of one instruction other than `call`: the next action, the
/// updated frame and the output it emits.
pub open spec fn step(ins: Instruction, env: Map<Seq<char>, Value>) -> Result<
    (Action, Map<Seq<char>, Value>, Seq<Out>),
    Fault,
> {
    if ins.label is Some {
        Ok((Action::Next, env, seq![]))
    } else {
        match ins.op {
            None => Ok((Action::Next, env, seq![])),
            Some(OpCode::Nop) => Ok((Action::Next, env, seq![])),
            Some(OpCode::Const) => match ins.value {
                Some(l) => define(env, ins, Ok(lit_value(l))),
                None => Err(Fault::Malformed),
            },
            Some(OpCode::Id) => define(env, ins, read(env, ins, 0)),
            Some(OpCode::BinOp(op)) => match read_int(env, ins, 0) {
                Err(e) => Err(e),
                Ok(a) => match read_int(env, ins, 1) {
                    Err(e) => Err(e),
                    Ok(b) => define(env, ins, int_binop(op@, a, b)),
                },
            },
            Some(OpCode::BinOpBool(op)) => match read_bool(env, ins, 0) {
                Err(e) => Err(e),
                Ok(a) => match read_bool(env, ins, 1) {
                    Err(e) => Err(e),
                    Ok(b) => define(env, ins, bool_binop(op@, a, b)),
                },
            },
            Some(OpCode::UnOpBool(op)) => match read_bool(env, ins, 0) {
                Err(e) => Err(e),
                Ok(a) => if op@ == "not"@ {
                    define(env, ins, Ok(Value::Bool(!a)))
                } else {
                    Err(Fault::Malformed)
                },
            },
            Some(OpCode::Print) => if all_bound(env, arg_list(ins)) {
                Ok((Action::Next, env, print_items(env, arg_list(ins)).push(Out::Newline)))
            } else {
                Err(Fault::UnboundVariable)
            },
            Some(OpCode::Jmp) => match ins.args {
                Some(a) if a@.len() >= 1 => Ok((Action::Jump(a@[0]), env, seq![])),
                _ => Err(Fault::Malformed),
            },
            Some(OpCode::Br) => match ins.args {
                Some(a) if a@.len() >= 3 => match read_bool(env, ins, 0) {
                    Err(e) => Err(e),
                    Ok(c) => Ok((Action::Jump(if c { a@[1] } else { a@[2] }), env, seq![])),
                },
                _ => Err(Fault::Malformed),
            },
            Some(OpCode::Ret) => if arg_list(ins).len() == 0 {
                Ok((Action::Return, env, seq![]))
            } else {
                match read(env, ins, 0) {
                    Err(e) => Err(e),
                    Ok(v) => Ok((Action::Return, env.insert(RETURN_VAR@, v), seq![])),
                }
            },
            Some(OpCode::Call) => Err(Fault::Malformed),
        }
    }
}

/// The first function with the given name.
pub open spec fn find_fn(fs: Seq<Function>, name: Seq<char>) -> Option<int>
    decreases fs.len(),
{
    if fs.len() == 0 {
        None
    } else {
        match find_fn(fs.drop_last(), name) {
            Some(i) => Some(i),
            None => if fs.last().name@ == name {
                Some(fs.len() - 1)
            } else {
                None
            },
        }
    }
}

/// The position of the first marker of label `l`.
pub open spec fn label_index(instrs: Seq<Instruction>, l: Seq<char>) -> Option<int>
    decreases instrs.len(),
{
    if instrs.len() == 0 {
        None
    } else {
        match label_index(instrs.drop_last(), l) {
            Some(i) => Some(i),
            None => if instrs.last().label matches Some(m) && m@ == l {
                Some(instrs.len() - 1)
            } else {
                None
            },
        }
    }
}

pub open spec fn params_of(f: Function) -> Seq<Param> {
    match f.args {
        Some(ps) => ps@,
        None => seq![],
    }
}

/// The callee's fresh frame: parameter `k` bound to the caller's value of
/// actual `k + 1` (actual 0 is the callee's name).
pub open spec fn bind_params(
    params: Seq<Param>,
    actuals: Seq<String>,
    caller: Map<Seq<char>, Value>,
) -> Result<Map<Seq<char>, Value>, Fault>
    decreases params.len(),
{
    if params.len() == 0 {
        Ok(Map::empty())
    } else {
        match bind_params(params.drop_last(), actuals, caller) {
            Err(e) => Err(e),
            Ok(m) => {
                let k = params.len() - 1;
                if k + 1 >= actuals.len() {
                    Err(Fault::MissingArgument)
                } else if !caller.contains_key(actuals[k + 1]@) {
                    Err(Fault::UnboundVariable)
                } else {
                    Ok(m.insert(params[k].name@, caller[actuals[k + 1]@]))
                }
            },
        }
    }
}

/// The effect of a `call` instruction given `fuel` steps for the callee:
/// the caller's updated frame, and the output the callee emitted.
pub open spec fn call_effect(p: Program, ins: Instruction, env: Map<Seq<char>, Value>, fuel: nat) -> (
    Result<Map<Seq<char>, Value>, Fault>,
    Seq<Out>,
)
    decreases fuel, 1nat,
{
    match arg_name(ins, 0) {
        None => (Err(Fault::Malformed), seq![]),
        Some(name) => match find_fn(p.functions@, name) {
            None => (Err(Fault::UnknownFunction), seq![]),
            Some(idx) => {
                let callee = p.functions@[idx];
                match bind_params(params_of(callee), arg_list(ins), env) {
                    Err(e) => (Err(e), seq![]),
                    Ok(cenv) => {
                        let r = run(p, callee, 0, cenv, fuel);
                        match r.0 {
                            Err(e) => (Err(e), r.1),
                            Ok(fenv) => match ins.dest {
                                None => (Ok(env), r.1),
                                Some(d) => if fenv.contains_key(RETURN_VAR@) {
                                    (Ok(env.insert(d@, fenv[RETURN_VAR@])), r.1)
                                } else {
                                    (Err(Fault::NoReturnValue), r.1)
                                },
                            },
                        }
                    },
                }
            },
        },
    }
}

/// Interpreting `f` from instruction `pc` in frame `env` with at most `fuel`
/// steps: the frame at return (or the fault), and the output emitted.
/// Running past the last instruction returns.
pub open spec fn run(p: Program, f: Function, pc: int, env: Map<Seq<char>, Value>, fuel: nat) -> (
    Result<Map<Seq<char>, Value>, Fault>,
    Seq<Out>,
)
    decreases fuel, 0nat,
{
    if pc < 0 || pc >= f.instrs@.len() {
        (Ok(env), seq![])
    } else if fuel == 0 {
        (Err(Fault::OutOfFuel), seq![])
    } else {
        let ins = f.instrs@[pc];
        if is_call(ins) {
            let c = call_effect(p, ins, env, (fuel - 1) as nat);
            match c.0 {
                Err(e) => (Err(e), c.1),
                Ok(env2) => {
                    let r = run(p, f, pc + 1, env2, (fuel - 1) as nat);
                    (r.0, c.1 + r.1)
                },
            }
        } else {
            match step(ins, env) {
                Err(e) => (Err(e), seq![]),
                Ok((act, env2, o)) => match act {
                    Action::Next => {
                        let r = run(p, f, pc + 1, env2, (fuel - 1) as nat);
                        (r.0, o + r.1)
                    },
                    Action::Return => (Ok(env2), o),
                    Action::Jump(l) => match label_index(f.instrs@, l@) {
                        None => (Err(Fault::UnknownLabel), o),
                        Some(t) => {
                            let r = run(p, f, t, env2, (fuel - 1) as nat);
                            (r.0, o + r.1)
                        },
                    },
                },
            }
        }
    }
}

/// The frame as it stands when a run of `f` from `pc` stops: at the failing
/// instruction when the run faults (what that instruction's effect left,
/// before anything after it), or at the return.
pub open spec fn stop_frame(p: Program, f: Function, pc: int, env: Map<Seq<char>, Value>, fuel: nat) -> Map<
    Seq<char>,
    Value,
>
    decreases fuel,
{
    if pc < 0 || pc >= f.instrs@.len() || fuel == 0 {
        env
    } else {
        let ins = f.instrs@[pc];
        if is_call(ins) {
            match call_effect(p, ins, env, (fuel - 1) as nat).0 {
                Err(_) => env,
                Ok(env2) => stop_frame(p, f, pc + 1, env2, (fuel - 1) as nat),
            }
        } else {
            match step(ins, env) {
                Err(_) => env,
                Ok((act, env2, _)) => match act {
                    Action::Next => stop_frame(p, f, pc + 1, env2, (fuel - 1) as nat),
                    Action::Return => env2,
                    Action::Jump(l) => match label_index(f.instrs@, l@) {
                        None => env2,
                        Some(t) => stop_frame(p, f, t, env2, (fuel - 1) as nat),
                    },
                },
            }
        }
    }
}

/// Running `main` with the given integer arguments bound to its parameters.
pub open spec fn run_main(p: Program, args: Seq<i64>, fuel: nat) -> (Result<Map<Seq<char>, Value>, Fault>, Seq<Out>) {
    match find_fn(p.functions@, "main"@) {
        None => (Err(Fault::UnknownFunction), seq![]),
        Some(i) => {
            let f = p.functions@[i];
            if params_of(f).len() > args.len() {
                (Err(Fault::MissingArgument), seq![])
            } else {
                run(p, f, 0, main_frame(params_of(f), args), fuel)
            }
        },
    }
}

/// `main`'s first frame: parameter `k` bound to integer argument `k`.
pub open spec fn main_frame(params: Seq<Param>, args: Seq<i64>) -> Map<Seq<char>, Value>
    decreases params.len(),
{
    if params.len() == 0 {
        Map::empty()
    } else {
        main_frame(params.drop_last(), args).insert(
            params.last().name@,
            Value::Int(args[params.len() - 1]),
        )
    }
}

fn operand(ins: &Instruction, k: usize) -> (r: Option<&String>)
    ensures
        r matches Some(n) ==> arg_name(*ins, k as int) == Some(n@),
        r is None ==> arg_name(*ins, k as int) is None,
{
    match &ins.args {
        Some(a) => if k < a.len() {
            Some(&a[k])
        } else {
            None
        },
        None => None,
    }
}

fn read_var(env: &Env, ins: &Instruction, k: usize) -> (r: Result<Value, Fault>)
    requires
        env.wf(),
    ensures
        r == read(env@, *ins, k as int),
{
    match operand(ins, k) {
        None => Err(Fault::Malformed),
        Some(n) => match env.get(n) {
            Some(v) => Ok(v),
            None => Err(Fault::UnboundVariable),
        },
    }
}

fn read_int_var(env: &Env, ins: &Instruction, k: usize) -> (r: Result<i64, Fault>)
    requires
        env.wf(),
    ensures
        r == read_int(env@, *ins, k as int),
{
    match read_var(env, ins, k) {
        Ok(Value::Int(n)) => Ok(n),
        Ok(Value::Bool(_)) => Err(Fault::TypeError),
        Err(e) => Err(e),
    }
}

fn read_bool_var(env: &Env, ins: &Instruction, k: usize) -> (r: Result<bool, Fault>)
    requires
        env.wf(),
    ensures
        r == read_bool(env@, *ins, k as int),
{
    match read_var(env, ins, k) {
        Ok(Value::Bool(b)) => Ok(b),
        Ok(Value::Int(_)) => Err(Fault::TypeError),
        Err(e) => Err(e),
    }
}

/// Magnitude of `a` as an unsigned word.
fn magnitude(a: i64) -> (r: u64)
    ensures
        r as int == vstd::math::abs(a as int),
{
    if a < 0 {
        (0i128 - a as i128) as u64
    } else {
        a as u64
    }
}

/// Division rounded toward zero; `None` where the machine would fault.
pub fn checked_trunc_div(a: i64, b: i64) -> (r: Option<i64>)
    ensures
        (b == 0 || (a == i64::MIN && b == -1)) <==> r is None,
        r matches Some(q) ==> q as int == trunc_div(a as int, b as int),
{
    if b == 0 || (a == i64::MIN && b == -1) {
        return None;
    }
    let ua = magnitude(a);
    let ub = magnitude(b);
    let q: u64 = ua / ub;
    assert(q <= ua) by (nonlinear_arith)
        requires
            ub >= 1,
            q == ua / ub,
    ;
    if (a < 0) == (b < 0) {
        if a == i64::MIN {
            assert(ub >= 2);
            assert(q <= ua / 2) by (nonlinear_arith)
                requires
                    ub >= 2,
                    q == ua / ub,
            ;
        }
        Some(q as i64)
    } else {
        Some((0i128 - q as i128) as i64)
    }
}

/// Applies an integer operator named `op`.
pub fn apply_int_binop(op: &String, a: i64, b: i64) -> (r: Result<Value, Fault>)
    ensures
        r == int_binop(op@, a, b),
{
    proof {
        reveal_strlit("add");
        reveal_strlit("sub");
        reveal_strlit("mul");
        reveal_strlit("div");
        reveal_strlit("eq");
        reveal_strlit("lt");
        reveal_strlit("gt");
        reveal_strlit("le");
        reveal_strlit("ge");
    }
    if str_is(op, "add") {
        Ok(Value::Int(a.wrapping_add(b)))
    } else if str_is(op, "sub") {
        Ok(Value::Int(a.wrapping_sub(b)))
    } else if str_is(op, "mul") {
        Ok(Value::Int(a.wrapping_mul(b)))
    } else if str_is(op, "div") {
        match checked_trunc_div(a, b) {
            Some(q) => Ok(Value::Int(q)),
            None => Err(Fault::ArithmeticFault),
        }
    } else if str_is(op, "eq") {
        Ok(Value::Bool(a == b))
    } else if str_is(op, "lt") {
        Ok(Value::Bool(a < b))
    } else if str_is(op, "gt") {
        Ok(Value::Bool(a > b))
    } else if str_is(op, "le") {
        Ok(Value::Bool(a <= b))
    } else if str_is(op, "ge") {
        Ok(Value::Bool(a >= b))
    } else {
        Err(Fault::Malformed)
    }
}

/// Applies a boolean operator named `op`.
pub fn apply_bool_binop(op: &String, a: bool, b: bool) -> (r: Result<Value, Fault>)
    ensures
        r == bool_binop(op@, a, b),
{
    proof {
        reveal_strlit("and");
        reveal_strlit("or");
    }
    if str_is(op, "and") {
        Ok(Value::Bool(a && b))
    } else if str_is(op, "or") {
        Ok(Value::Bool(a || b))
    } else {
        Err(Fault::Malformed)
    }
}

fn define_dest(env: &mut Env, ins: &Instruction, r: Result<Value, Fault>) -> (res: Result<Action, Fault>)
    requires
        old(env).wf(),
    ensures
        final(env).wf(),
        match define(old(env)@, *ins, r) {
            Ok((a, m, _)) => res == Ok::<Action, Fault>(a) && final(env)@ == m,
            Err(e) => res == Err::<Action, Fault>(e) && final(env)@ == old(env)@,
        },
{
    match r {
        Err(e) => Err(e),
        Ok(v) => match &ins.dest {
            Some(d) => {
                env.put(d, v);
                Ok(Action::Next)
            },
            None => Err(Fault::Malformed),
        },
    }
}

fn lit_to_value(l: &InstrType) -> (r: Value)
    ensures
        r == lit_value(*l),
{
    match l {
        InstrType::VInt(n) => Value::Int(*n),
        InstrType::VBool(b) => Value::Bool(*b),
    }
}

fn value_out(v: Value) -> (r: Out)
    ensures
        r == out_of(v),
{
    match v {
        Value::Int(n) => Out::Int(n),
        Value::Bool(b) => Out::Bool(b),
    }
}

/// Emits one `print` line: every operand, then the newline.
fn eval_print(env: &Env, names: &Vec<String>, out: &mut Vec<Out>) -> (r: Result<(), Fault>)
    requires
        env.wf(),
    ensures
        all_bound(env@, names@) ==> r is Ok && final(out)@ == old(out)@ + print_items(
            env@,
            names@,
        ).push(Out::Newline),
        !all_bound(env@, names@) ==> r == Err::<(), Fault>(Fault::UnboundVariable) && final(out)@
            == old(out)@,
{
    let mut items: Vec<Out> = Vec::new();
    let mut i: usize = 0;
    while i < names.len()
        invariant
            env.wf(),
            i <= names@.len(),
            all_bound(env@, names@.take(i as int)),
            items@ == print_items(env@, names@.take(i as int)),
        decreases names@.len() - i,
    {
        match env.get(&names[i]) {
            Some(v) => {
                items.push(value_out(v));
                proof {
                    let t = names@.take(i as int + 1);
                    assert(t.drop_last() =~= names@.take(i as int));
                    assert(all_bound(env@, t)) by {
                        assert forall|j: int| 0 <= j < t.len() implies env@.contains_key(
                            (#[trigger] t[j])@,
                        ) by {
                            if j < i {
                                assert(t[j] == names@.take(i as int)[j]);
                            }
                        }
                    }
                }
            },
            None => {
                assert(!all_bound(env@, names@)) by {
                    assert(!env@.contains_key(names@[i as int]@));
                }
                return Err(Fault::UnboundVariable);
            },
        }
        i += 1;
    }
    assert(names@.take(names@.len() as int) =~= names@);
    items.push(Out::Newline);
    let mut j: usize = 0;
    let ghost base = out@;
    while j < items.len()
        invariant
            j <= items@.len(),
            out@ == base + items@.take(j as int),
        decreases items@.len() - j,
    {
        out.push(items[j]);
        assert(items@.take(j as int + 1) =~= items@.take(j as int).push(items@[j as int]));
        j += 1;
    }
    assert(items@.take(items@.len() as int) =~= items@);
    Ok(())
}

/// Executes one instruction other than `call`.
pub fn eval_step(ins: &Instruction, env: &mut Env, out: &mut Vec<Out>) -> (r: Result<Action, Fault>)
    requires
        old(env).wf(),
    ensures
        final(env).wf(),
        match step(*ins, old(env)@) {
            Ok((a, m, o)) => r == Ok::<Action, Fault>(a) && final(env)@ == m && final(out)@ == old(
                out,
            )@ + o,
            Err(e) => r == Err::<Action, Fault>(e) && final(env)@ == old(env)@ && final(out)@ == old(
                out,
            )@,
        },
{
    proof {
        reveal_strlit("not");
    }
    assert(old(out)@ + Seq::<Out>::empty() =~= old(out)@);
    if ins.label.is_some() {
        return Ok(Action::Next);
    }
    match &ins.op {
        None => Ok(Action::Next),
        Some(OpCode::Nop) => Ok(Action::Next),
        Some(OpCode::Const) => match &ins.value {
            Some(l) => define_dest(env, ins, Ok(lit_to_value(l))),
            None => Err(Fault::Malformed),
        },
        Some(OpCode::Id) => {
            let v = read_var(env, ins, 0);
            define_dest(env, ins, v)
        },
        Some(OpCode::BinOp(op)) => {
            let a = match read_int_var(env, ins, 0) {
                Ok(a) => a,
                Err(e) => return Err(e),
            };
            let b = match read_int_var(env, ins, 1) {
                Ok(b) => b,
                Err(e) => return Err(e),
            };
            define_dest(env, ins, apply_int_binop(op, a, b))
        },
        Some(OpCode::BinOpBool(op)) => {
            let a = match read_bool_var(env, ins, 0) {
                Ok(a) => a,
                Err(e) => return Err(e),
            };
            let b = match read_bool_var(env, ins, 1) {
                Ok(b) => b,
                Err(e) => return Err(e),
            };
            define_dest(env, ins, apply_bool_binop(op, a, b))
        },
        Some(OpCode::UnOpBool(op)) => {
            let a = match read_bool_var(env, ins, 0) {
                Ok(a) => a,
                Err(e) => return Err(e),
            };
            if str_is(op, "not") {
                define_dest(env, ins, Ok(Value::Bool(!a)))
            } else {
                Err(Fault::Malformed)
            }
        },
        Some(OpCode::Print) => {
            let empty: Vec<String> = Vec::new();
            let names = match &ins.args {
                Some(a) => a,
                None => &empty,
            };
            assert(names@ == arg_list(*ins));
            match eval_print(env, names, out) {
                Ok(()) => Ok(Action::Next),
                Err(e) => Err(e),
            }
        },
        Some(OpCode::Jmp) => match &ins.args {
            Some(a) => if a.len() >= 1 {
                Ok(Action::Jump(a[0].clone()))
            } else {
                Err(Fault::Malformed)
            },
            None => Err(Fault::Malformed),
        },
        Some(OpCode::Br) => match &ins.args {
            Some(a) => if a.len() >= 3 {
                match read_bool_var(env, ins, 0) {
                    Ok(c) => if c {
                        Ok(Action::Jump(a[1].clone()))
                    } else {
                        Ok(Action::Jump(a[2].clone()))
                    },
                    Err(e) => Err(e),
                }
            } else {
                Err(Fault::Malformed)
            },
            None => Err(Fault::Malformed),
        },
        Some(OpCode::Ret) => {
            let n: usize = match &ins.args {
                Some(a) => a.len(),
                None => 0,
            };
            if n == 0 {
                Ok(Action::Return)
            } else {
                match read_var(env, ins, 0) {
                    Ok(v) => {
                        env.put(&RETURN_VAR.to_owned(), v);
                        Ok(Action::Return)
                    },
                    Err(e) => Err(e),
                }
            }
        },
        Some(OpCode::Call) => Err(Fault::Malformed),
    }
}

proof fn lemma_find_fn_prefix(fs: Seq<Function>, name: Seq<char>, k: int)
    requires
        0 <= k <= fs.len(),
        find_fn(fs.take(k), name) is Some,
    ensures
        find_fn(fs, name) == find_fn(fs.take(k), name),
    decreases fs.len(),
{
    if k == fs.len() {
        assert(fs.take(k) =~= fs);
    } else {
        assert(fs.drop_last().take(k) =~= fs.take(k));
        lemma_find_fn_prefix(fs.drop_last(), name, k);
    }
}

pub proof fn lemma_find_fn_found(fs: Seq<Function>, name: Seq<char>)
    requires
        find_fn(fs, name) is Some,
    ensures
        0 <= find_fn(fs, name)->0 < fs.len(),
        fs[find_fn(fs, name)->0].name@ == name,
    decreases fs.len(),
{
    if find_fn(fs.drop_last(), name) is Some {
        lemma_find_fn_found(fs.drop_last(), name);
    }
}

pub proof fn lemma_label_index_found(instrs: Seq<Instruction>, l: Seq<char>)
    requires
        label_index(instrs, l) is Some,
    ensures
        0 <= label_index(instrs, l)->0 < instrs.len(),
    decreases instrs.len(),
{
    if label_index(instrs.drop_last(), l) is Some {
        lemma_label_index_found(instrs.drop_last(), l);
    }
}

proof fn lemma_label_index_prefix(instrs: Seq<Instruction>, l: Seq<char>, k: int)
    requires
        0 <= k <= instrs.len(),
        label_index(instrs.take(k), l) is Some,
    ensures
        label_index(instrs, l) == label_index(instrs.take(k), l),
    decreases instrs.len(),
{
    if k == instrs.len() {
        assert(instrs.take(k) =~= instrs);
    } else {
        assert(instrs.drop_last().take(k) =~= instrs.take(k));
        lemma_label_index_prefix(instrs.drop_last(), l, k);
    }
}

proof fn lemma_bind_params_prefix(
    params: Seq<Param>,
    actuals: Seq<String>,
    caller: Map<Seq<char>, Value>,
    k: int,
)
    requires
        0 <= k <= params.len(),
        bind_params(params.take(k), actuals, caller) is Err,
    ensures
        bind_params(params, actuals, caller) == bind_params(params.take(k), actuals, caller),
    decreases params.len(),
{
    if k == params.len() {
        assert(params.take(k) =~= params);
    } else {
        assert(params.drop_last().take(k) =~= params.take(k));
        lemma_bind_params_prefix(params.drop_last(), actuals, caller, k);
    }
}

/// The index of the first function of `p` named `name`.
pub fn function_index(p: &Program, name: &String) -> (r: Option<usize>)
    ensures
        r matches Some(i) ==> find_fn(p.functions@, name@) == Some(i as int),
        r is None ==> find_fn(p.functions@, name@) is None,
{
    let fs = &p.functions;
    let mut i: usize = 0;
    while i < fs.len()
        invariant
            i <= fs@.len(),
            fs@ == p.functions@,
            find_fn(fs@.take(i as int), name@) is None,
        decreases fs@.len() - i,
    {
        let ghost t = fs@.take(i as int + 1);
        assert(t.drop_last() =~= fs@.take(i as int));
        if fs[i].name == *name {
            proof {
                lemma_find_fn_prefix(fs@, name@, i as int + 1);
            }
            return Some(i);
        }
        i += 1;
    }
    assert(fs@.take(i as int) =~= fs@);
    None
}

/// Copying with `id` and then reading the destination yields the source's value.
pub proof fn lemma_id_copies(ins: Instruction, env: Map<Seq<char>, Value>, x: Seq<char>, d: String)
    requires
        ins.label is None,
        ins.op matches Some(OpCode::Id),
        arg_name(ins, 0) == Some(x),
        ins.dest == Some(d),
        env.contains_key(x),
    ensures
        step(ins, env) matches Ok((a, m, o)) && a == Action::Next && o.len() == 0 && m.contains_key(d@)
            && m[d@] == env[x],
{
}

/// For all integers, `lt` is the complement of `ge`, and `le` that of `gt`.
pub proof fn lemma_comparisons_complement(a: i64, b: i64)
    ensures
        int_binop("lt"@, a, b) == Ok::<Value, Fault>(Value::Bool(a < b)),
        int_binop("ge"@, a, b) == Ok::<Value, Fault>(Value::Bool(!(a < b))),
        int_binop("le"@, a, b) == Ok::<Value, Fault>(Value::Bool(a <= b)),
        int_binop("gt"@, a, b) == Ok::<Value, Fault>(Value::Bool(!(a <= b))),
{
    reveal_strlit("add");
    reveal_strlit("sub");
    reveal_strlit("mul");
    reveal_strlit("div");
    reveal_strlit("eq");
    reveal_strlit("lt");
    reveal_strlit("gt");
    reveal_strlit("le");
    reveal_strlit("ge");
    assert("lt"@.len() != "add"@.len() && "add"@.len() == "sub"@.len() && "sub"@.len() == "mul"@.len() && "mul"@.len() == "div"@.len());
    assert("lt"@[0] != "eq"@[0]);
    assert("ge"@.len() == "lt"@.len());
    assert("le"@[0] != "eq"@[0] && "le"@[1] != "lt"@[1] && "le"@[0] != "gt"@[0]);
    assert("gt"@[0] != "eq"@[0] && "gt"@[0] != "lt"@[0]);
    assert("ge"@[0] != "eq"@[0] && "ge"@[0] != "lt"@[0] && "ge"@[1] != "gt"@[1] && "ge"@[0] != "le"@[0]);
}

proof fn lemma_bind_params_domain(params: Seq<Param>, actuals: Seq<String>, caller: Map<Seq<char>, Value>)
    requires
        bind_params(params, actuals, caller) is Ok,
    ensures
        forall|n: Seq<char>|
            #[trigger] bind_params(params, actuals, caller)->Ok_0.contains_key(n) ==> exists|k: int|
                0 <= k < params.len() && (#[trigger] params[k]).name@ == n,
    decreases params.len(),
{
    if params.len() > 0 {
        lemma_bind_params_domain(params.drop_last(), actuals, caller);
        let m = bind_params(params.drop_last(), actuals, caller)->Ok_0;
        assert forall|n: Seq<char>|
            #[trigger] bind_params(params, actuals, caller)->Ok_0.contains_key(n) implies exists|k: int|
                0 <= k < params.len() && (#[trigger] params[k]).name@ == n by {
            if n == params.last().name@ {
                assert(params[params.len() - 1].name@ == n);
            } else {
                assert(m.contains_key(n));
                let k = choose|k: int| 0 <= k < params.drop_last().len() && (#[trigger] params.drop_last()[k]).name@ == n;
                assert(params[k] == params.drop_last()[k]);
            }
        }
    }
}

/// A function whose only instruction is an argument-less `ret` returns no
/// value: a call that discards the result goes on with the caller's frame
/// unchanged and prints nothing, and a call that binds a destination fails.
/// The call needs one step of fuel, its actual arguments bound, and no
/// parameter that takes the return slot's name.
pub proof fn lemma_bare_ret_returns_nothing(
    p: Program,
    ins: Instruction,
    env: Map<Seq<char>, Value>,
    fuel: nat,
)
    requires
        is_call(ins),
        arg_name(ins, 0) matches Some(name) && find_fn(p.functions@, name) matches Some(i) && ({
            let f = p.functions@[i];
            &&& bind_params(params_of(f), arg_list(ins), env) is Ok
            &&& forall|k: int| 0 <= k < params_of(f).len() ==> (#[trigger] params_of(f)[k]).name@ != RETURN_VAR@
            &&& f.instrs@.len() == 1
            &&& f.instrs@[0].label is None
            &&& f.instrs@[0].op matches Some(OpCode::Ret)
            &&& arg_list(f.instrs@[0]).len() == 0
        }),
        fuel >= 1,
    ensures
        call_effect(p, ins, env, fuel).1.len() == 0,
        ins.dest is None ==> call_effect(p, ins, env, fuel).0 == Ok::<Map<Seq<char>, Value>, Fault>(
            env,
        ),
        ins.dest is Some ==> call_effect(p, ins, env, fuel).0 == Err::<Map<Seq<char>, Value>, Fault>(
            Fault::NoReturnValue,
        ),
{
    let name = arg_name(ins, 0)->0;
    let i = find_fn(p.functions@, name)->0;
    let f = p.functions@[i];
    let cenv = bind_params(params_of(f), arg_list(ins), env)->Ok_0;
    lemma_bind_params_domain(params_of(f), arg_list(ins), env);
    let r = run(p, f, 0, cenv, fuel);
    assert(step(f.instrs@[0], cenv) == Ok::<(Action, Map<Seq<char>, Value>, Seq<Out>), Fault>(
        (Action::Return, cenv, seq![]),
    ));
    assert(r.0 == Ok::<Map<Seq<char>, Value>, Fault>(cenv));
    if cenv.contains_key(RETURN_VAR@) {
        let k = choose|k: int| 0 <= k < params_of(f).len() && (#[trigger] params_of(f)[k]).name@ == RETURN_VAR@;
        assert(false);
    }
}

/// Evaluates programs by walking their instructions.
pub struct Interpreter {
    program: Program,
}

impl Interpreter {
    /// The program being run.
    pub closed spec fn source(&self) -> Program {
        self.program
    }

    pub fn new(bril_ir: Program) -> (r: Interpreter)
        ensures
            r.source() == bril_ir,
    {
        Interpreter { program: bril_ir }
    }

    /// The position of the first marker of `label` in `func`.
    pub fn find_label(func: &Function, label: &String) -> (r: Option<usize>)
        ensures
            r matches Some(i) ==> label_index(func.instrs@, label@) == Some(i as int),
            r is None ==> label_index(func.instrs@, label@) is None,
    {
        let mut i: usize = 0;
        while i < func.instrs.len()
            invariant
                i <= func.instrs@.len(),
                label_index(func.instrs@.take(i as int), label@) is None,
            decreases func.instrs@.len() - i,
        {
            let ghost t = func.instrs@.take(i as int + 1);
            assert(t.drop_last() =~= func.instrs@.take(i as int));
            let found = match &func.instrs[i].label {
                Some(m) => *m == *label,
                None => false,
            };
            if found {
                proof {
                    lemma_label_index_prefix(func.instrs@, label@, i as int + 1);
                }
                return Some(i);
            }
            i += 1;
        }
        assert(func.instrs@.take(i as int) =~= func.instrs@);
        None
    }

    /// The index of the first function named `name`.
    pub fn find_function(&self, name: &String) -> (r: Option<usize>)
        ensures
            r matches Some(i) ==> find_fn(self.source().functions@, name@) == Some(i as int),
            r is None ==> find_fn(self.source().functions@, name@) is None,
    {
        function_index(&self.program, name)
    }

    /// The callee's first frame for a `call` instruction.
    fn bind_args(callee: &Function, ins: &Instruction, env: &Env) -> (r: Result<Env, Fault>)
        requires
            env.wf(),
        ensures
            match bind_params(params_of(*callee), arg_list(*ins), env@) {
                Ok(m) => r matches Ok(e) && e.wf() && e@ == m,
                Err(f) => r matches Err(g) && g == f,
            },
    {
        let mut cenv = Env::new();
        let empty_p: Vec<Param> = Vec::new();
        let params = match &callee.args {
            Some(ps) => ps,
            None => &empty_p,
        };
        let empty_a: Vec<String> = Vec::new();
        let actuals = match &ins.args {
            Some(a) => a,
            None => &empty_a,
        };
        assert(params@ == params_of(*callee));
        assert(actuals@ == arg_list(*ins));
        assert(params@.take(0) =~= Seq::<Param>::empty());
        let mut i: usize = 0;
        while i < params.len()
            invariant
                env.wf(),
                cenv.wf(),
                i <= params@.len(),
                params@ == params_of(*callee),
                actuals@ == arg_list(*ins),
                bind_params(params@.take(i as int), actuals@, env@) == Ok::<
                    Map<Seq<char>, Value>,
                    Fault,
                >(cenv@),
            decreases params@.len() - i,
        {
            let ghost t = params@.take(i as int + 1);
            assert(t.drop_last() =~= params@.take(i as int));
            assert(t[i as int] == params@[i as int]);
            if i + 1 >= actuals.len() {
                proof {
                    lemma_bind_params_prefix(params@, actuals@, env@, i as int + 1);
                }
                return Err(Fault::MissingArgument);
            }
            match env.get(&actuals[i + 1]) {
                Some(v) => {
                    cenv.put(&params[i].name, v);
                },
                None => {
                    proof {
                        lemma_bind_params_prefix(params@, actuals@, env@, i as int + 1);
                    }
                    return Err(Fault::UnboundVariable);
                },
            }
            i += 1;
        }
        assert(params@.take(i as int) =~= params@);
        Ok(cenv)
    }

    /// Executes one instruction with at most `fuel` steps for a callee.
    pub fn eval_instr(&self, instr: &Instruction, env: &mut Env, out: &mut Vec<Out>, fuel: u64) -> (r:
        Result<Action, Fault>)
        requires
            old(env).wf(),
        ensures
            final(env).wf(),
            is_call(*instr) ==> ({
                let c = call_effect(self.source(), *instr, old(env)@, fuel as nat);
                &&& final(out)@ == old(out)@ + c.1
                &&& match c.0 {
                    Ok(m) => r == Ok::<Action, Fault>(Action::Next) && final(env)@ == m,
                    Err(e) => r == Err::<Action, Fault>(e) && final(env)@ == old(env)@,
                }
            }),
            !is_call(*instr) ==> match step(*instr, old(env)@) {
                Ok((a, m, o)) => r == Ok::<Action, Fault>(a) && final(env)@ == m && final(out)@
                    == old(out)@ + o,
                Err(e) => r == Err::<Action, Fault>(e) && final(env)@ == old(env)@ && final(out)@
                    == old(out)@,
            },
        decreases fuel, 2nat,
    {
        let is_call_op = match &instr.op {
            Some(OpCode::Call) => instr.label.is_none(),
            _ => false,
        };
        if !is_call_op {
            return eval_step(instr, env, out);
        }
        assert(old(out)@ + Seq::<Out>::empty() =~= old(out)@);
        let name = match operand(instr, 0) {
            None => return Err(Fault::Malformed),
            Some(n) => n,
        };
        let idx = match self.find_function(name) {
            None => return Err(Fault::UnknownFunction),
            Some(i) => i,
        };
        proof {
            lemma_find_fn_found(self.source().functions@, name@);
        }
        let callee = &self.program.functions[idx];
        let mut cenv = match Interpreter::bind_args(callee, instr, env) {
            Err(e) => return Err(e),
            Ok(c) => c,
        };
        match self.eval_func(callee, &mut cenv, out, fuel) {
            Err(e) => return Err(e),
            Ok(()) => {},
        }
        match &instr.dest {
            None => Ok(Action::Next),
            Some(d) => match cenv.get(&RETURN_VAR.to_owned()) {
                Some(v) => {
                    env.put(d, v);
                    Ok(Action::Next)
                },
                None => Err(Fault::NoReturnValue),
            },
        }
    }

    /// Runs `func` in frame `env` with at most `fuel` steps, appending what
    /// it prints to `out`.
    pub fn eval_func(&self, func: &Function, env: &mut Env, out: &mut Vec<Out>, fuel: u64) -> (r:
        Result<(), Fault>)
        requires
            old(env).wf(),
        ensures
            final(env).wf(),
            ({
                let res = run(self.source(), *func, 0, old(env)@, fuel as nat);
                &&& final(out)@ == old(out)@ + res.1
                &&& match res.0 {
                    Ok(m) => r is Ok && final(env)@ == m,
                    Err(e) => r == Err::<(), Fault>(e) && final(env)@ == stop_frame(
                        self.source(),
                        *func,
                        0,
                        old(env)@,
                        fuel as nat,
                    ),
                }
            }),
        decreases fuel, 1nat,
    {
        let ghost total = run(self.source(), *func, 0, old(env)@, fuel as nat);
        let ghost mut produced: Seq<Out> = seq![];
        let mut pc: usize = 0;
        let mut fuel_left: u64 = fuel;
        assert(old(out)@ + Seq::<Out>::empty() =~= old(out)@);
        while pc < func.instrs.len()
            invariant
                env.wf(),
                fuel_left <= fuel,
                out@ == old(out)@ + produced,
                total == run(self.source(), *func, 0, old(env)@, fuel as nat),
                total.0 == run(self.source(), *func, pc as int, env@, fuel_left as nat).0,
                total.1 == produced + run(self.source(), *func, pc as int, env@, fuel_left as nat).1,
                stop_frame(self.source(), *func, 0, old(env)@, fuel as nat) == stop_frame(
                    self.source(),
                    *func,
                    pc as int,
                    env@,
                    fuel_left as nat,
                ),
            decreases fuel_left,
        {
            if fuel_left == 0 {
                assert(produced + Seq::<Out>::empty() =~= produced);
                return Err(Fault::OutOfFuel);
            }
            let ghost env0 = env@;
            let ghost out0 = out@;
            let instr = &func.instrs[pc];
            let act = self.eval_instr(instr, env, out, fuel_left - 1);
            proof {
                let ins = func.instrs@[pc as int];
                if is_call(ins) {
                    let c = call_effect(self.source(), ins, env0, (fuel_left - 1) as nat);
                    if c.0 is Ok {
                        let r = run(self.source(), *func, pc + 1, env@, (fuel_left - 1) as nat);
                        assert(produced + (c.1 + r.1) =~= (produced + c.1) + r.1);
                    } else {
                        assert(produced + c.1 =~= produced + c.1 + Seq::<Out>::empty());
                    }
                    assert(out@ =~= old(out)@ + (produced + c.1));
                    produced = produced + c.1;
                } else {
                    match step(ins, env0) {
                        Ok((a, m, o)) => {
                            match a {
                                Action::Next => {
                                    let r = run(self.source(), *func, pc + 1, m, (fuel_left - 1) as nat);
                                    assert(produced + (o + r.1) =~= (produced + o) + r.1);
                                },
                                Action::Jump(l) => {
                                    match label_index(func.instrs@, l@) {
                                        Some(t) => {
                                            let r = run(self.source(), *func, t, m, (fuel_left - 1) as nat);
                                            assert(produced + (o + r.1) =~= (produced + o) + r.1);
                                        },
                                        None => {},
                                    }
                                },
                                Action::Return => {},
                            }
                            assert(out@ =~= old(out)@ + (produced + o));
                            produced = produced + o;
                        },
                        Err(e) => {},
                    }
                }
            }
            match act {
                Err(e) => {
                    assert(produced + Seq::<Out>::empty() =~= produced);
                    return Err(e);
                },
                Ok(Action::Next) => {
                    pc = pc + 1;
                },
                Ok(Action::Return) => {
                    return Ok(());
                },
                Ok(Action::Jump(label)) => {
                    match Interpreter::find_label(func, &label) {
                        Some(t) => {
                            pc = t;
                        },
                        None => {
                            return Err(Fault::UnknownLabel);
                        },
                    }
                },
            }
            fuel_left = fuel_left - 1;
        }
        assert(produced + Seq::<Out>::empty() =~= produced);
        Ok(())
    }

    /// Runs `main` with `args` bound positionally to its parameters and at
    /// most `fuel` steps per frame; returns how it ended and what it printed.
    pub fn eval_program(&self, args: &Vec<i64>, fuel: u64) -> (r: (Result<(), Fault>, Vec<Out>))
        ensures
            ({
                let res = run_main(self.source(), args@, fuel as nat);
                &&& r.1@ == res.1
                &&& match res.0 {
                    Ok(_) => r.0 is Ok,
                    Err(e) => r.0 == Err::<(), Fault>(e),
                }
            }),
    {
        proof {
            reveal_strlit("main");
        }
        let mut out: Vec<Out> = Vec::new();
        let idx = match self.find_function(&"main".to_owned()) {
            None => return (Err(Fault::UnknownFunction), out),
            Some(i) => i,
        };
        proof {
            lemma_find_fn_found(self.source().functions@, "main"@);
        }
        let main = &self.program.functions[idx];
        let empty_p: Vec<Param> = Vec::new();
        let params = match &main.args {
            Some(ps) => ps,
            None => &empty_p,
        };
        assert(params@ == params_of(*main));
        if params.len() > args.len() {
            return (Err(Fault::MissingArgument), out);
        }
        let mut env = Env::new();
        assert(params@.take(0) =~= Seq::<Param>::empty());
        let mut i: usize = 0;
        while i < params.len()
            invariant
                env.wf(),
                i <= params@.len(),
                params@.len() <= args@.len(),
                env@ == main_frame(params@.take(i as int), args@),
            decreases params@.len() - i,
        {
            let ghost t = params@.take(i as int + 1);
            assert(t.drop_last() =~= params@.take(i as int));
            env.put(&params[i].name, Value::Int(args[i]));
            i += 1;
        }
        assert(params@.take(i as int) =~= params@);
        let res = self.eval_func(main, &mut env, &mut out, fuel);
        assert(Seq::<Out>::empty() + out@ =~= out@);
        (res, out)
    }
}

} // verus!
