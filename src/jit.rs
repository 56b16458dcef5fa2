use vstd::prelude::*;
use crate::env::{Env, Value, RETURN_VAR};
use crate::codegen::{compile, compiled, osr_view, AsmProgram, CompileError, Hosts};
use crate::interpreter::{
    arg_list, eval_step, find_fn, function_index, is_call, label_index, params_of, step, Action,
    Fault, Out,
};
use crate::program::{Instruction, OpCode, Param, Program};

verus! {

/// When functions move to compiled code. A call compiles its callee once the
/// callee's call count reaches `jit_n`; a label marker hands its frame to
/// compiled code once its hit count reaches `osr_n`.
#[derive(Clone, Copy, Debug, PartialEq, Eq, Structural)]
pub struct Tiers {
    pub jit: bool,
    pub jit_n: u64,
    pub osr: bool,
    pub osr_n: u64,
}

/// How to run a called function.
#[derive(Clone, Copy, Debug, PartialEq, Eq, Structural)]
pub enum CallPlan {
    /// Enter its installed code.
    Enter,
    /// Interpret it in a fresh frame.
    Interpret,
    /// Compile it, install the code, then enter it.
    Compile,
}

/// The per-function state of the tiered engine: which functions have
/// installed code, and the profile counters that decide tier-up.
pub struct Interpreter {
    tiers: Tiers,
    compiled: Vec<bool>,
    calls: Vec<u64>,
    label_hits: Vec<Vec<u64>>,
}

impl Interpreter {
    pub closed spec fn tiers(&self) -> Tiers {
        self.tiers
    }

    /// Whether function `i` has installed code.
    pub closed spec fn is_compiled(&self, i: int) -> bool {
        self.compiled@[i]
    }

    /// How often function `i` was entered outside installed code.
    pub closed spec fn call_count(&self, i: int) -> u64 {
        self.calls@[i]
    }

    /// How often the marker at instruction `pc` of function `i` was reached.
    pub closed spec fn hit_count(&self, i: int, pc: int) -> u64 {
        self.label_hits@[i]@[pc]
    }

    /// The number of functions.
    pub closed spec fn size(&self) -> nat {
        self.compiled@.len()
    }

    /// The number of instructions of function `i`.
    pub closed spec fn width(&self, i: int) -> nat {
        self.label_hits@[i]@.len()
    }

    pub closed spec fn wf(&self) -> bool {
        &&& self.calls@.len() == self.compiled@.len()
        &&& self.label_hits@.len() == self.compiled@.len()
    }

    /// Shaped after `p`: one entry per function, one label counter per
    /// instruction.
    pub open spec fn fits(&self, p: Program) -> bool {
        &&& self.wf()
        &&& self.size() == p.functions@.len()
        &&& forall|i: int|
            0 <= i < p.functions@.len() ==> #[trigger] self.width(i) == p.functions@[i].instrs@.len()
    }

    /// A dispatcher for `p` with no installed code and every counter at zero.
    pub fn new(p: &Program, tiers: Tiers) -> (r: Interpreter)
        ensures
            r.fits(*p),
            r.tiers() == tiers,
            forall|i: int| 0 <= i < r.size() ==> !#[trigger] r.is_compiled(i) && r.call_count(i) == 0,
            forall|i: int, pc: int|
                0 <= i < r.size() && 0 <= pc < r.width(i) ==> #[trigger] r.hit_count(i, pc) == 0,
    {
        let mut compiled: Vec<bool> = Vec::new();
        let mut calls: Vec<u64> = Vec::new();
        let mut label_hits: Vec<Vec<u64>> = Vec::new();
        let mut i: usize = 0;
        while i < p.functions.len()
            invariant
                i <= p.functions@.len(),
                compiled@.len() == i,
                calls@.len() == i,
                label_hits@.len() == i,
                forall|k: int| 0 <= k < i ==> !#[trigger] compiled@[k] && calls@[k] == 0,
                forall|k: int|
                    0 <= k < i ==> (#[trigger] label_hits@[k])@.len() == p.functions@[k].instrs@.len(),
                forall|k: int, pc: int|
                    0 <= k < i && 0 <= pc < label_hits@[k]@.len() ==> #[trigger] label_hits@[k]@[pc] == 0,
            decreases p.functions@.len() - i,
        {
            let n = p.functions[i].instrs.len();
            let mut hits: Vec<u64> = Vec::new();
            let mut j: usize = 0;
            while j < n
                invariant
                    j <= n,
                    hits@.len() == j,
                    forall|pc: int| 0 <= pc < j ==> #[trigger] hits@[pc] == 0,
                decreases n - j,
            {
                hits.push(0);
                j += 1;
            }
            compiled.push(false);
            calls.push(0);
            label_hits.push(hits);
            i += 1;
        }
        Interpreter { tiers, compiled, calls, label_hits }
    }

    /// Decides how to run a call of function `idx`. Installed code is entered
    /// directly; otherwise the call is counted, and the callee is compiled
    /// when compilation is on and the count has reached the threshold.
    pub fn handle_call(&mut self, idx: usize) -> (r: CallPlan)
        requires
            old(self).wf(),
            idx < old(self).size(),
        ensures
            final(self).wf(),
            final(self).size() == old(self).size(),
            final(self).tiers() == old(self).tiers(),
            forall|i: int| 0 <= i < old(self).size() ==> #[trigger] final(self).width(i) == old(self).width(i),
            forall|i: int, pc: int| #[trigger] final(self).hit_count(i, pc) == old(self).hit_count(i, pc),
            forall|i: int| 0 <= i < old(self).size() ==> #[trigger] final(self).is_compiled(i) == old(self).is_compiled(i),
            forall|i: int| 0 <= i < old(self).size() && i != idx ==> #[trigger] final(self).call_count(i) == old(self).call_count(i),
            old(self).is_compiled(idx as int) ==> r == CallPlan::Enter && final(self).call_count(idx as int) == old(self).call_count(idx as int),
            !old(self).is_compiled(idx as int) ==> ({
                let c = final(self).call_count(idx as int);
                &&& c == (if old(self).call_count(idx as int) == u64::MAX { u64::MAX } else { (old(self).call_count(idx as int) + 1) as u64 })
                &&& r == (if old(self).tiers().jit && c >= old(self).tiers().jit_n { CallPlan::Compile } else { CallPlan::Interpret })
            }),
    {
        if self.compiled[idx] {
            return CallPlan::Enter;
        }
        let c = self.calls[idx].saturating_add(1);
        self.calls.set(idx, c);
        if self.tiers.jit && c >= self.tiers.jit_n {
            CallPlan::Compile
        } else {
            CallPlan::Interpret
        }
    }

    /// Compiles function `idx` of `p`; with `osr`, the code also gets an entry
    /// that resumes at the label with the frame's values.
    pub fn compile(&self, p: &Program, idx: usize, hosts: Hosts, osr: Option<(&Env, &String)>) -> (r:
        Result<AsmProgram, CompileError>)
        requires
            idx < p.functions@.len(),
            osr matches Some((e, _)) ==> e.wf(),
        ensures
            match compiled(*p, p.functions@[idx as int], hosts, osr_view(osr)) {
                Ok((c, s, o)) => r matches Ok(a) && a.code@ == c && a.start == s && a.osr_start == o,
                Err(e) => r matches Err(g) && g == e,
            },
    {
        compile(p, &p.functions[idx], hosts, osr)
    }

    /// Compiles function `idx` with an entry that takes over `env` at
    /// `label`, and records the code as installed.
    pub fn handle_osr(&mut self, p: &Program, env: &Env, idx: usize, label: &String, hosts: Hosts) -> (r:
        Result<AsmProgram, CompileError>)
        requires
            old(self).wf(),
            idx < old(self).size(),
            idx < p.functions@.len(),
            env.wf(),
        ensures
            final(self).wf(),
            final(self).size() == old(self).size(),
            final(self).tiers() == old(self).tiers(),
            forall|i: int| 0 <= i < old(self).size() ==> #[trigger] final(self).width(i) == old(self).width(i),
            forall|i: int, pc: int| #[trigger] final(self).hit_count(i, pc) == old(self).hit_count(i, pc),
            forall|i: int| #[trigger] final(self).call_count(i) == old(self).call_count(i),
            match compiled(*p, p.functions@[idx as int], hosts, Some((env@, label@))) {
                Ok((c, s, o)) => r matches Ok(a) && a.code@ == c && a.start == s && a.osr_start == o
                    && forall|i: int| 0 <= i < old(self).size() ==> #[trigger] final(self).is_compiled(i) == (i == idx || old(self).is_compiled(i)),
                Err(e) => r matches Err(g) && g == e && forall|i: int| 0 <= i < old(self).size() ==> #[trigger] final(self).is_compiled(i) == old(self).is_compiled(i),
            },
    {
        let r = compile(p, &p.functions[idx], hosts, Some((env, label)));
        if r.is_ok() {
            self.install(idx);
        }
        r
    }

    /// Records that function `idx` now has installed code.
    pub fn install(&mut self, idx: usize)
        requires
            old(self).wf(),
            idx < old(self).size(),
        ensures
            final(self).wf(),
            final(self).size() == old(self).size(),
            final(self).tiers() == old(self).tiers(),
            forall|i: int| 0 <= i < old(self).size() ==> #[trigger] final(self).width(i) == old(self).width(i),
            forall|i: int, pc: int| #[trigger] final(self).hit_count(i, pc) == old(self).hit_count(i, pc),
            forall|i: int| #[trigger] final(self).call_count(i) == old(self).call_count(i),
            forall|i: int| 0 <= i < old(self).size() ==> #[trigger] final(self).is_compiled(i) == (i == idx || old(self).is_compiled(i)),
    {
        self.compiled.set(idx, true);
    }

    /// Counts a visit of the marker at instruction `pc` of function `idx`, and
    /// says whether the frame moves to compiled code there: on-stack
    /// replacement is on, the function has no installed code, and the count
    /// has reached the threshold.
    pub fn hit_label(&mut self, idx: usize, pc: usize) -> (r: bool)
        requires
            old(self).wf(),
            idx < old(self).size(),
            pc < old(self).width(idx as int),
        ensures
            final(self).wf(),
            final(self).size() == old(self).size(),
            final(self).tiers() == old(self).tiers(),
            forall|i: int| 0 <= i < old(self).size() ==> #[trigger] final(self).width(i) == old(self).width(i),
            forall|i: int| 0 <= i < old(self).size() ==> #[trigger] final(self).is_compiled(i) == old(self).is_compiled(i),
            forall|i: int| #[trigger] final(self).call_count(i) == old(self).call_count(i),
            forall|i: int, q: int|
                0 <= i < old(self).size() && 0 <= q < old(self).width(i) && (i != idx || q != pc) ==> #[trigger] final(self).hit_count(i, q) == old(self).hit_count(i, q),
            ({
                let h = final(self).hit_count(idx as int, pc as int);
                &&& h == (if old(self).hit_count(idx as int, pc as int) == u64::MAX { u64::MAX } else { (old(self).hit_count(idx as int, pc as int) + 1) as u64 })
                &&& r == (old(self).tiers().osr && !old(self).is_compiled(idx as int) && h >= old(self).tiers().osr_n)
            }),
    {
        let mut hits: Vec<u64> = Vec::new();
        self.label_hits.set_and_swap(idx, &mut hits);
        let h = hits[pc].saturating_add(1);
        hits.set(pc, h);
        self.label_hits.set_and_swap(idx, &mut hits);
        self.tiers.osr && !self.compiled[idx] && h >= self.tiers.osr_n
    }
}

/// What a step of an interpreted frame asks of the engine.
#[derive(Clone, Debug, PartialEq, Eq)]
pub enum Event {
    /// The frame moved on; step it again.
    Next,
    /// Call function `callee` with these arguments, then hand the result to
    /// `finish_call`.
    Call { callee: usize, args: Vec<Value> },
    /// The frame returned, with its return slot's value if it has one.
    Returned(Option<Value>),
    /// Continue this frame in compiled code at the marker of this label.
    Osr(String),
    /// The frame was abandoned.
    Fault(Fault),
}

/// The callee's parameters bound to `args` in order.
pub open spec fn args_frame(params: Seq<Param>, args: Seq<Value>) -> Map<Seq<char>, Value>
    decreases params.len(),
{
    if params.len() == 0 {
        Map::empty()
    } else {
        args_frame(params.drop_last(), args).insert(params.last().name@, args[params.len() - 1])
    }
}

/// The value a frame returns: its return slot, if set.
pub open spec fn returned(env: Map<Seq<char>, Value>) -> Option<Value> {
    if env.contains_key(RETURN_VAR@) {
        Some(env[RETURN_VAR@])
    } else {
        None
    }
}

/// The value of a word that compiled code returned to a `call` instruction:
/// a boolean where the instruction records type `bool`, else an integer.
pub open spec fn word_value(ins: Instruction, w: i64) -> Value {
    if ins.ty matches Some(t) && t@ == "bool"@ {
        Value::Bool(w != 0)
    } else {
        Value::Int(w)
    }
}

pub fn value_of_word(ins: &Instruction, w: i64) -> (r: Value)
    ensures
        r == word_value(*ins, w),
{
    proof {
        reveal_strlit("bool");
    }
    let is_bool = match &ins.ty {
        Some(t) => crate::program::str_is(t, "bool"),
        None => false,
    };
    if is_bool {
        Value::Bool(w != 0)
    } else {
        Value::Int(w)
    }
}

/// What a `call` instruction asks for in frame `env`: the callee's index and
/// the values of the actual arguments.
pub open spec fn call_request(p: Program, ins: Instruction, env: Map<Seq<char>, Value>) -> Result<
    (int, Seq<Value>),
    Fault,
> {
    let a = arg_list(ins);
    if a.len() == 0 {
        Err(Fault::Malformed)
    } else {
        match find_fn(p.functions@, a[0]@) {
            None => Err(Fault::UnknownFunction),
            Some(i) => {
                let actuals = a.subrange(1, a.len() as int);
                if forall|k: int| 0 <= k < actuals.len() ==> env.contains_key(#[trigger] actuals[k]@) {
                    Ok((i, actuals.map_values(|n: String| env[n@])))
                } else {
                    Err(Fault::UnboundVariable)
                }
            },
        }
    }
}

/// An interpreted activation of function `func`, at instruction `pc`.
pub struct Frame {
    pub func: usize,
    pub pc: usize,
    pub env: Env,
}

impl Frame {
    pub open spec fn vars(&self) -> Map<Seq<char>, Value> {
        self.env@
    }

    pub open spec fn wf(&self) -> bool {
        self.env.wf()
    }

    /// A fresh frame of function `idx` with its parameters bound to `args`.
    pub fn enter(p: &Program, idx: usize, args: &Vec<Value>) -> (r: Result<Frame, Fault>)
        requires
            idx < p.functions@.len(),
        ensures
            params_of(p.functions@[idx as int]).len() > args@.len() ==> r == Err::<Frame, Fault>(
                Fault::MissingArgument,
            ),
            params_of(p.functions@[idx as int]).len() <= args@.len() ==> (r matches Ok(fr) && fr.wf()
                && fr.func == idx && fr.pc == 0 && fr.vars() == args_frame(
                params_of(p.functions@[idx as int]),
                args@,
            )),
    {
        let f = &p.functions[idx];
        let empty_p: Vec<Param> = Vec::new();
        let params = match &f.args {
            Some(ps) => ps,
            None => &empty_p,
        };
        assert(params@ == params_of(*f));
        if params.len() > args.len() {
            return Err(Fault::MissingArgument);
        }
        let mut env = Env::new();
        assert(params@.take(0) =~= Seq::<Param>::empty());
        let mut i: usize = 0;
        while i < params.len()
            invariant
                env.wf(),
                i <= params@.len(),
                params@.len() <= args@.len(),
                env@ == args_frame(params@.take(i as int), args@),
            decreases params@.len() - i,
        {
            let ghost t = params@.take(i as int + 1);
            assert(t.drop_last() =~= params@.take(i as int));
            env.put(&params[i].name, args[i]);
            i += 1;
        }
        assert(params@.take(i as int) =~= params@);
        Ok(Frame { func: idx, pc: 0, env })
    }

    /// Completes the `call` at `pc` with the callee's result: binds the
    /// destination, if the call has one, and moves past the call.
    pub fn finish_call(&mut self, p: &Program, result: Option<Value>) -> (r: Result<(), Fault>)
        requires
            old(self).wf(),
            old(self).func < p.functions@.len(),
            old(self).pc < p.functions@[old(self).func as int].instrs@.len(),
        ensures
            final(self).wf(),
            final(self).func == old(self).func,
            ({
                let ins = p.functions@[old(self).func as int].instrs@[old(self).pc as int];
                match ins.dest {
                    None => r is Ok && final(self).vars() == old(self).vars(),
                    Some(d) => match result {
                        Some(v) => r is Ok && final(self).vars() == old(self).vars().insert(d@, v),
                        None => r == Err::<(), Fault>(Fault::NoReturnValue),
                    },
                }
            }),
            r is Ok ==> final(self).pc == old(self).pc + 1,
    {
        let n = p.functions[self.func].instrs.len();
        let ins = &p.functions[self.func].instrs[self.pc];
        match &ins.dest {
            None => {},
            Some(d) => match result {
                Some(v) => self.env.put(d, v),
                None => return Err(Fault::NoReturnValue),
            },
        }
        self.pc = self.pc + 1;
        Ok(())
    }

    fn call_event(&self, p: &Program, ins: &Instruction) -> (r: Event)
        requires
            self.wf(),
        ensures
            match call_request(*p, *ins, self.vars()) {
                Ok((c, vs)) => r matches Event::Call { callee, args } && callee == c && args@ == vs,
                Err(e) => r == Event::Fault(e),
            },
    {
        let actuals = match &ins.args {
            Some(a) => if a.len() >= 1 {
                a
            } else {
                return Event::Fault(Fault::Malformed);
            },
            None => return Event::Fault(Fault::Malformed),
        };
        assert(actuals@ == arg_list(*ins));
        let callee = match function_index(p, &actuals[0]) {
            None => return Event::Fault(Fault::UnknownFunction),
            Some(i) => i,
        };
        let mut args: Vec<Value> = Vec::new();
        let mut k: usize = 1;
        while k < actuals.len()
            invariant
                self.wf(),
                1 <= k <= actuals@.len(),
                args@.len() == k - 1,
                actuals@ == arg_list(*ins),
                find_fn(p.functions@, actuals@[0]@) == Some(callee as int),
                forall|m: int| 0 <= m < args@.len() ==> self.vars().contains_key(#[trigger] actuals@[m + 1]@),
                forall|m: int| 0 <= m < args@.len() ==> #[trigger] args@[m] == self.vars()[actuals@[m + 1]@],
            decreases actuals@.len() - k,
        {
            match self.env.get(&actuals[k]) {
                None => {
                    proof {
                        let a = arg_list(*ins);
                        let rest = a.subrange(1, a.len() as int);
                        assert(rest[k - 1] == actuals@[k as int]);
                    }
                    return Event::Fault(Fault::UnboundVariable);
                },
                Some(v) => {
                    let ghost before = args@;
                    args.push(v);
                    assert forall|m: int| 0 <= m < args@.len() implies #[trigger] args@[m] == self.vars()[actuals@[m + 1]@] by {
                        if m < before.len() {
                            assert(args@[m] == before[m]);
                        } else {
                            assert(m == k - 1);
                            assert(args@[m] == v);
                        }
                    }
                    assert forall|m: int| 0 <= m < args@.len() implies self.vars().contains_key(#[trigger] actuals@[m + 1]@) by {
                        if m == k - 1 {
                            assert(self.env@.contains_key(actuals@[k as int]@));
                        }
                    }
                },
            }
            k += 1;
        }
        proof {
            let a = arg_list(*ins);
            let rest = a.subrange(1, a.len() as int);
            assert forall|m: int| 0 <= m < rest.len() implies self.vars().contains_key(#[trigger] rest[m]@) by {
                assert(rest[m] == actuals@[m + 1]);
            }
            assert(args@ =~= rest.map_values(|n: String| self.vars()[n@]));
        }
        Event::Call { callee, args }
    }

    /// Runs one instruction of this frame. Label markers are counted in `d`
    /// and may hand the frame to compiled code; calls are handed to the
    /// engine; everything else is interpreted here.
    pub fn step(&mut self, p: &Program, d: &mut Interpreter, out: &mut Vec<Out>) -> (r: Event)
        requires
            old(self).wf(),
            old(d).fits(*p),
            old(self).func < p.functions@.len(),
        ensures
            final(self).wf(),
            final(d).fits(*p),
            final(d).tiers() == old(d).tiers(),
            final(self).func == old(self).func,
            ({
                let f = p.functions@[old(self).func as int];
                let pc = old(self).pc as int;
                if pc >= f.instrs@.len() {
                    &&& r == Event::Returned(returned(old(self).vars()))
                    &&& final(out)@ == old(out)@
                    &&& *final(d) == *old(d)
                } else {
                    let ins = f.instrs@[pc];
                    if ins.label is Some {
                        let fi = old(self).func as int;
                        let h0 = old(d).hit_count(fi, pc);
                        let h = final(d).hit_count(fi, pc);
                        &&& final(out)@ == old(out)@
                        &&& final(self).vars() == old(self).vars()
                        &&& h == (if h0 == u64::MAX { u64::MAX } else { (h0 + 1) as u64 })
                        &&& (r is Osr) <==> (old(d).tiers().osr && !old(d).is_compiled(fi) && h >= old(d).tiers().osr_n)
                        &&& r is Osr ==> r == Event::Osr(ins.label->0) && final(self).pc == pc
                        &&& !(r is Osr) ==> r == Event::Next && final(self).pc == pc + 1
                        &&& forall|i: int| 0 <= i < old(d).size() ==> #[trigger] final(d).width(i) == old(d).width(i)
                        &&& forall|i: int| 0 <= i < old(d).size() ==> #[trigger] final(d).is_compiled(i) == old(d).is_compiled(i)
                        &&& forall|i: int| #[trigger] final(d).call_count(i) == old(d).call_count(i)
                        &&& forall|i: int, q: int|
                            0 <= i < old(d).size() && 0 <= q < old(d).width(i) && (i != fi || q != pc) ==> #[trigger] final(d).hit_count(i, q) == old(d).hit_count(i, q)
                    } else if is_call(ins) {
                        &&& *final(d) == *old(d)
                        &&& final(out)@ == old(out)@
                        &&& final(self).vars() == old(self).vars()
                        &&& final(self).pc == pc
                        &&& match call_request(*p, ins, old(self).vars()) {
                            Ok((c, vs)) => r matches Event::Call { callee, args } && callee == c && args@ == vs,
                            Err(e) => r == Event::Fault(e),
                        }
                    } else {
                        &&& *final(d) == *old(d)
                        &&& match step(ins, old(self).vars()) {
                            Err(e) => r == Event::Fault(e) && final(self).vars() == old(self).vars()
                                && final(out)@ == old(out)@,
                            Ok((a, m, o)) => {
                                &&& final(self).vars() == m
                                &&& final(out)@ == old(out)@ + o
                                &&& match a {
                                    Action::Next => r == Event::Next && final(self).pc == pc + 1,
                                    Action::Return => r == Event::Returned(returned(m)),
                                    Action::Jump(l) => match label_index(f.instrs@, l@) {
                                        Some(t) => r == Event::Next && final(self).pc == t,
                                        None => r == Event::Fault(Fault::UnknownLabel),
                                    },
                                }
                            },
                        }
                    }
                }
            }),
    {
        let f = &p.functions[self.func];
        if self.pc >= f.instrs.len() {
            return Event::Returned(self.env.get(&RETURN_VAR.to_owned()));
        }
        let ins = &f.instrs[self.pc];
        match &ins.label {
            Some(l) => {
                if d.hit_label(self.func, self.pc) {
                    return Event::Osr(l.clone());
                }
                self.pc = self.pc + 1;
                return Event::Next;
            },
            None => {},
        }
        let is_call_op = match &ins.op {
            Some(OpCode::Call) => true,
            _ => false,
        };
        if is_call_op {
            return self.call_event(p, ins);
        }
        match eval_step(ins, &mut self.env, out) {
            Err(e) => Event::Fault(e),
            Ok(Action::Next) => {
                self.pc = self.pc + 1;
                Event::Next
            },
            Ok(Action::Return) => Event::Returned(self.env.get(&RETURN_VAR.to_owned())),
            Ok(Action::Jump(l)) => match crate::interpreter::Interpreter::find_label(f, &l) {
                Some(t) => {
                    self.pc = t;
                    Event::Next
                },
                None => Event::Fault(Fault::UnknownLabel),
            },
        }
    }
}

} // verus!
