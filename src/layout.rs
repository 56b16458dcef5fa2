use vstd::prelude::*;
use crate::program::{Function, Instruction, Param, str_is};
use crate::interpreter::params_of;

verus! {

/// `names` with `n` appended unless already present.
pub open spec fn add_name(names: Seq<String>, n: String) -> Seq<String> {
    if exists|i: int| 0 <= i < names.len() && (#[trigger] names[i])@ == n@ {
        names
    } else {
        names.push(n)
    }
}

pub open spec fn param_names(ps: Seq<Param>) -> Seq<String>
    decreases ps.len(),
{
    if ps.len() == 0 {
        seq![]
    } else {
        add_name(param_names(ps.drop_last()), ps.last().name)
    }
}

pub open spec fn dest_names(acc: Seq<String>, is: Seq<Instruction>) -> Seq<String>
    decreases is.len(),
{
    if is.len() == 0 {
        acc
    } else {
        let a = dest_names(acc, is.drop_last());
        match is.last().dest {
            Some(d) => add_name(a, d),
            None => a,
        }
    }
}

/// The variables of `f` in first-seen order: parameters as declared, then
/// destinations in instruction order. Variable `j` lives in frame slot `j + 1`.
pub open spec fn frame_vars(f: Function) -> Seq<String> {
    dest_names(param_names(params_of(f)), f.instrs@)
}

/// The type recorded for `n`: that of the first instruction defining `n`
/// with a type.
pub open spec fn recorded_type(is: Seq<Instruction>, n: Seq<char>) -> Option<Seq<char>>
    decreases is.len(),
{
    if is.len() == 0 {
        None
    } else {
        match recorded_type(is.drop_last(), n) {
            Some(t) => Some(t),
            None => match (is.last().dest, is.last().ty) {
                (Some(d), Some(t)) if d@ == n => Some(t@),
                _ => None,
            },
        }
    }
}

/// The first position of name `n`.
pub open spec fn position(names: Seq<String>, n: Seq<char>) -> Option<int>
    decreases names.len(),
{
    if names.len() == 0 {
        None
    } else {
        match position(names.drop_last(), n) {
            Some(i) => Some(i),
            None => if names.last()@ == n {
                Some(names.len() - 1)
            } else {
                None
            },
        }
    }
}

pub open spec fn distinct(names: Seq<String>) -> bool {
    forall|i: int, j: int| 0 <= i < j < names.len() ==> (#[trigger] names[i])@ != (#[trigger] names[j])@
}

/// The frame of a compiled function: its variables in slot order, and which
/// of them print as booleans.
pub struct Layout {
    pub vars: Vec<String>,
    pub bools: Vec<bool>,
}

impl Layout {
    pub open spec fn describes(&self, f: Function) -> bool {
        &&& self.vars@ == frame_vars(f)
        &&& self.bools@.len() == self.vars@.len()
        &&& forall|k: int|
            0 <= k < self.vars@.len() ==> #[trigger] self.bools@[k] == (recorded_type(
                f.instrs@,
                self.vars@[k]@,
            ) == Some("bool"@))
    }
}

proof fn lemma_position_prefix(names: Seq<String>, n: Seq<char>, k: int)
    requires
        0 <= k <= names.len(),
        position(names.take(k), n) is Some,
    ensures
        position(names, n) == position(names.take(k), n),
    decreases names.len(),
{
    if k == names.len() {
        assert(names.take(k) =~= names);
    } else {
        assert(names.drop_last().take(k) =~= names.take(k));
        lemma_position_prefix(names.drop_last(), n, k);
    }
}

pub proof fn lemma_position_found(names: Seq<String>, n: Seq<char>)
    requires
        position(names, n) is Some,
    ensures
        0 <= position(names, n)->0 < names.len(),
        names[position(names, n)->0]@ == n,
    decreases names.len(),
{
    if position(names.drop_last(), n) is Some {
        lemma_position_found(names.drop_last(), n);
    }
}

proof fn lemma_position_none(names: Seq<String>, n: Seq<char>)
    requires
        position(names, n) is None,
    ensures
        forall|i: int| 0 <= i < names.len() ==> (#[trigger] names[i])@ != n,
    decreases names.len(),
{
    if names.len() > 0 {
        lemma_position_none(names.drop_last(), n);
        assert forall|i: int| 0 <= i < names.len() implies (#[trigger] names[i])@ != n by {
            if i < names.len() - 1 {
                assert(names[i] == names.drop_last()[i]);
            }
        }
    }
}

/// The first position of `n` in `names`.
pub fn find_name(names: &Vec<String>, n: &String) -> (r: Option<usize>)
    ensures
        r matches Some(i) ==> position(names@, n@) == Some(i as int),
        r is None ==> position(names@, n@) is None,
{
    let mut i: usize = 0;
    while i < names.len()
        invariant
            i <= names@.len(),
            position(names@.take(i as int), n@) is None,
        decreases names@.len() - i,
    {
        let ghost t = names@.take(i as int + 1);
        assert(t.drop_last() =~= names@.take(i as int));
        if names[i] == *n {
            proof {
                lemma_position_prefix(names@, n@, i as int + 1);
            }
            return Some(i);
        }
        i += 1;
    }
    assert(names@.take(i as int) =~= names@);
    None
}

fn push_name(names: &mut Vec<String>, n: &String)
    ensures
        final(names)@ == add_name(old(names)@, *n),
{
    match find_name(names, n) {
        Some(i) => {
            proof {
                lemma_position_found(old(names)@, n@);
            }
        },
        None => {
            proof {
                lemma_position_none(old(names)@, n@);
            }
            names.push(n.clone());
        },
    }
}

proof fn lemma_recorded_prefix(is: Seq<Instruction>, n: Seq<char>, k: int)
    requires
        0 <= k <= is.len(),
        recorded_type(is.take(k), n) is Some,
    ensures
        recorded_type(is, n) == recorded_type(is.take(k), n),
    decreases is.len(),
{
    if k == is.len() {
        assert(is.take(k) =~= is);
    } else {
        assert(is.drop_last().take(k) =~= is.take(k));
        lemma_recorded_prefix(is.drop_last(), n, k);
    }
}

/// Whether the recorded type of `n` is `bool`.
fn recorded_bool(f: &Function, n: &String) -> (r: bool)
    ensures
        r == (recorded_type(f.instrs@, n@) == Some("bool"@)),
{
    let mut i: usize = 0;
    while i < f.instrs.len()
        invariant
            i <= f.instrs@.len(),
            recorded_type(f.instrs@.take(i as int), n@) is None,
        decreases f.instrs@.len() - i,
    {
        let ghost t = f.instrs@.take(i as int + 1);
        assert(t.drop_last() =~= f.instrs@.take(i as int));
        let ins = &f.instrs[i];
        match (&ins.dest, &ins.ty) {
            (Some(d), Some(t)) => {
                if *d == *n {
                    proof {
                        lemma_recorded_prefix(f.instrs@, n@, i as int + 1);
                        reveal_strlit("bool");
                    }
                    return str_is(t, "bool");
                }
            },
            _ => {},
        }
        i += 1;
    }
    assert(f.instrs@.take(i as int) =~= f.instrs@);
    false
}

/// Assigns the frame slots of `f`.
pub fn frame_layout(f: &Function) -> (r: Layout)
    ensures
        r.describes(*f),
        distinct(r.vars@),
{
    proof {
        lemma_frame_vars_distinct(*f);
    }
    let mut vars: Vec<String> = Vec::new();
    let empty_p: Vec<Param> = Vec::new();
    let params = match &f.args {
        Some(ps) => ps,
        None => &empty_p,
    };
    assert(params@ == params_of(*f));
    assert(params@.take(0) =~= Seq::<Param>::empty());
    let mut i: usize = 0;
    while i < params.len()
        invariant
            i <= params@.len(),
            vars@ == param_names(params@.take(i as int)),
        decreases params@.len() - i,
    {
        let ghost t = params@.take(i as int + 1);
        assert(t.drop_last() =~= params@.take(i as int));
        push_name(&mut vars, &params[i].name);
        i += 1;
    }
    assert(params@.take(i as int) =~= params@);
    let ghost base = vars@;
    assert(f.instrs@.take(0) =~= Seq::<Instruction>::empty());
    let mut j: usize = 0;
    while j < f.instrs.len()
        invariant
            j <= f.instrs@.len(),
            base == param_names(params_of(*f)),
            vars@ == dest_names(base, f.instrs@.take(j as int)),
        decreases f.instrs@.len() - j,
    {
        let ghost t = f.instrs@.take(j as int + 1);
        assert(t.drop_last() =~= f.instrs@.take(j as int));
        match &f.instrs[j].dest {
            Some(d) => push_name(&mut vars, d),
            None => {},
        }
        j += 1;
    }
    assert(f.instrs@.take(j as int) =~= f.instrs@);
    let mut bools: Vec<bool> = Vec::new();
    let mut k: usize = 0;
    while k < vars.len()
        invariant
            k <= vars@.len(),
            bools@.len() == k,
            forall|m: int|
                0 <= m < k ==> #[trigger] bools@[m] == (recorded_type(f.instrs@, vars@[m]@) == Some(
                    "bool"@,
                )),
        decreases vars@.len() - k,
    {
        let b = recorded_bool(f, &vars[k]);
        bools.push(b);
        k += 1;
    }
    Layout { vars, bools }
}

proof fn lemma_add_name(names: Seq<String>, n: String)
    ensures
        add_name(names, n).len() >= names.len(),
        add_name(names, n).take(names.len() as int) =~= names,
        exists|j: int| 0 <= j < add_name(names, n).len() && (#[trigger] add_name(names, n)[j])@ == n@,
{
    if exists|i: int| 0 <= i < names.len() && (#[trigger] names[i])@ == n@ {
    } else {
        assert(add_name(names, n)[names.len() as int]@ == n@);
    }
}

proof fn lemma_dest_names_keeps(acc: Seq<String>, is: Seq<Instruction>)
    ensures
        dest_names(acc, is).len() >= acc.len(),
        dest_names(acc, is).take(acc.len() as int) =~= acc,
    decreases is.len(),
{
    if is.len() > 0 {
        lemma_dest_names_keeps(acc, is.drop_last());
        let a = dest_names(acc, is.drop_last());
        match is.last().dest {
            Some(d) => {
                lemma_add_name(a, d);
                assert(add_name(a, d).take(acc.len() as int) =~= add_name(a, d).take(a.len() as int).take(
                    acc.len() as int,
                ));
            },
            None => {},
        }
    }
}

proof fn lemma_param_names_has(ps: Seq<Param>, i: int)
    requires
        0 <= i < ps.len(),
    ensures
        exists|j: int| 0 <= j < param_names(ps).len() && (#[trigger] param_names(ps)[j])@ == ps[i].name@,
    decreases ps.len(),
{
    let q = param_names(ps.drop_last());
    lemma_add_name(q, ps.last().name);
    assert(param_names(ps) == add_name(q, ps.last().name));
    if i == ps.len() - 1 {
        assert(ps[i] == ps.last());
    } else {
        lemma_param_names_has(ps.drop_last(), i);
        let j = choose|j: int| 0 <= j < q.len() && (#[trigger] q[j])@ == ps.drop_last()[i].name@;
        assert(add_name(q, ps.last().name).take(q.len() as int)[j] == q[j]);
        assert(ps.drop_last()[i] == ps[i]);
        assert(param_names(ps)[j]@ == ps[i].name@);
    }
}

proof fn lemma_position_some(names: Seq<String>, n: Seq<char>, j: int)
    requires
        0 <= j < names.len(),
        names[j]@ == n,
    ensures
        position(names, n) is Some,
{
    if position(names, n) is None {
        lemma_position_none(names, n);
    }
}

/// Every parameter of `f` has a slot.
pub proof fn lemma_param_has_slot(f: Function, i: int)
    requires
        0 <= i < params_of(f).len(),
    ensures
        position(frame_vars(f), params_of(f)[i].name@) is Some,
{
    let ps = params_of(f);
    lemma_param_names_has(ps, i);
    let q = param_names(ps);
    let j = choose|j: int| 0 <= j < q.len() && (#[trigger] q[j])@ == ps[i].name@;
    lemma_dest_names_keeps(q, f.instrs@);
    assert(frame_vars(f).take(q.len() as int)[j] == q[j]);
    lemma_position_some(frame_vars(f), ps[i].name@, j);
}

proof fn lemma_add_name_distinct(names: Seq<String>, n: String)
    requires
        distinct(names),
    ensures
        distinct(add_name(names, n)),
{
    if !(exists|i: int| 0 <= i < names.len() && (#[trigger] names[i])@ == n@) {
        let r = names.push(n);
        assert forall|i: int, j: int| 0 <= i < j < r.len() implies (#[trigger] r[i])@ != (#[trigger] r[j])@ by {
            if j == names.len() {
                assert(r[i] == names[i]);
            } else {
                assert(r[i] == names[i] && r[j] == names[j]);
            }
        }
    }
}

proof fn lemma_param_names_distinct(ps: Seq<Param>)
    ensures
        distinct(param_names(ps)),
    decreases ps.len(),
{
    if ps.len() > 0 {
        lemma_param_names_distinct(ps.drop_last());
        lemma_add_name_distinct(param_names(ps.drop_last()), ps.last().name);
    }
}

proof fn lemma_dest_names_distinct(acc: Seq<String>, is: Seq<Instruction>)
    requires
        distinct(acc),
    ensures
        distinct(dest_names(acc, is)),
    decreases is.len(),
{
    if is.len() > 0 {
        lemma_dest_names_distinct(acc, is.drop_last());
        match is.last().dest {
            Some(d) => lemma_add_name_distinct(dest_names(acc, is.drop_last()), d),
            None => {},
        }
    }
}

/// No variable has two slots.
pub proof fn lemma_frame_vars_distinct(f: Function)
    ensures
        distinct(frame_vars(f)),
{
    lemma_param_names_distinct(params_of(f));
    lemma_dest_names_distinct(param_names(params_of(f)), f.instrs@);
}

} // verus!
