use vstd::prelude::*;

verus! {

/// A runtime value: a tagged 64-bit integer or boolean.
#[derive(Clone, Copy, Debug, PartialEq, Eq, Structural)]
pub enum Value {
    Int(i64),
    Bool(bool),
}

impl Value {
    /// The 64-bit word that compiled code holds for this value (booleans as 0/1).
    pub open spec fn word(self) -> i64 {
        match self {
            Value::Int(n) => n,
            Value::Bool(b) => if b { 1 } else { 0 },
        }
    }

    pub fn to_word(&self) -> (r: i64)
        ensures
            r == self.word(),
    {
        match self {
            Value::Int(n) => *n,
            Value::Bool(b) => if *b { 1 } else { 0 },
        }
    }
}

/// The variables of one interpreted call frame.
pub struct Env {
    names: Vec<String>,
    vals: Vec<Value>,
}

/// The name of the slot in which a callee leaves its return value.
pub const RETURN_VAR: &'static str = "_ rho";

impl View for Env {
    type V = Map<Seq<char>, Value>;

    closed spec fn view(&self) -> Map<Seq<char>, Value> {
        Map::new(
            |k: Seq<char>| self.has_at(k),
            |k: Seq<char>| self.vals@[self.index_of(k)],
        )
    }
}

impl Env {
    pub closed spec fn has_at(&self, k: Seq<char>) -> bool {
        exists|i: int| 0 <= i < self.names@.len() && (#[trigger] self.names@[i])@ == k
    }

    pub closed spec fn index_of(&self, k: Seq<char>) -> int {
        choose|i: int| 0 <= i < self.names@.len() && (#[trigger] self.names@[i])@ == k
    }

    /// Parallel vectors, names pairwise distinct.
    pub closed spec fn wf(&self) -> bool {
        &&& self.names@.len() == self.vals@.len()
        &&& forall|i: int, j: int|
            0 <= i < j < self.names@.len() ==> (#[trigger] self.names@[i])@ != (
            #[trigger] self.names@[j])@
    }

    proof fn lemma_index(&self, i: int)
        requires
            self.wf(),
            0 <= i < self.names@.len(),
        ensures
            self@.contains_key(self.names@[i]@),
            self@[self.names@[i]@] == self.vals@[i],
    {
        let k = self.names@[i]@;
        assert(self.has_at(k));
        let j = self.index_of(k);
        if i < j {
        } else if j < i {
        }
    }

    pub fn new() -> (r: Env)
        ensures
            r.wf(),
            r@ == Map::<Seq<char>, Value>::empty(),
    {
        let r = Env { names: Vec::new(), vals: Vec::new() };
        assert(r@ =~= Map::<Seq<char>, Value>::empty());
        r
    }

    /// Looks a variable up by exact name.
    pub fn get(&self, var_name: &String) -> (r: Option<Value>)
        requires
            self.wf(),
        ensures
            r is Some <==> self@.contains_key(var_name@),
            r matches Some(v) ==> v == self@[var_name@],
    {
        let mut i: usize = 0;
        while i < self.names.len()
            invariant
                self.wf(),
                i <= self.names@.len(),
                forall|j: int| 0 <= j < i ==> (#[trigger] self.names@[j])@ != var_name@,
            decreases self.names@.len() - i,
        {
            if self.names[i] == *var_name {
                proof {
                    self.lemma_index(i as int);
                }
                return Some(self.vals[i]);
            }
            i += 1;
        }
        None
    }

    /// Binds `var_name` to `val`, replacing an earlier binding.
    pub fn put(&mut self, var_name: &String, val: Value)
        requires
            old(self).wf(),
        ensures
            final(self).wf(),
            final(self)@ == old(self)@.insert(var_name@, val),
    {
        let ghost before = self@;
        let mut i: usize = 0;
        while i < self.names.len()
            invariant
                self.wf(),
                self@ == before,
                before == old(self)@,
                i <= self.names@.len(),
                forall|j: int| 0 <= j < i ==> (#[trigger] self.names@[j])@ != var_name@,
            decreases self.names@.len() - i,
        {
            if self.names[i] == *var_name {
                let ghost old_env = *self;
                self.vals.set(i, val);
                proof {
                    assert forall|k: Seq<char>| #[trigger] self.has_at(k) == old_env.has_at(k) by {
                        if old_env.has_at(k) {
                            let j = old_env.index_of(k);
                            assert(self.names@[j]@ == k);
                        }
                        if self.has_at(k) {
                            let j = self.index_of(k);
                            assert(old_env.names@[j]@ == k);
                        }
                    }
                    assert forall|k: Seq<char>| self.has_at(k) implies self@[k] == before.insert(
                        var_name@,
                        val,
                    )[k] by {
                        let j = self.index_of(k);
                        self.lemma_index(j);
                        old_env.lemma_index(j);
                        if j != i {
                            assert(self.vals@[j] == old_env.vals@[j]);
                        }
                    }
                    assert(self.names@[i as int]@ == var_name@);
                    assert(old_env.names@[i as int]@ == var_name@);
                    assert(self@ =~= before.insert(var_name@, val));
                }
                return;
            }
            i += 1;
        }
        let ghost old_env = *self;
        self.names.push(var_name.clone());
        self.vals.push(val);
        proof {
            let n = old_env.names@.len() as int;
            assert(self.names@[n]@ == var_name@);
            assert forall|k: Seq<char>| #[trigger] self.has_at(k) == (old_env.has_at(k) || k
                == var_name@) by {
                if old_env.has_at(k) {
                    let j = old_env.index_of(k);
                    assert(self.names@[j]@ == k);
                }
                if self.has_at(k) && k != var_name@ {
                    let j = self.index_of(k);
                    assert(old_env.names@[j]@ == k);
                }
            }
            assert forall|k: Seq<char>| self.has_at(k) implies self@[k] == before.insert(
                var_name@,
                val,
            )[k] by {
                let j = self.index_of(k);
                self.lemma_index(j);
                if j < n {
                    old_env.lemma_index(j);
                }
            }
            assert(self@ =~= before.insert(var_name@, val));
        }
    }
}

} // verus!
