use vstd::prelude::*;

verus! {

/// A literal carried by a `const` instruction.
#[derive(Clone, Debug, PartialEq, Eq, Structural)]
pub enum InstrType {
    VInt(i64),
    VBool(bool),
}

/// The operation of an instruction. The binary and unary operator families
/// keep the operator's name.
#[derive(Clone, Debug)]
pub enum OpCode {
    BinOp(String),
    BinOpBool(String),
    Call,
    Const,
    Nop,
    Print,
    Jmp,
    Br,
    Ret,
    Id,
    UnOpBool(String),
}

/// A decoded program: its functions in declaration order.
#[derive(Clone, Debug)]
pub struct Program {
    pub functions: Vec<Function>,
}

#[derive(Clone, Debug)]
pub struct Function {
    pub args: Option<Vec<Param>>,
    pub instrs: Vec<Instruction>,
    pub name: String,
}

#[derive(Clone, Debug)]
pub struct Param {
    pub name: String,
}

/// Either a label marker (only `label` set) or an operation.
#[derive(Clone, Debug)]
pub struct Instruction {
    pub label: Option<String>,
    pub args: Option<Vec<String>>,
    pub dest: Option<String>,
    pub op: Option<OpCode>,
    pub value: Option<InstrType>,
    pub ty: Option<String>,
}

/// The integer binary operators.
pub open spec fn is_int_binop_name(s: Seq<char>) -> bool {
    s == "add"@ || s == "sub"@ || s == "mul"@ || s == "div"@ || s == "eq"@ || s == "lt"@
        || s == "gt"@ || s == "le"@ || s == "ge"@
}

/// The boolean binary operators.
pub open spec fn is_bool_binop_name(s: Seq<char>) -> bool {
    s == "and"@ || s == "or"@
}

/// The opcode that an operation name denotes, if any.
pub open spec fn opcode_named(s: Seq<char>, op: OpCode) -> bool {
    match op {
        OpCode::BinOp(n) => is_int_binop_name(s) && n@ == s,
        OpCode::BinOpBool(n) => is_bool_binop_name(s) && n@ == s,
        OpCode::UnOpBool(n) => s == "not"@ && n@ == s,
        OpCode::Nop => s == "nop"@,
        OpCode::Const => s == "const"@,
        OpCode::Jmp => s == "jmp"@,
        OpCode::Br => s == "br"@,
        OpCode::Ret => s == "ret"@,
        OpCode::Id => s == "id"@,
        OpCode::Print => s == "print"@,
        OpCode::Call => s == "call"@,
    }
}

/// Whether `s` names an operation of the IR.
pub open spec fn is_op_name(s: Seq<char>) -> bool {
    is_int_binop_name(s) || is_bool_binop_name(s) || s == "not"@ || s == "nop"@ || s
        == "const"@ || s == "jmp"@ || s == "br"@ || s == "ret"@ || s == "id"@ || s == "print"@
        || s == "call"@
}

/// `a == b` on a string and a literal.
pub fn str_is(a: &String, b: &str) -> (r: bool)
    ensures
        r == (a@ == b@),
{
    *a == b.to_owned()
}

impl OpCode {
    /// Decodes an operation name; unknown names give `None`.
    pub fn from_name(op: &String) -> (r: Option<OpCode>)
        ensures
            r is Some <==> is_op_name(op@),
            r matches Some(c) ==> opcode_named(op@, c),
    {
        proof {
            reveal_strlit("add");
            reveal_strlit("sub");
            reveal_strlit("mul");
            reveal_strlit("div");
            reveal_strlit("eq");
            reveal_strlit("lt");
            reveal_strlit("gt");
            reveal_strlit("le");
            reveal_strlit("ge");
            reveal_strlit("and");
            reveal_strlit("or");
            reveal_strlit("not");
            reveal_strlit("nop");
            reveal_strlit("const");
            reveal_strlit("jmp");
            reveal_strlit("br");
            reveal_strlit("ret");
            reveal_strlit("id");
            reveal_strlit("print");
            reveal_strlit("call");
        }
        if str_is(op, "nop") {
            Some(OpCode::Nop)
        } else if str_is(op, "add") || str_is(op, "mul") || str_is(op, "sub") || str_is(op, "div")
            || str_is(op, "eq") || str_is(op, "lt") || str_is(op, "gt") || str_is(op, "le")
            || str_is(op, "ge") {
            Some(OpCode::BinOp(op.clone()))
        } else if str_is(op, "and") || str_is(op, "or") {
            Some(OpCode::BinOpBool(op.clone()))
        } else if str_is(op, "not") {
            Some(OpCode::UnOpBool(op.clone()))
        } else if str_is(op, "const") {
            Some(OpCode::Const)
        } else if str_is(op, "jmp") {
            Some(OpCode::Jmp)
        } else if str_is(op, "br") {
            Some(OpCode::Br)
        } else if str_is(op, "ret") {
            Some(OpCode::Ret)
        } else if str_is(op, "id") {
            Some(OpCode::Id)
        } else if str_is(op, "print") {
            Some(OpCode::Print)
        } else if str_is(op, "call") {
            Some(OpCode::Call)
        } else {
            None
        }
    }
}

} // verus!
