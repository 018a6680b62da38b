use vstd::prelude::*;

use super::ast2ir::Dest;
use crate::parser::ast::expr::{ComputeOp, CondOp, MathOp};
use crate::parser::ast::{Int, Type};
use crate::utils::util::push_char;

verus! {

/// A program in the intermediate form: its functions.
#[derive(Debug)]
pub struct AbstractProgram {
    pub functions: Vec<AbstractFunction>,
}

/// A function: its arguments, its basic blocks, its name and its return
/// type.
#[derive(Debug)]
pub struct AbstractFunction {
    pub args: Vec<AbstractArgument>,
    pub blocks: Vec<AbstractBasicBlock>,
    pub name: String,
    pub return_type: AbstractType,
}

/// A basic block: its code, its name, and the indices of the blocks that
/// control may pass to after it.
#[derive(Debug)]
pub struct AbstractBasicBlock {
    pub instrs: Vec<AbstractCode>,
    pub name: String,
    pub successors: Vec<usize>,
}

#[derive(Debug)]
pub struct AbstractArgument {
    pub name: String,
    pub arg_type: AbstractType,
}

/// A line of code: a label or an instruction.
#[derive(Debug)]
pub enum AbstractCode {
    Label { label: String },
    Instruction(AbstractInstruction),
}

#[derive(Debug)]
pub enum AbstractInstruction {
    Constant { dest: String, const_type: AbstractType, value: Literal },
    Compute { left: String, dest: Dest, right: String, op: MathOp, type_: Type },
    Assign { src: String, dest: Dest, type_: Option<AbstractType> },
    Ret { src: String },
    Value {
        args: Vec<String>,
        dest: String,
        funcs: Vec<String>,
        labels: Vec<String>,
        src: String,
        type_: Option<AbstractType>,
    },
    Effect { args: Vec<String>, funcs: Vec<String>, labels: Vec<String>, op: String },
    Br { arg: String, true_label: String, false_label: String },
    Jmp { label: String },
    Phi { dest: String, labels: Vec<String>, args: Vec<String> },
}

/// A type: a named one, such as `bool`, or a pointer to another.
#[derive(Debug)]
pub enum AbstractType {
    Type(String),
    Pointer(String, Box<AbstractType>),
}

#[derive(Debug)]
pub enum Literal {
    Int(Int),
}

/// The decimal digit `d`.
pub open spec fn digit_char(d: nat) -> char {
    if d == 0 {
        '0'
    } else if d == 1 {
        '1'
    } else if d == 2 {
        '2'
    } else if d == 3 {
        '3'
    } else if d == 4 {
        '4'
    } else if d == 5 {
        '5'
    } else if d == 6 {
        '6'
    } else if d == 7 {
        '7'
    } else if d == 8 {
        '8'
    } else {
        '9'
    }
}

/// The decimal text of `n`, without leading zeros.
pub open spec fn nat_text(n: nat) -> Seq<char>
    decreases n,
{
    if n < 10 {
        seq![digit_char(n)]
    } else {
        nat_text(n / 10).push(digit_char(n % 10))
    }
}

/// The decimal text of `i`, with a minus sign when it is negative.
pub open spec fn int_text(i: int) -> Seq<char> {
    if i < 0 {
        seq!['-'] + nat_text((-i) as nat)
    } else {
        nat_text(i as nat)
    }
}

fn digit(d: u64) -> (c: char)
    requires
        d < 10,
    ensures
        c == digit_char(d as nat),
{
    if d == 0 {
        '0'
    } else if d == 1 {
        '1'
    } else if d == 2 {
        '2'
    } else if d == 3 {
        '3'
    } else if d == 4 {
        '4'
    } else if d == 5 {
        '5'
    } else if d == 6 {
        '6'
    } else if d == 7 {
        '7'
    } else if d == 8 {
        '8'
    } else {
        '9'
    }
}

/// Appends the decimal text of `n`.
pub fn push_nat(s: &mut String, n: u64)
    ensures
        final(s)@ == old(s)@ + nat_text(n as nat),
    decreases n,
{
    if n < 10 {
        push_char(s, digit(n));
        assert(old(s)@.push(digit_char(n as nat)) =~= old(s)@ + nat_text(n as nat));
    } else {
        push_nat(s, n / 10);
        push_char(s, digit(n % 10));
        assert(old(s)@ + nat_text(n as nat) =~= old(s)@ + nat_text((n / 10) as nat) + seq![digit_char((n % 10) as nat)]);
    }
}

/// Appends the decimal text of `i`.
pub fn push_int(s: &mut String, i: i64)
    ensures
        final(s)@ == old(s)@ + int_text(i as int),
{
    if i < 0 {
        push_char(s, '-');
        let m: u64 = if i == i64::MIN {
            9223372036854775808u64
        } else {
            (-i) as u64
        };
        push_nat(s, m);
        assert(old(s)@ + int_text(i as int) =~= old(s)@.push('-') + nat_text(m as nat));
    } else {
        push_nat(s, i as u64);
    }
}

/// The name of a type; a pointer type is written as nothing.
pub open spec fn type_text(t: AbstractType) -> Seq<char> {
    match t {
        AbstractType::Type(p) => p@,
        AbstractType::Pointer(_, _) => Seq::empty(),
    }
}

pub open spec fn literal_text(l: Literal) -> Seq<char> {
    match l {
        Literal::Int(i) => nat_text(i as nat),
    }
}

/// The name of an operation in the text form.
pub open spec fn op_text(op: MathOp) -> Seq<char> {
    match op {
        MathOp::ComputeOp(ComputeOp::Add) => "add"@,
        MathOp::ComputeOp(ComputeOp::Minus) => "sub"@,
        MathOp::ComputeOp(ComputeOp::Mul) => "mul"@,
        MathOp::ComputeOp(ComputeOp::Divide) => "div"@,
        MathOp::CondOp(CondOp::Equal) => "eq"@,
        MathOp::CondOp(CondOp::More) => "gt"@,
        MathOp::CondOp(CondOp::MoreE) => "ge"@,
        MathOp::CondOp(CondOp::Less) => "lt"@,
        MathOp::CondOp(CondOp::LessE) => "le"@,
    }
}

/// Each string, with a space and `prefix` before it.
pub open spec fn words(prefix: Seq<char>, v: Seq<String>) -> Seq<char>
    decreases v.len(),
{
    if v.len() == 0 {
        Seq::empty()
    } else {
        words(prefix, v.drop_last()) + " "@ + prefix + v.last()@
    }
}

/// The text of an instruction.
pub open spec fn instr_text(i: AbstractInstruction) -> Seq<char> {
    match i {
        AbstractInstruction::Constant { dest, const_type, value } => dest@ + ": "@ + type_text(const_type)
            + " = const "@ + literal_text(value) + ";"@,
        AbstractInstruction::Compute { left, dest, right, op, type_ } => dest@ + ": "@ + type_@ + " = "@
            + op_text(op) + " "@ + left@ + " "@ + right@ + ";"@,
        AbstractInstruction::Assign { src, dest, type_ } => match type_ {
            Some(t) => dest@ + ": "@ + type_text(t) + " =  "@ + src@ + ";"@,
            None => dest@ + " = "@ + src@ + ";"@,
        },
        AbstractInstruction::Ret { src } => "ret "@ + src@,
        AbstractInstruction::Value { args, dest, funcs, labels, src, type_ } => (match type_ {
            Some(t) => dest@ + ": "@ + type_text(t) + " = "@ + src@,
            None => dest@ + " = "@ + src@,
        }) + words("@"@, funcs@) + words(Seq::empty(), args@) + words("."@, labels@) + ";"@,
        AbstractInstruction::Effect { args, funcs, labels, op } => op@ + words("@"@, funcs@) + words(
            Seq::empty(),
            args@,
        ) + words("."@, labels@) + ";"@,
        AbstractInstruction::Br { arg, true_label, false_label } => "br "@ + arg@ + " ."@ + true_label@ + " ."@
            + false_label@ + ";"@,
        AbstractInstruction::Jmp { label } => "jmp ."@ + label@ + ";"@,
        AbstractInstruction::Phi { dest, labels, args } => dest@ + " = phi"@ + words(Seq::empty(), args@)
            + words("."@, labels@) + ";"@,
    }
}

/// The text of a line of code: a label is written `.name:`, an instruction
/// is indented by two spaces.
pub open spec fn code_text(c: AbstractCode) -> Seq<char> {
    match c {
        AbstractCode::Label { label } => "."@ + label@ + ":"@,
        AbstractCode::Instruction(i) => "  "@ + instr_text(i),
    }
}

/// Each line of a block, each followed by a new line.
pub open spec fn codes_text(v: Seq<AbstractCode>) -> Seq<char>
    decreases v.len(),
{
    if v.len() == 0 {
        Seq::empty()
    } else {
        codes_text(v.drop_last()) + code_text(v.last()) + "\n"@
    }
}

pub open spec fn arg_text(a: AbstractArgument) -> Seq<char> {
    a.name@ + ": "@ + type_text(a.arg_type)
}

/// The arguments, separated by commas.
pub open spec fn args_text(v: Seq<AbstractArgument>) -> Seq<char>
    decreases v.len(),
{
    if v.len() == 0 {
        Seq::empty()
    } else if v.len() == 1 {
        arg_text(v[0])
    } else {
        args_text(v.drop_last()) + ", "@ + arg_text(v.last())
    }
}

/// Each block's text, each followed by a new line.
pub open spec fn blocks_text(v: Seq<AbstractBasicBlock>) -> Seq<char>
    decreases v.len(),
{
    if v.len() == 0 {
        Seq::empty()
    } else {
        blocks_text(v.drop_last()) + codes_text(v.last().instrs@) + "\n"@
    }
}

/// The text of a function: `@name(args): type {`, its blocks, then `}`.
pub open spec fn function_text(f: AbstractFunction) -> Seq<char> {
    "@"@ + f.name@ + (if f.args@.len() == 0 {
        Seq::empty()
    } else {
        "("@ + args_text(f.args@) + ")"@
    }) + ": "@ + type_text(f.return_type) + " {\n"@ + blocks_text(f.blocks@) + "}"@
}

/// Each function's text, each followed by a new line.
pub open spec fn functions_text(v: Seq<AbstractFunction>) -> Seq<char>
    decreases v.len(),
{
    if v.len() == 0 {
        Seq::empty()
    } else {
        functions_text(v.drop_last()) + function_text(v.last()) + "\n"@
    }
}

/// Appends each string with a space and `prefix` before it.
fn push_words(s: &mut String, prefix: &str, v: &Vec<String>)
    ensures
        final(s)@ == old(s)@ + words(prefix@, v@),
{
    let ghost s0 = s@;
    for i in 0..v.len()
        invariant
            s@ == s0 + words(prefix@, v@.take(i as int)),
    {
        assert(v@.take(i + 1).drop_last() =~= v@.take(i as int));
        s.append(" ");
        s.append(prefix);
        s.append(v[i].as_str());
        assert(s@ =~= s0 + words(prefix@, v@.take(i + 1)));
    }
    assert(v@.take(v@.len() as int) =~= v@);
}

impl AbstractType {
    pub fn to_string(&self) -> (r: String)
        ensures
            r@ == type_text(*self),
    {
        match self {
            AbstractType::Type(p) => p.clone(),
            AbstractType::Pointer(_, _) => String::new(),
        }
    }
}

impl Literal {
    pub fn to_string(&self) -> (r: String)
        ensures
            r@ == literal_text(*self),
    {
        let mut s = String::new();
        match self {
            Literal::Int(i) => push_nat(&mut s, *i),
        }
        s
    }
}

/// Appends the name of an operation.
fn push_op(s: &mut String, op: MathOp)
    ensures
        final(s)@ == old(s)@ + op_text(op),
{
    match op {
        MathOp::ComputeOp(ComputeOp::Add) => s.append("add"),
        MathOp::ComputeOp(ComputeOp::Minus) => s.append("sub"),
        MathOp::ComputeOp(ComputeOp::Mul) => s.append("mul"),
        MathOp::ComputeOp(ComputeOp::Divide) => s.append("div"),
        MathOp::CondOp(CondOp::Equal) => s.append("eq"),
        MathOp::CondOp(CondOp::More) => s.append("gt"),
        MathOp::CondOp(CondOp::MoreE) => s.append("ge"),
        MathOp::CondOp(CondOp::Less) => s.append("lt"),
        MathOp::CondOp(CondOp::LessE) => s.append("le"),
    }
}

impl AbstractInstruction {
    /// The text form of the instruction.
    pub fn to_string(&self) -> (r: String)
        ensures
            r@ == instr_text(*self),
    {
        let mut s = String::new();
        match self {
            AbstractInstruction::Constant { dest, const_type, value } => {
                s.append(dest.as_str());
                s.append(": ");
                s.append(const_type.to_string().as_str());
                s.append(" = const ");
                s.append(value.to_string().as_str());
                s.append(";");
                assert(s@ =~= instr_text(*self));
            },
            AbstractInstruction::Compute { left, dest, right, op, type_ } => {
                s.append(dest.as_str());
                s.append(": ");
                s.append(type_.as_str());
                s.append(" = ");
                push_op(&mut s, *op);
                s.append(" ");
                s.append(left.as_str());
                s.append(" ");
                s.append(right.as_str());
                s.append(";");
                assert(s@ =~= instr_text(*self));
            },
            AbstractInstruction::Assign { src, dest, type_ } => match type_ {
                Some(t) => {
                    s.append(dest.as_str());
                    s.append(": ");
                    s.append(t.to_string().as_str());
                    s.append(" =  ");
                    s.append(src.as_str());
                    s.append(";");
                },
                None => {
                    s.append(dest.as_str());
                    s.append(" = ");
                    s.append(src.as_str());
                    s.append(";");
                },
            },
            AbstractInstruction::Ret { src } => {
                s.append("ret ");
                s.append(src.as_str());
                assert(s@ =~= instr_text(*self));
            },
            AbstractInstruction::Value { args, dest, funcs, labels, src, type_ } => {
                s.append(dest.as_str());
                match type_ {
                    Some(t) => {
                        s.append(": ");
                        s.append(t.to_string().as_str());
                    },
                    None => {},
                }
                s.append(" = ");
                s.append(src.as_str());
                push_words(&mut s, "@", funcs);
                push_words(&mut s, "", args);
                push_words(&mut s, ".", labels);
                s.append(";");
                proof {
                    reveal_strlit("");
                    assert(""@ =~= Seq::<char>::empty());
                }
                assert(s@ =~= instr_text(*self));
            },
            AbstractInstruction::Effect { args, funcs, labels, op } => {
                s.append(op.as_str());
                push_words(&mut s, "@", funcs);
                push_words(&mut s, "", args);
                push_words(&mut s, ".", labels);
                s.append(";");
                proof {
                    reveal_strlit("");
                    assert(""@ =~= Seq::<char>::empty());
                }
                assert(s@ =~= instr_text(*self));
            },
            AbstractInstruction::Br { arg, true_label, false_label } => {
                s.append("br ");
                s.append(arg.as_str());
                s.append(" .");
                s.append(true_label.as_str());
                s.append(" .");
                s.append(false_label.as_str());
                s.append(";");
                assert(s@ =~= instr_text(*self));
            },
            AbstractInstruction::Jmp { label } => {
                s.append("jmp .");
                s.append(label.as_str());
                s.append(";");
                assert(s@ =~= instr_text(*self));
            },
            AbstractInstruction::Phi { dest, labels, args } => {
                s.append(dest.as_str());
                s.append(" = phi");
                push_words(&mut s, "", args);
                push_words(&mut s, ".", labels);
                s.append(";");
                proof {
                    reveal_strlit("");
                    assert(""@ =~= Seq::<char>::empty());
                }
                assert(s@ =~= instr_text(*self));
            },
        }
        assert(s@ =~= instr_text(*self));
        s
    }
}

impl AbstractCode {
    /// The text form of the line.
    pub fn to_string(&self) -> (r: String)
        ensures
            r@ == code_text(*self),
    {
        let mut s = String::new();
        match self {
            AbstractCode::Label { label } => {
                s.append(".");
                s.append(label.as_str());
                s.append(":");
            },
            AbstractCode::Instruction(i) => {
                s.append("  ");
                s.append(i.to_string().as_str());
            },
        }
        s
    }
}

impl AbstractBasicBlock {
    /// The lines of the block, each followed by a new line.
    pub fn to_string(&self) -> (r: String)
        ensures
            r@ == codes_text(self.instrs@),
    {
        let mut s = String::new();
        for i in 0..self.instrs.len()
            invariant
                s@ == codes_text(self.instrs@.take(i as int)),
        {
            assert(self.instrs@.take(i + 1).drop_last() =~= self.instrs@.take(i as int));
            s.append(self.instrs[i].to_string().as_str());
            s.append("\n");
        }
        assert(self.instrs@.take(self.instrs@.len() as int) =~= self.instrs@);
        s
    }
}

impl AbstractArgument {
    /// `name: type`.
    pub fn to_string(&self) -> (r: String)
        ensures
            r@ == arg_text(*self),
    {
        let mut s = self.name.clone();
        s.append(": ");
        s.append(self.arg_type.to_string().as_str());
        s
    }
}

impl AbstractFunction {
    /// The text form of the function.
    pub fn to_string(&self) -> (r: String)
        ensures
            r@ == function_text(*self),
    {
        let mut s = String::new();
        s.append("@");
        s.append(self.name.as_str());
        let ghost head = s@;
        if self.args.len() != 0 {
            s.append("(");
            let ghost s0 = s@;
            for i in 0..self.args.len()
                invariant
                    s@ == s0 + args_text(self.args@.take(i as int)),
            {
                assert(self.args@.take(i + 1).drop_last() =~= self.args@.take(i as int));
                if i != 0 {
                    s.append(", ");
                } else {
                    assert(self.args@.take(0) =~= Seq::<AbstractArgument>::empty());
                }
                s.append(self.args[i].to_string().as_str());
                assert(s@ =~= s0 + args_text(self.args@.take(i + 1)));
            }
            assert(self.args@.take(self.args@.len() as int) =~= self.args@);
            s.append(")");
        }
        s.append(": ");
        s.append(self.return_type.to_string().as_str());
        s.append(" {\n");
        let ghost s1 = s@;
        for i in 0..self.blocks.len()
            invariant
                s@ == s1 + blocks_text(self.blocks@.take(i as int)),
        {
            assert(self.blocks@.take(i + 1).drop_last() =~= self.blocks@.take(i as int));
            s.append(self.blocks[i].to_string().as_str());
            s.append("\n");
            assert(s@ =~= s1 + blocks_text(self.blocks@.take(i + 1)));
        }
        assert(self.blocks@.take(self.blocks@.len() as int) =~= self.blocks@);
        s.append("}");
        s
    }
}

impl AbstractProgram {
    /// Each function's text, each followed by a new line.
    pub fn to_string(&self) -> (r: String)
        ensures
            r@ == functions_text(self.functions@),
    {
        let mut s = String::new();
        for i in 0..self.functions.len()
            invariant
                s@ == functions_text(self.functions@.take(i as int)),
        {
            assert(self.functions@.take(i + 1).drop_last() =~= self.functions@.take(i as int));
            s.append(self.functions[i].to_string().as_str());
            s.append("\n");
        }
        assert(self.functions@.take(self.functions@.len() as int) =~= self.functions@);
        s
    }
}


/// A type as plain text.
pub ghost enum TypeM {
    Type(Seq<char>),
    Pointer(Seq<char>, Box<TypeM>),
}

/// An instruction as plain text.
pub ghost enum InstrM {
    Constant { dest: Seq<char>, const_type: TypeM, value: nat },
    Compute { left: Seq<char>, dest: Seq<char>, right: Seq<char>, op: MathOp, type_: Seq<char> },
    Assign { src: Seq<char>, dest: Seq<char>, type_: Option<TypeM> },
    Ret { src: Seq<char> },
    Value {
        args: Seq<Seq<char>>,
        dest: Seq<char>,
        funcs: Seq<Seq<char>>,
        labels: Seq<Seq<char>>,
        src: Seq<char>,
        type_: Option<TypeM>,
    },
    Effect { args: Seq<Seq<char>>, funcs: Seq<Seq<char>>, labels: Seq<Seq<char>>, op: Seq<char> },
    Br { arg: Seq<char>, true_label: Seq<char>, false_label: Seq<char> },
    Jmp { label: Seq<char> },
    Phi { dest: Seq<char>, labels: Seq<Seq<char>>, args: Seq<Seq<char>> },
}

/// A line of code as plain text.
pub ghost enum CodeM {
    Label(Seq<char>),
    Instruction(InstrM),
}

/// A basic block as plain text.
pub ghost struct BlockM {
    pub instrs: Seq<CodeM>,
    pub name: Seq<char>,
    pub successors: Seq<usize>,
}

pub open spec fn strs_view(v: Seq<String>) -> Seq<Seq<char>> {
    v.map_values(|s: String| s@)
}

pub open spec fn type_view(t: AbstractType) -> TypeM
    decreases t,
{
    match t {
        AbstractType::Type(p) => TypeM::Type(p@),
        AbstractType::Pointer(n, b) => TypeM::Pointer(n@, Box::new(type_view(*b))),
    }
}

pub open spec fn opt_type_view(t: Option<AbstractType>) -> Option<TypeM> {
    match t {
        Some(x) => Some(type_view(x)),
        None => None,
    }
}

pub open spec fn instr_view(i: AbstractInstruction) -> InstrM {
    match i {
        AbstractInstruction::Constant { dest, const_type, value } => InstrM::Constant {
            dest: dest@,
            const_type: type_view(const_type),
            value: match value {
                Literal::Int(v) => v as nat,
            },
        },
        AbstractInstruction::Compute { left, dest, right, op, type_ } => InstrM::Compute {
            left: left@,
            dest: dest@,
            right: right@,
            op,
            type_: type_@,
        },
        AbstractInstruction::Assign { src, dest, type_ } => InstrM::Assign {
            src: src@,
            dest: dest@,
            type_: opt_type_view(type_),
        },
        AbstractInstruction::Ret { src } => InstrM::Ret { src: src@ },
        AbstractInstruction::Value { args, dest, funcs, labels, src, type_ } => InstrM::Value {
            args: strs_view(args@),
            dest: dest@,
            funcs: strs_view(funcs@),
            labels: strs_view(labels@),
            src: src@,
            type_: opt_type_view(type_),
        },
        AbstractInstruction::Effect { args, funcs, labels, op } => InstrM::Effect {
            args: strs_view(args@),
            funcs: strs_view(funcs@),
            labels: strs_view(labels@),
            op: op@,
        },
        AbstractInstruction::Br { arg, true_label, false_label } => InstrM::Br {
            arg: arg@,
            true_label: true_label@,
            false_label: false_label@,
        },
        AbstractInstruction::Jmp { label } => InstrM::Jmp { label: label@ },
        AbstractInstruction::Phi { dest, labels, args } => InstrM::Phi {
            dest: dest@,
            labels: strs_view(labels@),
            args: strs_view(args@),
        },
    }
}

pub open spec fn code_view(c: AbstractCode) -> CodeM {
    match c {
        AbstractCode::Label { label } => CodeM::Label(label@),
        AbstractCode::Instruction(i) => CodeM::Instruction(instr_view(i)),
    }
}

pub open spec fn codes_view(v: Seq<AbstractCode>) -> Seq<CodeM> {
    v.map_values(|c: AbstractCode| code_view(c))
}

pub open spec fn block_view(b: AbstractBasicBlock) -> BlockM {
    BlockM { instrs: codes_view(b.instrs@), name: b.name@, successors: b.successors@ }
}

pub open spec fn blocks_view(v: Seq<AbstractBasicBlock>) -> Seq<BlockM> {
    v.map_values(|b: AbstractBasicBlock| block_view(b))
}

impl View for AbstractCode {
    type V = CodeM;

    open spec fn view(&self) -> CodeM {
        code_view(*self)
    }
}

impl View for AbstractBasicBlock {
    type V = BlockM;

    open spec fn view(&self) -> BlockM {
        block_view(*self)
    }
}
} // verus!
