//! TACKY, a three-address intermediate form, and its generation from the
//! syntax tree.

use vstd::prelude::*;
use crate::ast;
use crate::chars::{
    debug_str, debug_string, decimal, indent_spec, join_indented, lemma_join_indented_push, push_char,
    push_decimal, indent, push_signed_decimal, signed_decimal, lemma_decimal_injective,
};
use crate::semantics::{complement_value, constant_value, negate_value};

verus! {

/// A whole program: one function.
#[derive(Debug)]
pub enum Program {
    Program(Function),
}

/// A function: its name and its instructions.
#[derive(Debug)]
pub struct Function {
    pub name: String,
    pub body: Vec<Instruction>,
}

/// An instruction.
#[derive(Debug)]
pub enum Instruction {
    /// Return a value.
    Return(Val),
    /// `dst = op src`: operator, source, destination.
    Unary(UnaryOperator, Val, Val),
}

/// An operand: a constant or a named temporary.
#[derive(Debug)]
pub enum Val {
    Constant(i64),
    Var(String),
}

/// A unary operator.
#[derive(Debug)]
pub enum UnaryOperator {
    Complement,
    Negate,
}

impl Clone for Val {
    fn clone(&self) -> (r: Self)
        ensures
            r@ == self@,
    {
        match self {
            Val::Constant(n) => Val::Constant(*n),
            Val::Var(s) => Val::Var(s.clone()),
        }
    }
}

pub enum ValModel {
    Constant(i64),
    Var(Seq<char>),
}

pub enum InstructionModel {
    Return(ValModel),
    Unary(UnaryOperator, ValModel, ValModel),
}

pub struct FunctionModel {
    pub name: Seq<char>,
    pub body: Seq<InstructionModel>,
}

pub enum ProgramModel {
    Program(FunctionModel),
}

impl View for Val {
    type V = ValModel;

    open spec fn view(&self) -> ValModel {
        match self {
            Val::Constant(n) => ValModel::Constant(*n),
            Val::Var(s) => ValModel::Var(s@),
        }
    }
}

impl View for Instruction {
    type V = InstructionModel;

    open spec fn view(&self) -> InstructionModel {
        match self {
            Instruction::Return(v) => InstructionModel::Return(v@),
            Instruction::Unary(op, src, dst) => InstructionModel::Unary(*op, src@, dst@),
        }
    }
}

pub open spec fn instructions_view(is: Seq<Instruction>) -> Seq<InstructionModel> {
    is.map_values(|i: Instruction| i@)
}

impl View for Function {
    type V = FunctionModel;

    open spec fn view(&self) -> FunctionModel {
        FunctionModel { name: self.name@, body: instructions_view(self.body@) }
    }
}

impl View for Program {
    type V = ProgramModel;

    open spec fn view(&self) -> ProgramModel {
        match self {
            Program::Program(f) => ProgramModel::Program(f@),
        }
    }
}

// ---------------------------------------------------------------------------
// Specification

/// The counter of temporaries after `n`; it wraps around as an atomic
/// counter does.
pub open spec fn next_temp(n: usize) -> usize {
    if n == usize::MAX {
        0
    } else {
        (n + 1) as usize
    }
}

/// The name of temporary number `n`: `tmp.n`.
pub open spec fn temp_name(n: usize) -> Seq<char> {
    seq!['t', 'm', 'p', '.'] + decimal(n as nat)
}

pub open spec fn convert_unop_spec(op: ast::UnaryOperator) -> UnaryOperator {
    match op {
        ast::UnaryOperator::Complement => UnaryOperator::Complement,
        ast::UnaryOperator::Negate => UnaryOperator::Negate,
    }
}

/// The instructions that compute `e`, the value that holds the result, and
/// the counter of temporaries afterwards, starting from counter `c`.
pub open spec fn tacky_exp(e: ast::Exp, c: usize) -> (Seq<InstructionModel>, ValModel, usize)
    decreases e,
{
    match e {
        ast::Exp::Constant(n) => (seq![], ValModel::Constant(n), c),
        ast::Exp::Unary(op, inner) => {
            let (is, src, c1) = tacky_exp(*inner, c);
            let dst = ValModel::Var(temp_name(c1));
            (is.push(InstructionModel::Unary(convert_unop_spec(op), src, dst)), dst, next_temp(c1))
        },
    }
}

/// The instructions of a statement, and the counter afterwards.
pub open spec fn tacky_statement(s: ast::Statement, c: usize) -> (Seq<InstructionModel>, usize) {
    match s {
        ast::Statement::Return(e) => {
            let (is, v, c1) = tacky_exp(e, c);
            (is.push(InstructionModel::Return(v)), c1)
        },
    }
}

/// The TACKY program for a syntax tree, numbering temporaries from the
/// counter's value `c`.
pub open spec fn tacky_program(p: ast::ProgramModel, c: usize) -> ProgramModel {
    match p {
        ast::ProgramModel::Program(f) => ProgramModel::Program(
            FunctionModel { name: f.name, body: tacky_statement(f.body, c).0 },
        ),
    }
}

/// The counter of temporaries after lowering `p` from counter `c`.
pub open spec fn counter_after(p: ast::ProgramModel, c: usize) -> usize {
    match p {
        ast::ProgramModel::Program(f) => tacky_statement(f.body, c).1,
    }
}

// ---------------------------------------------------------------------------
// Implementation

/// A fresh temporary name, `tmp.n` for the counter's value `n`; the counter
/// then moves on.
fn make_temporary(counter: &mut usize) -> (name: String)
    ensures
        name@ == temp_name(*old(counter)),
        *final(counter) == next_temp(*old(counter)),
{
    let n = *counter;
    *counter = if n == usize::MAX {
        0
    } else {
        n + 1
    };
    let mut name = String::new();
    push_char(&mut name, 't');
    push_char(&mut name, 'm');
    push_char(&mut name, 'p');
    push_char(&mut name, '.');
    push_decimal(&mut name, n as u64);
    assert(name@ =~= temp_name(n));
    name
}

fn convert_unop(op: ast::UnaryOperator) -> (r: UnaryOperator)
    ensures
        r == convert_unop_spec(op),
{
    match op {
        ast::UnaryOperator::Complement => UnaryOperator::Complement,
        ast::UnaryOperator::Negate => UnaryOperator::Negate,
    }
}

/// Appends the instructions that compute `exp`, and returns the value that
/// holds its result.
fn emit_tacky(exp: ast::Exp, instructions: &mut Vec<Instruction>, counter: &mut usize) -> (v: Val)
    ensures
        ({
            let (is, val, c1) = tacky_exp(exp, *old(counter));
            &&& instructions_view(final(instructions)@) == instructions_view(old(instructions)@) + is
            &&& v@ == val
            &&& *final(counter) == c1
        }),
    decreases exp,
{
    match exp {
        ast::Exp::Constant(n) => {
            assert(instructions_view(instructions@) =~= instructions_view(instructions@) + seq![]);
            Val::Constant(n)
        },
        ast::Exp::Unary(op, inner) => {
            let ghost before = instructions_view(instructions@);
            let src = emit_tacky(*inner, instructions, counter);
            let dst = Val::Var(make_temporary(counter));
            let tacky_op = convert_unop(op);
            let ghost mid = instructions_view(instructions@);
            instructions.push(Instruction::Unary(tacky_op, src, dst.clone()));
            assert(instructions_view(instructions@) =~= mid.push(
                InstructionModel::Unary(convert_unop_spec(op), src@, dst@),
            ));
            dst
        },
    }
}

fn gen_statement(stmt: ast::Statement, instructions: &mut Vec<Instruction>, counter: &mut usize)
    ensures
        ({
            let (is, c1) = tacky_statement(stmt, *old(counter));
            &&& instructions_view(final(instructions)@) == instructions_view(old(instructions)@) + is
            &&& *final(counter) == c1
        }),
{
    match stmt {
        ast::Statement::Return(exp) => {
            let ghost before = instructions_view(instructions@);
            let val = emit_tacky(exp, instructions, counter);
            let ghost mid = instructions_view(instructions@);
            instructions.push(Instruction::Return(val));
            assert(instructions_view(instructions@) =~= mid.push(InstructionModel::Return(val@)));
        },
    }
}

fn gen_function(func: ast::Function, counter: &mut usize) -> (f: Function)
    ensures
        f@ == (FunctionModel {
            name: func@.name,
            body: tacky_statement(func@.body, *old(counter)).0,
        }),
        *final(counter) == tacky_statement(func@.body, *old(counter)).1,
{
    let mut body: Vec<Instruction> = Vec::new();
    gen_statement(func.body, &mut body, counter);
    assert(instructions_view(body@) =~= seq![] + tacky_statement(func@.body, *old(counter)).0);
    Function { name: func.name, body }
}

/// Lowers a syntax tree to TACKY. Temporaries are named `tmp.n` with `n`
/// drawn from `counter`, which moves on by one for each (wrapping around at
/// `usize::MAX`); a caller that keeps one counter for all its calls never
/// reuses a name.
pub fn gen_program(program: ast::Program, counter: &mut usize) -> (r: Program)
    ensures
        r@ == tacky_program(program@, *old(counter)),
        *final(counter) == counter_after(program@, *old(counter)),
{
    let ast::Program::Program(func) = program;
    Program::Program(gen_function(func, counter))
}

// ---------------------------------------------------------------------------
// Semantics

/// Values of the temporaries, by name.
pub type Env = Map<Seq<char>, int>;

pub open spec fn apply_unop(op: UnaryOperator, v: int) -> int {
    match op {
        UnaryOperator::Complement => complement_value(v),
        UnaryOperator::Negate => negate_value(v),
    }
}

/// The value of an operand; `None` for a temporary never written.
pub open spec fn read_val(env: Env, v: ValModel) -> Option<int> {
    match v {
        ValModel::Constant(n) => Some(constant_value(n)),
        ValModel::Var(x) => if env.contains_key(x) {
            Some(env[x])
        } else {
            None
        },
    }
}

/// The temporaries after a `Unary` instruction; `None` for anything else,
/// or when it reads an unwritten temporary or writes to a constant.
pub open spec fn step(i: InstructionModel, env: Env) -> Option<Env> {
    match i {
        InstructionModel::Unary(op, src, ValModel::Var(d)) => match read_val(env, src) {
            Some(x) => Some(env.insert(d, apply_unop(op, x))),
            None => None,
        },
        _ => None,
    }
}

/// The temporaries after a run of `Unary` instructions.
pub open spec fn steps(is: Seq<InstructionModel>, env: Env) -> Option<Env>
    decreases is.len(),
{
    if is.len() == 0 {
        Some(env)
    } else {
        match steps(is.drop_last(), env) {
            Some(e1) => step(is.last(), e1),
            None => None,
        }
    }
}

/// The value returned by running `body`; `None` when it goes wrong or ends
/// without returning.
pub open spec fn run_body(body: Seq<InstructionModel>, env: Env) -> Option<int>
    decreases body.len(),
{
    if body.len() == 0 {
        None
    } else {
        match body[0] {
            InstructionModel::Return(v) => read_val(env, v),
            InstructionModel::Unary(_, _, _) => match step(body[0], env) {
                Some(e2) => run_body(body.drop_first(), e2),
                None => None,
            },
        }
    }
}

/// The value a TACKY program returns.
pub open spec fn run_program(p: ProgramModel) -> Option<int> {
    match p {
        ProgramModel::Program(f) => run_body(f.body, Map::empty()),
    }
}

proof fn lemma_steps_run(is: Seq<InstructionModel>, rest: Seq<InstructionModel>, env: Env)
    requires
        steps(is, env) is Some,
    ensures
        run_body(is + rest, env) == run_body(rest, steps(is, env).unwrap()),
    decreases is.len(),
{
    if is.len() == 0 {
        assert(is + rest =~= rest);
    } else {
        let x = is.last();
        let init = is.drop_last();
        let env1 = steps(init, env).unwrap();
        lemma_steps_run(init, seq![x] + rest, env);
        assert(init + (seq![x] + rest) =~= is + rest);
        assert((seq![x] + rest).drop_first() =~= rest);
    }
}

proof fn lemma_tacky_exp_correct(e: ast::Exp, c: usize, env: Env)
    ensures
        ({
            let (is, v, c1) = tacky_exp(e, c);
            &&& steps(is, env) is Some
            &&& read_val(steps(is, env).unwrap(), v) == Some(ast::eval(e))
        }),
    decreases e,
{
    match e {
        ast::Exp::Constant(_) => {},
        ast::Exp::Unary(op, inner) => {
            lemma_tacky_exp_correct(*inner, c, env);
            let (is0, src, c1) = tacky_exp(*inner, c);
            let (is, v, c2) = tacky_exp(e, c);
            assert(is.drop_last() =~= is0);
        },
    }
}

/// Lowering to TACKY preserves meaning: the TACKY program returns the value
/// of the source program's expression.
pub proof fn law_tacky_preserves_value(p: ast::ProgramModel, c: usize)
    ensures
        run_program(tacky_program(p, c)) == Some(ast::eval_program(p)),
{
    let ast::ProgramModel::Program(f) = p;
    let ast::Statement::Return(e) = f.body;
    let (is, v, c1) = tacky_exp(e, c);
    lemma_tacky_exp_correct(e, c, Map::empty());
    lemma_steps_run(is, seq![InstructionModel::Return(v)], Map::empty());
    assert(is.push(InstructionModel::Return(v)) =~= is + seq![InstructionModel::Return(v)]);
}

// ---------------------------------------------------------------------------
// Printing

pub open spec fn val_text(v: ValModel) -> Seq<char> {
    match v {
        ValModel::Constant(n) => "Constant("@ + signed_decimal(n as int) + ")"@,
        ValModel::Var(name) => "Var("@ + debug_str(name) + ")"@,
    }
}

pub open spec fn unop_text(op: UnaryOperator) -> Seq<char> {
    match op {
        UnaryOperator::Complement => "Complement"@,
        UnaryOperator::Negate => "Negate"@,
    }
}

pub open spec fn instruction_text(i: InstructionModel) -> Seq<char> {
    match i {
        InstructionModel::Return(v) => "Return("@ + val_text(v) + ")"@,
        InstructionModel::Unary(op, src, dst) => "Unary("@ + unop_text(op) + ", "@ + val_text(src) + ", "@
            + val_text(dst) + ")"@,
    }
}

pub open spec fn function_text(f: FunctionModel) -> Seq<char> {
    "Function(\n    name: "@ + debug_str(f.name) + "\n    body:\n"@ + join_indented(
        f.body.map_values(|i: InstructionModel| instruction_text(i)),
    ) + "\n)"@
}

pub open spec fn program_text(p: ProgramModel) -> Seq<char> {
    match p {
        ProgramModel::Program(f) => "Program(\n"@ + indent_spec(function_text(f)) + "\n)"@,
    }
}

impl Val {
    /// `Constant(n)` or `Var("name")`.
    pub fn to_text(&self) -> (s: String)
        ensures
            s@ == val_text(self@),
    {
        let mut s = String::new();
        match self {
            Val::Constant(n) => {
                s.append("Constant(");
                push_signed_decimal(&mut s, *n);
                s.append(")");
            },
            Val::Var(name) => {
                s.append("Var(");
                s.append(debug_string(name.as_str()).as_str());
                s.append(")");
            },
        }
        assert(s@ =~= val_text(self@));
        s
    }
}

impl UnaryOperator {
    /// `Complement` or `Negate`.
    pub fn to_text(&self) -> (s: String)
        ensures
            s@ == unop_text(*self),
    {
        let mut s = String::new();
        match self {
            UnaryOperator::Complement => s.append("Complement"),
            UnaryOperator::Negate => s.append("Negate"),
        }
        s
    }
}

impl Instruction {
    /// `Return(v)` or `Unary(op, src, dst)`.
    pub fn to_text(&self) -> (s: String)
        ensures
            s@ == instruction_text(self@),
    {
        let mut s = String::new();
        match self {
            Instruction::Return(v) => {
                s.append("Return(");
                s.append(v.to_text().as_str());
                s.append(")");
            },
            Instruction::Unary(op, src, dst) => {
                s.append("Unary(");
                s.append(op.to_text().as_str());
                s.append(", ");
                s.append(src.to_text().as_str());
                s.append(", ");
                s.append(dst.to_text().as_str());
                s.append(")");
            },
        }
        assert(s@ =~= instruction_text(self@));
        s
    }
}

impl Function {
    /// The name, then the instructions one per line.
    pub fn to_text(&self) -> (s: String)
        ensures
            s@ == function_text(self@),
    {
        let mut s = String::new();
        s.append("Function(\n    name: ");
        s.append(debug_string(self.name.as_str()).as_str());
        s.append("\n    body:\n");
        let ghost head = s@;
        let ghost texts = self@.body.map_values(|i: InstructionModel| instruction_text(i));
        let mut k: usize = 0;
        while k < self.body.len()
            invariant
                k <= self.body.len(),
                texts == self@.body.map_values(|i: InstructionModel| instruction_text(i)),
                texts.len() == self.body.len(),
                s@ == head + join_indented(texts.take(k as int)),
            decreases self.body.len() - k,
        {
            if k > 0 {
                s.append("\n");
            }
            s.append("    ");
            let t = self.body[k].to_text();
            s.append(t.as_str());
            proof {
                assert(texts[k as int] == instruction_text(self.body@[k as int]@));
                assert(texts.take(k + 1) =~= texts.take(k as int).push(texts[k as int]));
                lemma_join_indented_push(texts.take(k as int), texts[k as int]);
                assert(s@ =~= head + join_indented(texts.take(k + 1)));
            }
            k += 1;
        }
        assert(texts.take(k as int) =~= texts);
        s.append("\n)");
        s
    }
}

impl Program {
    /// The function, indented, inside `Program(...)`.
    pub fn to_text(&self) -> (s: String)
        ensures
            s@ == program_text(self@),
    {
        let Program::Program(f) = self;
        let mut s = String::new();
        s.append("Program(\n");
        s.append(indent(f.to_text().as_str()).as_str());
        s.append("\n)");
        s
    }
}

// ---------------------------------------------------------------------------
// Temporaries

/// The number of unary operations in an expression.
pub open spec fn unary_count(e: ast::Exp) -> nat
    decreases e,
{
    match e {
        ast::Exp::Constant(_) => 0,
        ast::Exp::Unary(_, inner) => 1 + unary_count(*inner),
    }
}

/// The temporary an instruction writes, if it is a unary instruction.
pub open spec fn written_temp(i: InstructionModel) -> Option<Seq<char>> {
    match i {
        InstructionModel::Unary(_, _, ValModel::Var(d)) => Some(d),
        _ => None,
    }
}

proof fn lemma_tacky_exp_temps(e: ast::Exp, c: usize)
    requires
        c + unary_count(e) <= usize::MAX,
    ensures
        ({
            let (is, v, c1) = tacky_exp(e, c);
            &&& is.len() == unary_count(e)
            &&& c1 == c + unary_count(e)
            &&& forall|k: int| 0 <= k < is.len() ==> written_temp(#[trigger] is[k]) == Some(temp_name((c + k) as usize))
        }),
    decreases e,
{
    match e {
        ast::Exp::Constant(_) => {},
        ast::Exp::Unary(op, inner) => {
            lemma_tacky_exp_temps(*inner, c);
            let (is0, src, c1) = tacky_exp(*inner, c);
            let (is, v, c2) = tacky_exp(e, c);
            assert forall|k: int| 0 <= k < is.len() implies written_temp(#[trigger] is[k]) == Some(
                temp_name((c + k) as usize),
            ) by {
                if k < is0.len() {
                    assert(is[k] == is0[k]);
                }
            }
        },
    }
}

/// Different counters give different temporary names.
proof fn lemma_temp_name_injective(a: usize, b: usize)
    requires
        temp_name(a) == temp_name(b),
    ensures
        a == b,
{
    assert(temp_name(a).skip(4) =~= decimal(a as nat));
    assert(temp_name(b).skip(4) =~= decimal(b as nat));
    lemma_decimal_injective(a as nat, b as nat);
}

/// Each unary operation gets a temporary of its own: lowering from counter
/// `c`, the k-th instruction writes `tmp.(c + k)`, no two instructions write
/// the same temporary, and the counter ends one past the last (while the
/// counter of temporaries does not wrap around).
pub proof fn law_temporaries_are_fresh(p: ast::ProgramModel, c: usize)
    requires
        c + unary_count(p->Program_0.body->Return_0) <= usize::MAX,
    ensures
        ({
            let body = tacky_program(p, c)->Program_0.body;
            &&& counter_after(p, c) == c + unary_count(p->Program_0.body->Return_0)
            &&& forall|k: int| 0 <= k < body.len() - 1 ==> written_temp(#[trigger] body[k]) == Some(temp_name((c + k) as usize))
            &&& forall|j: int, k: int|
                0 <= j < k < body.len() && written_temp(body[j]) is Some && written_temp(body[k]) is Some
                    ==> #[trigger] written_temp(body[j]) != #[trigger] written_temp(body[k])
        }),
{
    let e = p->Program_0.body->Return_0;
    lemma_tacky_exp_temps(e, c);
    let (is, v, c1) = tacky_exp(e, c);
    let body = tacky_program(p, c)->Program_0.body;
    assert(body == is.push(InstructionModel::Return(v)));
    assert forall|k: int| 0 <= k < body.len() - 1 implies written_temp(#[trigger] body[k]) == Some(temp_name((c + k) as usize)) by {
        assert(body[k] == is[k]);
    }
    assert forall|j: int, k: int|
        0 <= j < k < body.len() && written_temp(body[j]) is Some && written_temp(body[k]) is Some
            implies #[trigger] written_temp(body[j]) != #[trigger] written_temp(body[k]) by {
        assert(written_temp(body[body.len() - 1]) is None);
        assert(body[j] == is[j]);
        assert(body[k] == is[k]);
        if written_temp(body[j]) == written_temp(body[k]) {
            lemma_temp_name_injective((c + j) as usize, (c + k) as usize);
        }
    }
}

/// Lowering keeps the function's name: the TACKY function is named as the
/// source function, whatever the counter.
pub proof fn law_lowering_keeps_function_name(p: ast::ProgramModel, c: usize)
    ensures
        tacky_program(p, c)->Program_0.name == p->Program_0.name,
{
}

} // verus!
