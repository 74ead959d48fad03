//! The abstract syntax tree of the source language.

use vstd::prelude::*;
use crate::semantics::{complement_value, constant_value, negate_value};
use crate::chars::{debug_str, debug_string, indent_spec, indent, push_signed_decimal, signed_decimal};

verus! {

/// A whole program: one function.
#[derive(Debug)]
pub enum Program {
    Program(Function),
}

/// A function definition `int name(void) { body }`.
#[derive(Debug)]
pub struct Function {
    pub name: String,
    pub body: Statement,
}

/// A statement: `return exp;`.
#[derive(Debug)]
pub enum Statement {
    Return(Exp),
}

/// An expression.
#[derive(Debug)]
pub enum Exp {
    Constant(i64),
    Unary(UnaryOperator, Box<Exp>),
}

/// A unary operator: `~` or `-`.
#[derive(Debug)]
pub enum UnaryOperator {
    Complement,
    Negate,
}

/// The mathematical value of a function: its name as characters.
pub struct FunctionModel {
    pub name: Seq<char>,
    pub body: Statement,
}

pub enum ProgramModel {
    Program(FunctionModel),
}

impl View for Function {
    type V = FunctionModel;

    open spec fn view(&self) -> FunctionModel {
        FunctionModel { name: self.name@, body: self.body }
    }
}

impl View for Program {
    type V = ProgramModel;

    open spec fn view(&self) -> ProgramModel {
        match self {
            Program::Program(f) => ProgramModel::Program(f@),
        }
    }
}

/// The value of an expression.
pub open spec fn eval(e: Exp) -> int
    decreases e,
{
    match e {
        Exp::Constant(n) => constant_value(n),
        Exp::Unary(UnaryOperator::Complement, inner) => complement_value(eval(*inner)),
        Exp::Unary(UnaryOperator::Negate, inner) => negate_value(eval(*inner)),
    }
}

/// The value a program returns.
pub open spec fn eval_program(p: ProgramModel) -> int {
    match p {
        ProgramModel::Program(f) => match f.body {
            Statement::Return(e) => eval(e),
        },
    }
}

// ---------------------------------------------------------------------------
// Printing

pub open spec fn unop_text(op: UnaryOperator) -> Seq<char> {
    match op {
        UnaryOperator::Complement => "Complement"@,
        UnaryOperator::Negate => "Negate"@,
    }
}

pub open spec fn exp_text(e: Exp) -> Seq<char>
    decreases e,
{
    match e {
        Exp::Constant(n) => "Constant("@ + signed_decimal(n as int) + ")"@,
        Exp::Unary(op, inner) => "Unary("@ + unop_text(op) + ", "@ + exp_text(*inner) + ")"@,
    }
}

pub open spec fn statement_text(s: Statement) -> Seq<char> {
    match s {
        Statement::Return(e) => "Return("@ + exp_text(e) + ")"@,
    }
}

pub open spec fn function_text(f: FunctionModel) -> Seq<char> {
    "Function(\n    name: "@ + debug_str(f.name) + "\n    body: "@ + statement_text(f.body) + "\n)"@
}

pub open spec fn program_text(p: ProgramModel) -> Seq<char> {
    match p {
        ProgramModel::Program(f) => "Program(\n"@ + indent_spec(function_text(f)) + "\n)"@,
    }
}

impl UnaryOperator {
    /// `Complement` or `Negate`.
    pub fn to_text(&self) -> (s: String)
        ensures
            s@ == unop_text(*self),
    {
        let mut s = String::new();
        match self {
            UnaryOperator::Complement => s.append("Complement"),
            UnaryOperator::Negate => s.append("Negate"),
        }
        s
    }
}

fn push_exp(out: &mut String, e: &Exp)
    ensures
        final(out)@ == old(out)@ + exp_text(*e),
    decreases e,
{
    match e {
        Exp::Constant(n) => {
            out.append("Constant(");
            push_signed_decimal(out, *n);
            out.append(")");
        },
        Exp::Unary(op, inner) => {
            out.append("Unary(");
            out.append(op.to_text().as_str());
            out.append(", ");
            push_exp(out, inner);
            out.append(")");
        },
    }
    assert(out@ =~= old(out)@ + exp_text(*e));
}

impl Exp {
    /// `Constant(n)` or `Unary(op, inner)`.
    pub fn to_text(&self) -> (s: String)
        ensures
            s@ == exp_text(*self),
    {
        let mut s = String::new();
        push_exp(&mut s, self);
        assert(s@ =~= exp_text(*self));
        s
    }
}

impl Statement {
    /// `Return(exp)`.
    pub fn to_text(&self) -> (s: String)
        ensures
            s@ == statement_text(*self),
    {
        let Statement::Return(e) = self;
        let mut s = String::new();
        s.append("Return(");
        s.append(e.to_text().as_str());
        s.append(")");
        s
    }
}

impl Function {
    /// The name and the body, one per line.
    pub fn to_text(&self) -> (s: String)
        ensures
            s@ == function_text(self@),
    {
        let mut s = String::new();
        s.append("Function(\n    name: ");
        s.append(debug_string(self.name.as_str()).as_str());
        s.append("\n    body: ");
        s.append(self.body.to_text().as_str());
        s.append("\n)");
        s
    }
}

impl Program {
    /// The function, indented, inside `Program(...)`.
    pub fn to_text(&self) -> (s: String)
        ensures
            s@ == program_text(self@),
    {
        let Program::Program(f) = self;
        let mut s = String::new();
        s.append("Program(\n");
        s.append(indent(f.to_text().as_str()).as_str());
        s.append("\n)");
        s
    }
}

} // verus!
