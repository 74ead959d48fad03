//! The assembly syntax tree: instructions over immediates, registers,
//! pseudo-registers and stack slots, shared by the x86-64 and ARM64
//! emitters.

use vstd::prelude::*;
use crate::semantics::{complement_value, constant_value, negate_value};
use crate::chars::{
    debug_str, debug_string, indent_spec, join_indented, lemma_join_indented_push, indent,
    push_signed_decimal, signed_decimal,
};

verus! {

/// A whole program: one function.
#[derive(Debug)]
pub enum Program {
    Program(Function),
}

/// A function: its name and its instructions.
#[derive(Debug)]
pub struct Function {
    pub name: String,
    pub instructions: Vec<Instruction>,
}

/// An instruction.
#[derive(Debug)]
pub enum Instruction {
    /// Copy the first operand into the second.
    Mov(Operand, Operand),
    /// Apply an operator to an operand in place.
    Unary(UnaryOperator, Operand),
    /// Reserve this many bytes of stack.
    AllocateStack(i64),
    /// Return from the function.
    Ret,
}

/// A unary operator.
#[derive(Debug)]
pub enum UnaryOperator {
    Neg,
    Not,
}

/// An operand.
#[derive(Debug)]
pub enum Operand {
    /// An immediate value.
    Imm(i64),
    /// A hardware register.
    Reg(Reg),
    /// A named pseudo-register, before stack slots are assigned.
    Pseudo(String),
    /// A stack slot at this offset from the frame pointer.
    Stack(i64),
}

/// The registers that generated code uses.
#[derive(Debug)]
pub enum Reg {
    /// The register that holds the return value.
    RV,
    /// A scratch register.
    Scratch1,
}

impl Clone for Operand {
    fn clone(&self) -> (r: Self)
        ensures
            r@ == self@,
    {
        match self {
            Operand::Imm(n) => Operand::Imm(*n),
            Operand::Reg(Reg::RV) => Operand::Reg(Reg::RV),
            Operand::Reg(Reg::Scratch1) => Operand::Reg(Reg::Scratch1),
            Operand::Pseudo(s) => Operand::Pseudo(s.clone()),
            Operand::Stack(n) => Operand::Stack(*n),
        }
    }
}

pub enum OperandModel {
    Imm(i64),
    Reg(Reg),
    Pseudo(Seq<char>),
    Stack(i64),
}

pub enum InstructionModel {
    Mov(OperandModel, OperandModel),
    Unary(UnaryOperator, OperandModel),
    AllocateStack(i64),
    Ret,
}

pub struct FunctionModel {
    pub name: Seq<char>,
    pub instructions: Seq<InstructionModel>,
}

pub enum ProgramModel {
    Program(FunctionModel),
}

impl View for Operand {
    type V = OperandModel;

    open spec fn view(&self) -> OperandModel {
        match self {
            Operand::Imm(n) => OperandModel::Imm(*n),
            Operand::Reg(r) => OperandModel::Reg(*r),
            Operand::Pseudo(s) => OperandModel::Pseudo(s@),
            Operand::Stack(n) => OperandModel::Stack(*n),
        }
    }
}

impl View for Instruction {
    type V = InstructionModel;

    open spec fn view(&self) -> InstructionModel {
        match self {
            Instruction::Mov(a, b) => InstructionModel::Mov(a@, b@),
            Instruction::Unary(op, a) => InstructionModel::Unary(*op, a@),
            Instruction::AllocateStack(n) => InstructionModel::AllocateStack(*n),
            Instruction::Ret => InstructionModel::Ret,
        }
    }
}

pub open spec fn instructions_view(is: Seq<Instruction>) -> Seq<InstructionModel> {
    is.map_values(|i: Instruction| i@)
}

impl View for Function {
    type V = FunctionModel;

    open spec fn view(&self) -> FunctionModel {
        FunctionModel { name: self.name@, instructions: instructions_view(self.instructions@) }
    }
}

impl View for Program {
    type V = ProgramModel;

    open spec fn view(&self) -> ProgramModel {
        match self {
            Program::Program(f) => ProgramModel::Program(f@),
        }
    }
}

/// The operand mentions no pseudo-register.
pub open spec fn operand_is_final(o: OperandModel) -> bool {
    !(o is Pseudo)
}

/// The instruction mentions no pseudo-register.
pub open spec fn instruction_is_final(i: InstructionModel) -> bool {
    match i {
        InstructionModel::Mov(a, b) => operand_is_final(a) && operand_is_final(b),
        InstructionModel::Unary(_, a) => operand_is_final(a),
        _ => true,
    }
}

/// The function mentions no pseudo-register.
pub open spec fn function_is_final(f: FunctionModel) -> bool {
    forall|k: int| 0 <= k < f.instructions.len() ==> instruction_is_final(#[trigger] f.instructions[k])
}

/// The program mentions no pseudo-register, so it can be emitted.
pub open spec fn program_is_final(p: ProgramModel) -> bool {
    match p {
        ProgramModel::Program(f) => function_is_final(f),
    }
}

/// Whether `program` mentions no pseudo-register, as the emitters require.
pub fn is_final_program(program: &Program) -> (b: bool)
    ensures
        b == program_is_final(program@),
{
    let Program::Program(func) = program;
    assert(program@ == ProgramModel::Program(func@));
    let ghost is = func@.instructions;
    let mut k: usize = 0;
    while k < func.instructions.len()
        invariant
            k <= func.instructions.len(),
            is == instructions_view(func.instructions@),
            program@ == ProgramModel::Program(func@),
            forall|j: int| 0 <= j < k ==> instruction_is_final(#[trigger] is[j]),
        decreases func.instructions.len() - k,
    {
        let ok = match &func.instructions[k] {
            Instruction::Mov(a, b) => !matches!(a, Operand::Pseudo(_)) && !matches!(b, Operand::Pseudo(_)),
            Instruction::Unary(_, a) => !matches!(a, Operand::Pseudo(_)),
            _ => true,
        };
        assert(is[k as int] == func.instructions@[k as int]@);
        if !ok {
            assert(!instruction_is_final(func@.instructions[k as int]));
            assert(!function_is_final(func@));
            assert(!program_is_final(program@));
            return false;
        }
        k += 1;
    }
    true
}

// ---------------------------------------------------------------------------
// Semantics

/// A place that holds a value.
pub enum Location {
    Reg(Reg),
    Pseudo(Seq<char>),
    Stack(i64),
}

/// The values held, by place; a place never written holds nothing.
pub type Memory = Map<Location, int>;

/// The place an operand names; immediates name none.
pub open spec fn location_of(o: OperandModel) -> Option<Location> {
    match o {
        OperandModel::Imm(_) => None,
        OperandModel::Reg(r) => Some(Location::Reg(r)),
        OperandModel::Pseudo(n) => Some(Location::Pseudo(n)),
        OperandModel::Stack(n) => Some(Location::Stack(n)),
    }
}

/// The value of an operand; `None` for a place never written.
pub open spec fn read_operand(m: Memory, o: OperandModel) -> Option<int> {
    match o {
        OperandModel::Imm(n) => Some(constant_value(n)),
        _ => {
            let l = location_of(o).unwrap();
            if m.contains_key(l) {
                Some(m[l])
            } else {
                None
            }
        },
    }
}

pub open spec fn apply_unop(op: UnaryOperator, v: int) -> int {
    match op {
        UnaryOperator::Neg => negate_value(v),
        UnaryOperator::Not => complement_value(v),
    }
}

/// The memory after an instruction other than `Ret`; `None` when it reads
/// an unwritten place or writes to an immediate.
pub open spec fn exec_step(i: InstructionModel, m: Memory) -> Option<Memory> {
    match i {
        InstructionModel::Mov(a, b) => match (read_operand(m, a), location_of(b)) {
            (Some(v), Some(l)) => Some(m.insert(l, v)),
            _ => None,
        },
        InstructionModel::Unary(op, a) => match (read_operand(m, a), location_of(a)) {
            (Some(v), Some(l)) => Some(m.insert(l, apply_unop(op, v))),
            _ => None,
        },
        InstructionModel::AllocateStack(_) => Some(m),
        InstructionModel::Ret => None,
    }
}

/// The value in the return register at the first `Ret`; `None` when
/// execution goes wrong first or never returns.
pub open spec fn run_instructions(is: Seq<InstructionModel>, m: Memory) -> Option<int>
    decreases is.len(),
{
    if is.len() == 0 {
        None
    } else if is[0] is Ret {
        read_operand(m, OperandModel::Reg(Reg::RV))
    } else {
        match exec_step(is[0], m) {
            Some(m2) => run_instructions(is.drop_first(), m2),
            None => None,
        }
    }
}

/// The value an assembly program returns, starting from empty memory.
pub open spec fn run_program(p: ProgramModel) -> Option<int> {
    match p {
        ProgramModel::Program(f) => run_instructions(f.instructions, Map::empty()),
    }
}

// ---------------------------------------------------------------------------
// Printing

pub open spec fn reg_text(r: Reg) -> Seq<char> {
    match r {
        Reg::RV => "RV"@,
        Reg::Scratch1 => "Scratch1"@,
    }
}

pub open spec fn unop_text(op: UnaryOperator) -> Seq<char> {
    match op {
        UnaryOperator::Neg => "Neg"@,
        UnaryOperator::Not => "Not"@,
    }
}

pub open spec fn operand_text(o: OperandModel) -> Seq<char> {
    match o {
        OperandModel::Imm(n) => "Imm("@ + signed_decimal(n as int) + ")"@,
        OperandModel::Reg(r) => "Reg("@ + reg_text(r) + ")"@,
        OperandModel::Pseudo(name) => "Pseudo("@ + debug_str(name) + ")"@,
        OperandModel::Stack(n) => "Stack("@ + signed_decimal(n as int) + ")"@,
    }
}

pub open spec fn instruction_text(i: InstructionModel) -> Seq<char> {
    match i {
        InstructionModel::Mov(a, b) => "Mov("@ + operand_text(a) + ", "@ + operand_text(b) + ")"@,
        InstructionModel::Unary(op, a) => "Unary("@ + unop_text(op) + ", "@ + operand_text(a) + ")"@,
        InstructionModel::AllocateStack(n) => "AllocateStack("@ + signed_decimal(n as int) + ")"@,
        InstructionModel::Ret => "Ret"@,
    }
}

pub open spec fn function_text(f: FunctionModel) -> Seq<char> {
    "Function(\n    name: "@ + debug_str(f.name) + "\n    instructions:\n"@ + join_indented(
        f.instructions.map_values(|i: InstructionModel| instruction_text(i)),
    ) + "\n)"@
}

pub open spec fn program_text(p: ProgramModel) -> Seq<char> {
    match p {
        ProgramModel::Program(f) => "Program(\n"@ + indent_spec(function_text(f)) + "\n)"@,
    }
}

impl Operand {
    /// `Imm(n)`, `Reg(r)`, `Pseudo("name")` or `Stack(n)`.
    pub fn to_text(&self) -> (s: String)
        ensures
            s@ == operand_text(self@),
    {
        let mut s = String::new();
        match self {
            Operand::Imm(n) => {
                s.append("Imm(");
                push_signed_decimal(&mut s, *n);
                s.append(")");
            },
            Operand::Reg(r) => {
                s.append("Reg(");
                match r {
                    Reg::RV => s.append("RV"),
                    Reg::Scratch1 => s.append("Scratch1"),
                }
                s.append(")");
            },
            Operand::Pseudo(name) => {
                s.append("Pseudo(");
                s.append(debug_string(name.as_str()).as_str());
                s.append(")");
            },
            Operand::Stack(n) => {
                s.append("Stack(");
                push_signed_decimal(&mut s, *n);
                s.append(")");
            },
        }
        assert(s@ =~= operand_text(self@));
        s
    }
}

impl Instruction {
    /// `Mov(a, b)`, `Unary(op, a)`, `AllocateStack(n)` or `Ret`.
    pub fn to_text(&self) -> (s: String)
        ensures
            s@ == instruction_text(self@),
    {
        let mut s = String::new();
        match self {
            Instruction::Mov(a, b) => {
                s.append("Mov(");
                s.append(a.to_text().as_str());
                s.append(", ");
                s.append(b.to_text().as_str());
                s.append(")");
            },
            Instruction::Unary(op, a) => {
                s.append("Unary(");
                match op {
                    UnaryOperator::Neg => s.append("Neg"),
                    UnaryOperator::Not => s.append("Not"),
                }
                s.append(", ");
                s.append(a.to_text().as_str());
                s.append(")");
            },
            Instruction::AllocateStack(n) => {
                s.append("AllocateStack(");
                push_signed_decimal(&mut s, *n);
                s.append(")");
            },
            Instruction::Ret => {
                s.append("Ret");
            },
        }
        assert(s@ =~= instruction_text(self@));
        s
    }
}

impl Function {
    /// The name, then the instructions one per line.
    pub fn to_text(&self) -> (s: String)
        ensures
            s@ == function_text(self@),
    {
        let mut s = String::new();
        s.append("Function(\n    name: ");
        s.append(debug_string(self.name.as_str()).as_str());
        s.append("\n    instructions:\n");
        let ghost head = s@;
        let ghost texts = self@.instructions.map_values(|i: InstructionModel| instruction_text(i));
        let mut k: usize = 0;
        while k < self.instructions.len()
            invariant
                k <= self.instructions.len(),
                texts == self@.instructions.map_values(|i: InstructionModel| instruction_text(i)),
                texts.len() == self.instructions.len(),
                s@ == head + join_indented(texts.take(k as int)),
            decreases self.instructions.len() - k,
        {
            if k > 0 {
                s.append("\n");
            }
            s.append("    ");
            let t = self.instructions[k].to_text();
            s.append(t.as_str());
            proof {
                assert(texts[k as int] == instruction_text(self.instructions@[k as int]@));
                assert(texts.take(k + 1) =~= texts.take(k as int).push(texts[k as int]));
                lemma_join_indented_push(texts.take(k as int), texts[k as int]);
                assert(s@ =~= head + join_indented(texts.take(k + 1)));
            }
            k += 1;
        }
        assert(texts.take(k as int) =~= texts);
        s.append("\n)");
        s
    }
}

impl Program {
    /// The function, indented, inside `Program(...)`.
    pub fn to_text(&self) -> (s: String)
        ensures
            s@ == program_text(self@),
    {
        let Program::Program(f) = self;
        let mut s = String::new();
        s.append("Program(\n");
        s.append(indent(f.to_text().as_str()).as_str());
        s.append("\n)");
        s
    }
}

} // verus!
