//! Emission of assembly text: the target platform, what all targets share,
//! and the x86-64 emitter for programs that only move immediates into the
//! return register and return.

use vstd::prelude::*;
use crate::assembly_ast::{
    instructions_view, Function, FunctionModel, Instruction, InstructionModel, Operand,
    OperandModel, Program, ProgramModel, Reg,
};
use crate::chars::{push_char, push_signed_decimal, signed_decimal};

verus! {

/// The operating system the assembly is for.
#[derive(Clone, Copy, Debug, PartialEq, Eq)]
pub enum TargetOs {
    Linux,
    MacOs,
    Other,
}

/// A symbol name as the target's assembler sees it: macOS prefixes `_`.
pub open spec fn mangled_name(name: Seq<char>, os: TargetOs) -> Seq<char> {
    if os == TargetOs::MacOs {
        seq!['_'] + name
    } else {
        name
    }
}

/// On Linux, the section that marks the stack as not executable.
pub open spec fn note_section(os: TargetOs) -> Seq<char> {
    if os == TargetOs::Linux {
        "\t.section .note.GNU-stack,\"\",@progbits\n"@
    } else {
        Seq::empty()
    }
}

/// The symbol name of a function on the target.
pub fn mangle(name: &String, os: TargetOs) -> (s: String)
    ensures
        s@ == mangled_name(name@, os),
{
    match os {
        TargetOs::MacOs => {
            let mut s = String::new();
            push_char(&mut s, '_');
            s.append(name.as_str());
            assert(s@ =~= mangled_name(name@, os));
            s
        },
        _ => name.clone(),
    }
}

/// Appends the note section, on Linux.
pub fn emit_note_section(out: &mut String, os: TargetOs)
    ensures
        final(out)@ == old(out)@ + note_section(os),
{
    match os {
        TargetOs::Linux => {
            out.append("\t.section .note.GNU-stack,\"\",@progbits\n");
        },
        _ => {
            assert(out@ =~= old(out)@ + note_section(os));
        },
    }
}

// ---------------------------------------------------------------------------
// Programs that only move immediates into the return register and return

/// An immediate or the return register.
pub open spec fn basic_operand(o: OperandModel) -> bool {
    o is Imm || o == OperandModel::Reg(Reg::RV)
}

/// A move between immediates and the return register, or a return.
pub open spec fn basic_instruction(i: InstructionModel) -> bool {
    match i {
        InstructionModel::Mov(a, b) => basic_operand(a) && basic_operand(b),
        InstructionModel::Ret => true,
        _ => false,
    }
}

pub open spec fn basic_function(f: FunctionModel) -> bool {
    forall|k: int| 0 <= k < f.instructions.len() ==> basic_instruction(#[trigger] f.instructions[k])
}

/// A program of moves between immediates and the return register, and returns.
pub open spec fn basic_program(p: ProgramModel) -> bool {
    match p {
        ProgramModel::Program(f) => basic_function(f),
    }
}

/// An operand: `$n` or `%eax`.
pub open spec fn basic_operand_text(o: OperandModel) -> Seq<char> {
    match o {
        OperandModel::Imm(n) => "$"@ + signed_decimal(n as int),
        _ => "%eax"@,
    }
}

pub open spec fn basic_instruction_text(i: InstructionModel) -> Seq<char> {
    match i {
        InstructionModel::Mov(src, dst) => "\tmovl "@ + basic_operand_text(src) + ", "@
            + basic_operand_text(dst) + "\n"@,
        _ => "\tret\n"@,
    }
}

pub open spec fn basic_body_text(is: Seq<InstructionModel>) -> Seq<char>
    decreases is.len(),
{
    if is.len() == 0 {
        Seq::empty()
    } else {
        basic_body_text(is.drop_last()) + basic_instruction_text(is.last())
    }
}

/// The label, then the instructions.
pub open spec fn basic_function_text(f: FunctionModel, os: TargetOs) -> Seq<char> {
    let label = mangled_name(f.name, os);
    "\t.globl "@ + label + "\n"@ + label + ":\n"@ + basic_body_text(f.instructions)
}

pub open spec fn basic_program_text(p: ProgramModel, os: TargetOs) -> Seq<char> {
    match p {
        ProgramModel::Program(f) => basic_function_text(f, os) + note_section(os),
    }
}

fn operand_str(operand: &Operand) -> (s: String)
    requires
        basic_operand(operand@),
    ensures
        s@ == basic_operand_text(operand@),
{
    match operand {
        Operand::Imm(n) => {
            let mut s = String::new();
            s.append("$");
            push_signed_decimal(&mut s, *n);
            s
        },
        _ => {
            let mut s = String::new();
            s.append("%eax");
            s
        },
    }
}

fn emit_instruction(out: &mut String, instr: &Instruction)
    requires
        basic_instruction(instr@),
    ensures
        final(out)@ == old(out)@ + basic_instruction_text(instr@),
{
    match instr {
        Instruction::Mov(src, dst) => {
            out.append("\tmovl ");
            out.append(operand_str(src).as_str());
            out.append(", ");
            out.append(operand_str(dst).as_str());
            out.append("\n");
        },
        _ => {
            out.append("\tret\n");
        },
    }
    assert(out@ =~= old(out)@ + basic_instruction_text(instr@));
}

fn emit_function(out: &mut String, func: &Function, os: TargetOs)
    requires
        basic_function(func@),
    ensures
        final(out)@ == old(out)@ + basic_function_text(func@, os),
{
    let label = mangle(&func.name, os);
    out.append("\t.globl ");
    out.append(label.as_str());
    out.append("\n");
    out.append(label.as_str());
    out.append(":\n");
    let ghost head = out@;
    let ghost is = func@.instructions;
    let mut k: usize = 0;
    while k < func.instructions.len()
        invariant
            k <= func.instructions.len(),
            is == instructions_view(func.instructions@),
            forall|j: int| 0 <= j < is.len() ==> basic_instruction(#[trigger] is[j]),
            out@ == head + basic_body_text(is.take(k as int)),
        decreases func.instructions.len() - k,
    {
        assert(is[k as int] == func.instructions@[k as int]@);
        emit_instruction(out, &func.instructions[k]);
        assert(is.take(k + 1).drop_last() =~= is.take(k as int));
        assert(head + basic_body_text(is.take(k as int)) + basic_instruction_text(is[k as int])
            =~= head + basic_body_text(is.take(k + 1)));
        k += 1;
    }
    assert(is.take(k as int) =~= is);
    assert(out@ =~= old(out)@ + basic_function_text(func@, os));
}

/// Appends the assembly text of a program made only of moves between
/// immediates and the return register, and returns.
pub fn emit_program(out: &mut String, program: &Program, os: TargetOs)
    requires
        basic_program(program@),
    ensures
        final(out)@ == old(out)@ + basic_program_text(program@, os),
{
    let Program::Program(func) = program;
    assert(program@ == ProgramModel::Program(func@));
    emit_function(out, func, os);
    emit_note_section(out, os);
    assert(out@ =~= old(out)@ + basic_program_text(program@, os));
}

/// Whether `program` is made only of moves between immediates and the
/// return register, and returns, as [`emit_program`] requires.
pub fn is_basic_program(program: &Program) -> (b: bool)
    ensures
        b == basic_program(program@),
{
    let Program::Program(func) = program;
    assert(program@ == ProgramModel::Program(func@));
    let ghost is = func@.instructions;
    let mut k: usize = 0;
    while k < func.instructions.len()
        invariant
            k <= func.instructions.len(),
            is == instructions_view(func.instructions@),
            program@ == ProgramModel::Program(func@),
            forall|j: int| 0 <= j < k ==> basic_instruction(#[trigger] is[j]),
        decreases func.instructions.len() - k,
    {
        let ok = match &func.instructions[k] {
            Instruction::Mov(a, b) => {
                let a_ok = match a {
                    Operand::Imm(_) => true,
                    Operand::Reg(Reg::RV) => true,
                    _ => false,
                };
                let b_ok = match b {
                    Operand::Imm(_) => true,
                    Operand::Reg(Reg::RV) => true,
                    _ => false,
                };
                a_ok && b_ok
            },
            Instruction::Ret => true,
            _ => false,
        };
        assert(is[k as int] == func.instructions@[k as int]@);
        if !ok {
            assert(!basic_instruction(func@.instructions[k as int]));
            assert(!basic_function(func@));
            assert(!basic_program(program@));
            return false;
        }
        k += 1;
    }
    true
}

// ---------------------------------------------------------------------------
// Laws shared by the emitters

/// `piece` stands in `text` from position `a` on.
pub open spec fn occurs_at(text: Seq<char>, piece: Seq<char>, a: int) -> bool {
    &&& 0 <= a
    &&& a + piece.len() <= text.len()
    &&& text.subrange(a, a + piece.len()) == piece
}

/// The symbol a function named `name` has on the target: `_` then the name
/// on macOS, the name itself elsewhere.
pub open spec fn target_symbol(name: Seq<char>, os: TargetOs) -> Seq<char> {
    if os == TargetOs::MacOs {
        seq!['_'] + name
    } else {
        name
    }
}

/// The lines that export and label a function under symbol `sym`.
pub open spec fn label_lines(sym: Seq<char>) -> Seq<char> {
    "\t.globl "@ + sym + "\n"@ + sym + ":\n"@
}

/// A text that starts with `head` and goes on with `rest` starts with
/// `head`.
pub proof fn lemma_starts_with(head: Seq<char>, rest: Seq<char>)
    ensures
        head.is_prefix_of(head + rest),
{
    assert((head + rest).subrange(0, head.len() as int) =~= head);
}

/// The emitted program starts by exporting and labelling its function under
/// the target's symbol for the function's name.
pub proof fn law_basic_label_is_target_symbol(p: ProgramModel, os: TargetOs)
    ensures
        label_lines(target_symbol(p->Program_0.name, os)).is_prefix_of(basic_program_text(p, os)),
{
    let f = p->Program_0;
    let head = label_lines(target_symbol(f.name, os));
    assert(basic_program_text(p, os) =~= head + (basic_body_text(f.instructions) + note_section(os)));
    lemma_starts_with(head, basic_body_text(f.instructions) + note_section(os));
}

} // verus!
