//! Emission of x86-64 assembly text (AT&T syntax) for the assembly tree.

use vstd::prelude::*;
use crate::assembly_ast::{
    instructions_view, program_is_final, Function, FunctionModel, Instruction, InstructionModel,
    Operand, OperandModel, Program, ProgramModel, Reg, UnaryOperator,
};
use crate::chars::{push_signed_decimal, signed_decimal};
use crate::emit::{
    label_lines, lemma_starts_with, mangle, mangled_name, note_section, occurs_at, target_symbol,
    TargetOs,
};
use crate::assembly_ast::apply_unop;
use crate::semantics::{complement_value, negate_value};

verus! {

pub open spec fn reg_text(r: Reg) -> Seq<char> {
    match r {
        Reg::RV => "%eax"@,
        Reg::Scratch1 => "%r10d"@,
    }
}

pub open spec fn unop_text(op: UnaryOperator) -> Seq<char> {
    match op {
        UnaryOperator::Neg => "neg"@,
        UnaryOperator::Not => "not"@,
    }
}

/// An operand: `$n`, a register, or `n(%rbp)`.
pub open spec fn operand_text(o: OperandModel) -> Seq<char> {
    match o {
        OperandModel::Imm(n) => "$"@ + signed_decimal(n as int),
        OperandModel::Reg(r) => reg_text(r),
        OperandModel::Stack(n) => signed_decimal(n as int) + "(%rbp)"@,
        OperandModel::Pseudo(_) => Seq::empty(),
    }
}

/// The lines of one instruction.
pub open spec fn instruction_text(i: InstructionModel) -> Seq<char> {
    match i {
        InstructionModel::Mov(src, dst) => "\tmovl "@ + operand_text(src) + ", "@ + operand_text(dst) + "\n"@,
        InstructionModel::Unary(op, o) => "\t"@ + unop_text(op) + "l "@ + operand_text(o) + "\n"@,
        InstructionModel::AllocateStack(n) => "\tsubq $"@ + signed_decimal(n as int) + ", %rsp\n"@,
        InstructionModel::Ret => "\tmovq %rbp, %rsp\n"@ + "\tpopq %rbp\n"@ + "\tret\n"@,
    }
}

pub open spec fn body_text(is: Seq<InstructionModel>) -> Seq<char>
    decreases is.len(),
{
    if is.len() == 0 {
        Seq::empty()
    } else {
        body_text(is.drop_last()) + instruction_text(is.last())
    }
}

/// The label, the prologue, then the instructions.
pub open spec fn function_text(f: FunctionModel, os: TargetOs) -> Seq<char> {
    let label = mangled_name(f.name, os);
    "\t.globl "@ + label + "\n"@ + label + ":\n"@ + "\tpushq %rbp\n"@ + "\tmovq %rsp, %rbp\n"@
        + body_text(f.instructions)
}

/// The text of a whole program.
pub open spec fn program_text(p: ProgramModel, os: TargetOs) -> Seq<char> {
    match p {
        ProgramModel::Program(f) => function_text(f, os) + note_section(os),
    }
}

fn reg_str(reg: &Reg) -> (s: &'static str)
    ensures
        s@ == reg_text(*reg),
{
    match reg {
        Reg::RV => "%eax",
        Reg::Scratch1 => "%r10d",
    }
}

fn unop_mnemonic(op: &UnaryOperator) -> (s: &'static str)
    ensures
        s@ == unop_text(*op),
{
    match op {
        UnaryOperator::Neg => "neg",
        UnaryOperator::Not => "not",
    }
}

fn operand_str(operand: &Operand) -> (s: String)
    requires
        !(operand@ is Pseudo),
    ensures
        s@ == operand_text(operand@),
{
    let mut s = String::new();
    match operand {
        Operand::Imm(n) => {
            s.append("$");
            push_signed_decimal(&mut s, *n);
        },
        Operand::Reg(r) => {
            s.append(reg_str(r));
        },
        Operand::Stack(n) => {
            push_signed_decimal(&mut s, *n);
            s.append("(%rbp)");
        },
        Operand::Pseudo(_) => {},
    }
    s
}

fn emit_instruction(out: &mut String, instr: &Instruction)
    requires
        crate::assembly_ast::instruction_is_final(instr@),
    ensures
        final(out)@ == old(out)@ + instruction_text(instr@),
{
    match instr {
        Instruction::Mov(src, dst) => {
            out.append("\tmovl ");
            out.append(operand_str(src).as_str());
            out.append(", ");
            out.append(operand_str(dst).as_str());
            out.append("\n");
        },
        Instruction::Unary(op, operand) => {
            out.append("\t");
            out.append(unop_mnemonic(op));
            out.append("l ");
            out.append(operand_str(operand).as_str());
            out.append("\n");
        },
        Instruction::AllocateStack(n) => {
            out.append("\tsubq $");
            push_signed_decimal(out, *n);
            out.append(", %rsp\n");
        },
        Instruction::Ret => {
            out.append("\tmovq %rbp, %rsp\n");
            out.append("\tpopq %rbp\n");
            out.append("\tret\n");
        },
    }
    assert(out@ =~= old(out)@ + instruction_text(instr@));
}

fn emit_function(out: &mut String, func: &Function, os: TargetOs)
    requires
        crate::assembly_ast::function_is_final(func@),
    ensures
        final(out)@ == old(out)@ + function_text(func@, os),
{
    let label = mangle(&func.name, os);
    out.append("\t.globl ");
    out.append(label.as_str());
    out.append("\n");
    out.append(label.as_str());
    out.append(":\n");
    out.append("\tpushq %rbp\n");
    out.append("\tmovq %rsp, %rbp\n");
    let ghost head = out@;
    let ghost is = func@.instructions;
    let mut k: usize = 0;
    while k < func.instructions.len()
        invariant
            k <= func.instructions.len(),
            is == instructions_view(func.instructions@),
            forall|j: int| 0 <= j < is.len() ==> crate::assembly_ast::instruction_is_final(#[trigger] is[j]),
            out@ == head + body_text(is.take(k as int)),
        decreases func.instructions.len() - k,
    {
        assert(is[k as int] == func.instructions@[k as int]@);
        emit_instruction(out, &func.instructions[k]);
        assert(is.take(k + 1).drop_last() =~= is.take(k as int));
        assert(head + body_text(is.take(k as int)) + instruction_text(is[k as int]) =~= head
            + body_text(is.take(k + 1)));
        k += 1;
    }
    assert(is.take(k as int) =~= is);
    assert(out@ =~= old(out)@ + function_text(func@, os));
}

/// Appends the x86-64 assembly text of `program` to `out`.
pub fn emit_program(out: &mut String, program: &Program, os: TargetOs)
    requires
        program_is_final(program@),
    ensures
        final(out)@ == old(out)@ + program_text(program@, os),
{
    let Program::Program(func) = program;
    assert(program@ == ProgramModel::Program(func@));
    emit_function(out, func, os);
    crate::emit::emit_note_section(out, os);
    assert(out@ =~= old(out)@ + program_text(program@, os));
}

// ---------------------------------------------------------------------------
// Laws

/// What an x86-64 unary instruction on a 32-bit operand computes, by its
/// mnemonic: `negl` negates in two's complement, `notl` flips every bit.
pub open spec fn unary_effect(mnemonic: Seq<char>, v: int) -> Option<int> {
    if mnemonic == "negl"@ {
        Some(negate_value(v))
    } else if mnemonic == "notl"@ {
        Some(complement_value(v))
    } else {
        None
    }
}

/// A unary instruction is emitted as one line whose mnemonic computes, on
/// the target, what the assembly operator computes: negation for `Neg`,
/// complement for `Not`. So the two operators never share a mnemonic.
pub proof fn law_unary_line_computes_its_operator(op: UnaryOperator, o: OperandModel, v: int)
    ensures
        exists|m: Seq<char>|
            #[trigger] unary_effect(m, v) == Some(apply_unop(op, v)) && instruction_text(
                InstructionModel::Unary(op, o),
            ) == "\t"@ + m + " "@ + operand_text(o) + "\n"@,
{
    reveal_strlit("neg");
    reveal_strlit("not");
    reveal_strlit("l");
    reveal_strlit("negl");
    reveal_strlit("notl");
    reveal_strlit("l ");
    reveal_strlit(" ");
    let m = unop_text(op) + "l"@;
    assert("neg"@ + "l"@ =~= "negl"@);
    assert("not"@ + "l"@ =~= "notl"@);
    assert("negl"@[1] != "notl"@[1]);
    assert(instruction_text(InstructionModel::Unary(op, o)) =~= "\t"@ + m + " "@ + operand_text(o) + "\n"@);
    assert(unary_effect(m, v) == Some(apply_unop(op, v)));
}

proof fn lemma_body_text_append(a: Seq<InstructionModel>, b: Seq<InstructionModel>)
    ensures
        body_text(a + b) == body_text(a) + body_text(b),
    decreases b.len(),
{
    if b.len() == 0 {
        assert(a + b =~= a);
        assert(body_text(a) + body_text(b) =~= body_text(a));
    } else {
        lemma_body_text_append(a, b.drop_last());
        assert((a + b).drop_last() =~= a + b.drop_last());
        assert((a + b).last() == b.last());
        assert(body_text(a + b) =~= body_text(a) + body_text(b));
    }
}

/// The text of a program holds the lines of every one of its instructions.
pub proof fn law_every_instruction_is_emitted(f: FunctionModel, os: TargetOs, k: int)
    requires
        0 <= k < f.instructions.len(),
    ensures
        exists|a: int| occurs_at(program_text(ProgramModel::Program(f), os), instruction_text(f.instructions[k]), a),
{
    let is = f.instructions;
    let one = seq![is[k]];
    let before = is.take(k);
    let after = is.skip(k + 1);
    assert(is =~= before + one + after);
    lemma_body_text_append(before + one, after);
    lemma_body_text_append(before, one);
    assert(one.drop_last() =~= Seq::<InstructionModel>::empty());
    assert(body_text(one.drop_last()) == Seq::<char>::empty());
    assert(one.last() == is[k]);
    assert(body_text(one) =~= instruction_text(is[k]));
    let label = mangled_name(f.name, os);
    let head = "\t.globl "@ + label + "\n"@ + label + ":\n"@ + "\tpushq %rbp\n"@ + "\tmovq %rsp, %rbp\n"@
        + body_text(before);
    let line = instruction_text(is[k]);
    let text = program_text(ProgramModel::Program(f), os);
    assert(text =~= head + line + (body_text(after) + note_section(os)));
    assert(text.subrange(head.len() as int, (head.len() + line.len()) as int) =~= line);
    assert(occurs_at(text, line, head.len() as int));
}

/// The emitted program starts by exporting and labelling its function under
/// the target's symbol for the function's name.
pub proof fn law_label_is_target_symbol(p: ProgramModel, os: TargetOs)
    ensures
        label_lines(target_symbol(p->Program_0.name, os)).is_prefix_of(program_text(p, os)),
{
    let f = p->Program_0;
    let head = label_lines(target_symbol(f.name, os));
    let rest = "\tpushq %rbp\n"@ + "\tmovq %rsp, %rbp\n"@ + body_text(f.instructions) + note_section(os);
    assert(program_text(p, os) =~= head + rest);
    lemma_starts_with(head, rest);
}

} // verus!
