//! Assembly generation from TACKY, in three passes:
//! 1. each TACKY instruction becomes assembly instructions over
//!    pseudo-registers;
//! 2. each pseudo-register is given a stack slot;
//! 3. a stack allocation is inserted and moves between two stack slots are
//!    split through a scratch register.

use vstd::prelude::*;
use crate::assembly_ast as assembly;
use crate::assembly_ast::{InstructionModel, OperandModel};
use crate::tacky;

verus! {

// ---------------------------------------------------------------------------
// Pass 1: TACKY to assembly over pseudo-registers

pub open spec fn convert_val_spec(v: tacky::ValModel) -> OperandModel {
    match v {
        tacky::ValModel::Constant(n) => OperandModel::Imm(n),
        tacky::ValModel::Var(name) => OperandModel::Pseudo(name),
    }
}

pub open spec fn convert_unop_spec(op: tacky::UnaryOperator) -> assembly::UnaryOperator {
    match op {
        tacky::UnaryOperator::Complement => assembly::UnaryOperator::Not,
        tacky::UnaryOperator::Negate => assembly::UnaryOperator::Neg,
    }
}

/// The assembly for one TACKY instruction.
pub open spec fn convert_instruction_spec(i: tacky::InstructionModel) -> Seq<InstructionModel> {
    match i {
        tacky::InstructionModel::Return(v) => seq![
            InstructionModel::Mov(convert_val_spec(v), OperandModel::Reg(assembly::Reg::RV)),
            InstructionModel::Ret,
        ],
        tacky::InstructionModel::Unary(op, src, dst) => seq![
            InstructionModel::Mov(convert_val_spec(src), convert_val_spec(dst)),
            InstructionModel::Unary(convert_unop_spec(op), convert_val_spec(dst)),
        ],
    }
}

/// The assembly for a sequence of TACKY instructions, in order.
pub open spec fn convert_body(is: Seq<tacky::InstructionModel>) -> Seq<InstructionModel>
    decreases is.len(),
{
    if is.len() == 0 {
        seq![]
    } else {
        convert_body(is.drop_last()) + convert_instruction_spec(is.last())
    }
}

pub open spec fn convert_program_spec(p: tacky::ProgramModel) -> assembly::ProgramModel {
    match p {
        tacky::ProgramModel::Program(f) => assembly::ProgramModel::Program(
            assembly::FunctionModel { name: f.name, instructions: convert_body(f.body) },
        ),
    }
}

fn convert_val(val: tacky::Val) -> (o: assembly::Operand)
    ensures
        o@ == convert_val_spec(val@),
{
    match val {
        tacky::Val::Constant(n) => assembly::Operand::Imm(n),
        tacky::Val::Var(name) => assembly::Operand::Pseudo(name),
    }
}

fn convert_unop(op: tacky::UnaryOperator) -> (r: assembly::UnaryOperator)
    ensures
        r == convert_unop_spec(op),
{
    match op {
        tacky::UnaryOperator::Complement => assembly::UnaryOperator::Not,
        tacky::UnaryOperator::Negate => assembly::UnaryOperator::Neg,
    }
}

fn convert_instruction(instr: tacky::Instruction, out: &mut Vec<assembly::Instruction>)
    ensures
        assembly::instructions_view(final(out)@) == assembly::instructions_view(old(out)@)
            + convert_instruction_spec(instr@),
{
    let ghost before = assembly::instructions_view(out@);
    match instr {
        tacky::Instruction::Return(val) => {
            out.push(assembly::Instruction::Mov(convert_val(val), assembly::Operand::Reg(assembly::Reg::RV)));
            out.push(assembly::Instruction::Ret);
        },
        tacky::Instruction::Unary(op, src, dst) => {
            let asm_dst = convert_val(dst);
            out.push(assembly::Instruction::Mov(convert_val(src), asm_dst.clone()));
            out.push(assembly::Instruction::Unary(convert_unop(op), asm_dst));
        },
    }
    assert(assembly::instructions_view(out@) =~= before + convert_instruction_spec(instr@));
}

fn convert_function(func: tacky::Function) -> (f: assembly::Function)
    ensures
        f@ == (assembly::FunctionModel { name: func@.name, instructions: convert_body(func@.body) }),
{
    let tacky::Function { name, body } = func;
    let ghost body_view = tacky::instructions_view(body@);
    let mut instructions: Vec<assembly::Instruction> = Vec::new();
    let ghost mut seen: Seq<tacky::InstructionModel> = seq![];
    for instr in it: body
        invariant
            body_view == tacky::instructions_view(it.seq()),
            seen == tacky::instructions_view(it.seq().take(it.index() as int)),
            seen.len() == it.index(),
            assembly::instructions_view(instructions@) == convert_body(seen),
    {
        let ghost k = it.index();
        let ghost iv = instr@;
        convert_instruction(instr, &mut instructions);
        proof {
            assert(tacky::instructions_view(it.seq().take(k + 1)) =~= seen.push(iv));
            assert(seen.push(iv).drop_last() =~= seen);
            seen = seen.push(iv);
        }
    }
    assert(seen =~= body_view);
    assembly::Function { name, instructions }
}

fn convert_program(program: tacky::Program) -> (r: assembly::Program)
    ensures
        r@ == convert_program_spec(program@),
{
    let tacky::Program::Program(func) = program;
    assembly::Program::Program(convert_function(func))
}

// ---------------------------------------------------------------------------
// Pass 2: give each pseudo-register a stack slot

/// The most instructions a function may have here: enough that every stack
/// offset fits in `i64`.
pub open spec fn max_instructions() -> int {
    0x1000_0000_0000_0000
}

/// Notes a pseudo-register at the end of `names` unless it is there.
pub open spec fn note_operand(names: Seq<Seq<char>>, o: OperandModel) -> Seq<Seq<char>> {
    match o {
        OperandModel::Pseudo(n) => if names.contains(n) {
            names
        } else {
            names.push(n)
        },
        _ => names,
    }
}

/// Notes the pseudo-registers of an instruction, source before destination.
pub open spec fn note_instruction(names: Seq<Seq<char>>, i: InstructionModel) -> Seq<Seq<char>> {
    match i {
        InstructionModel::Mov(a, b) => note_operand(note_operand(names, a), b),
        InstructionModel::Unary(_, a) => note_operand(names, a),
        _ => names,
    }
}

pub open spec fn pseudo_order_from(names: Seq<Seq<char>>, is: Seq<InstructionModel>) -> Seq<Seq<char>>
    decreases is.len(),
{
    if is.len() == 0 {
        names
    } else {
        note_instruction(pseudo_order_from(names, is.drop_last()), is.last())
    }
}

/// The distinct pseudo-registers of `is`, in order of first appearance.
pub open spec fn pseudo_order(is: Seq<InstructionModel>) -> Seq<Seq<char>> {
    pseudo_order_from(seq![], is)
}

/// The position of the first `n` in `names` (its length when absent).
pub open spec fn slot_index(names: Seq<Seq<char>>, n: Seq<char>) -> int
    decreases names.len(),
{
    if names.len() == 0 {
        0
    } else if names[0] == n {
        0
    } else {
        1 + slot_index(names.drop_first(), n)
    }
}

/// The stack offset of pseudo-register `n`: the k-th distinct name gets
/// `-4 * k`, counting from 1.
pub open spec fn slot_offset(names: Seq<Seq<char>>, n: Seq<char>) -> int {
    -4 * (slot_index(names, n) + 1)
}

pub open spec fn replace_operand_spec(names: Seq<Seq<char>>, o: OperandModel) -> OperandModel {
    match o {
        OperandModel::Pseudo(n) => OperandModel::Stack(slot_offset(names, n) as i64),
        _ => o,
    }
}

pub open spec fn replace_instruction_spec(names: Seq<Seq<char>>, i: InstructionModel) -> InstructionModel {
    match i {
        InstructionModel::Mov(a, b) => InstructionModel::Mov(
            replace_operand_spec(names, a),
            replace_operand_spec(names, b),
        ),
        InstructionModel::Unary(op, a) => InstructionModel::Unary(op, replace_operand_spec(names, a)),
        _ => i,
    }
}

/// The instructions with every pseudo-register replaced by its stack slot.
pub open spec fn replace_body(is: Seq<InstructionModel>) -> Seq<InstructionModel> {
    is.map_values(|i: InstructionModel| replace_instruction_spec(pseudo_order(is), i))
}

/// The bytes of stack the slots take.
pub open spec fn stack_size_spec(is: Seq<InstructionModel>) -> int {
    4 * (pseudo_order(is).len() as int)
}

pub open spec fn no_dup(names: Seq<Seq<char>>) -> bool {
    forall|a: int, b: int| 0 <= a < b < names.len() ==> names[a] != names[b]
}

pub open spec fn is_prefix(a: Seq<Seq<char>>, b: Seq<Seq<char>>) -> bool {
    a.len() <= b.len() && b.take(a.len() as int) == a
}

/// Every pseudo-register of `i` is in `names`.
pub open spec fn pseudos_in(i: InstructionModel, names: Seq<Seq<char>>) -> bool {
    let op_in = |o: OperandModel| (o matches OperandModel::Pseudo(n) ==> names.contains(n));
    match i {
        InstructionModel::Mov(a, b) => op_in(a) && op_in(b),
        InstructionModel::Unary(_, a) => op_in(a),
        _ => true,
    }
}

proof fn lemma_slot_index_found(names: Seq<Seq<char>>, n: Seq<char>, k: int)
    requires
        0 <= k <= names.len(),
        forall|j: int| 0 <= j < k ==> names[j] != n,
        k < names.len() ==> names[k] == n,
    ensures
        slot_index(names, n) == k,
    decreases k,
{
    if k > 0 {
        assert forall|j: int| 0 <= j < k - 1 implies names.drop_first()[j] != n by {
            assert(names.drop_first()[j] == names[j + 1]);
        }
        lemma_slot_index_found(names.drop_first(), n, k - 1);
    }
}

pub(crate) proof fn lemma_slot_index_prefix(a: Seq<Seq<char>>, b: Seq<Seq<char>>, n: Seq<char>)
    requires
        is_prefix(a, b),
        a.contains(n),
    ensures
        slot_index(a, n) == slot_index(b, n),
        0 <= slot_index(a, n) < a.len(),
        a[slot_index(a, n)] == n,
    decreases a.len(),
{
    assert(b[0] == a[0]) by {
        assert(b.take(a.len() as int)[0] == b[0]);
    }
    if a[0] != n {
        let j = choose|j: int| 0 <= j < a.len() && a[j] == n;
        assert(a.drop_first()[j - 1] == n);
        assert(b.drop_first().take(a.drop_first().len() as int) =~= a.drop_first());
        lemma_slot_index_prefix(a.drop_first(), b.drop_first(), n);
    }
}

proof fn lemma_note_operand(names: Seq<Seq<char>>, o: OperandModel)
    requires
        no_dup(names),
    ensures
        is_prefix(names, note_operand(names, o)),
        no_dup(note_operand(names, o)),
        note_operand(names, o).len() <= names.len() + 1,
        o matches OperandModel::Pseudo(n) ==> note_operand(names, o).contains(n),
{
    let r = note_operand(names, o);
    assert(r.take(names.len() as int) =~= names);
    if let OperandModel::Pseudo(n) = o {
        if !names.contains(n) {
            assert(r[names.len() as int] == n);
        }
    }
}

proof fn lemma_prefix_contains(a: Seq<Seq<char>>, b: Seq<Seq<char>>, n: Seq<char>)
    requires
        is_prefix(a, b),
        a.contains(n),
    ensures
        b.contains(n),
{
    let j = choose|j: int| 0 <= j < a.len() && a[j] == n;
    assert(b.take(a.len() as int)[j] == b[j]);
}

proof fn lemma_prefix_trans(a: Seq<Seq<char>>, b: Seq<Seq<char>>, c: Seq<Seq<char>>)
    requires
        is_prefix(a, b),
        is_prefix(b, c),
    ensures
        is_prefix(a, c),
{
    assert(c.take(a.len() as int) =~= a) by {
        assert forall|j: int| 0 <= j < a.len() implies c.take(a.len() as int)[j] == a[j] by {
            assert(c.take(b.len() as int)[j] == c[j]);
            assert(b.take(a.len() as int)[j] == b[j]);
        }
    }
}

pub(crate) proof fn lemma_note_instruction(names: Seq<Seq<char>>, i: InstructionModel)
    requires
        no_dup(names),
    ensures
        is_prefix(names, note_instruction(names, i)),
        no_dup(note_instruction(names, i)),
        note_instruction(names, i).len() <= names.len() + 2,
        pseudos_in(i, note_instruction(names, i)),
{
    match i {
        InstructionModel::Mov(a, b) => {
            let n1 = note_operand(names, a);
            lemma_note_operand(names, a);
            lemma_note_operand(n1, b);
            lemma_prefix_trans(names, n1, note_operand(n1, b));
            if let OperandModel::Pseudo(x) = a {
                lemma_prefix_contains(n1, note_operand(n1, b), x);
            }
        },
        InstructionModel::Unary(_, a) => {
            lemma_note_operand(names, a);
        },
        _ => {
            assert(names.take(names.len() as int) =~= names);
        },
    }
}

/// Replacing with a longer list of names changes nothing once the
/// instruction's names are all present.
proof fn lemma_replace_stable(a: Seq<Seq<char>>, b: Seq<Seq<char>>, i: InstructionModel)
    requires
        is_prefix(a, b),
        pseudos_in(i, a),
    ensures
        replace_instruction_spec(a, i) == replace_instruction_spec(b, i),
{
    match i {
        InstructionModel::Mov(x, y) => {
            if let OperandModel::Pseudo(n) = x {
                lemma_slot_index_prefix(a, b, n);
            }
            if let OperandModel::Pseudo(n) = y {
                lemma_slot_index_prefix(a, b, n);
            }
        },
        InstructionModel::Unary(_, x) => {
            if let OperandModel::Pseudo(n) = x {
                lemma_slot_index_prefix(a, b, n);
            }
        },
        _ => {},
    }
}

pub(crate) proof fn lemma_pseudos_in_prefix(i: InstructionModel, a: Seq<Seq<char>>, b: Seq<Seq<char>>)
    requires
        is_prefix(a, b),
        pseudos_in(i, a),
    ensures
        pseudos_in(i, b),
{
    match i {
        InstructionModel::Mov(x, y) => {
            if let OperandModel::Pseudo(n) = x {
                lemma_prefix_contains(a, b, n);
            }
            if let OperandModel::Pseudo(n) = y {
                lemma_prefix_contains(a, b, n);
            }
        },
        InstructionModel::Unary(_, x) => {
            if let OperandModel::Pseudo(n) = x {
                lemma_prefix_contains(a, b, n);
            }
        },
        _ => {},
    }
}

/// Slots follow first appearance: in a table without repeats the k-th name
/// has offset `-4 * (k + 1)`, so the offsets are `-4, -8, ...` down to
/// `-4 * len`, one per name, no two alike.
pub proof fn law_slots_follow_first_appearance(names: Seq<Seq<char>>)
    requires
        no_dup(names),
    ensures
        forall|k: int| 0 <= k < names.len() ==> slot_offset(names, #[trigger] names[k]) == -4 * (k + 1),
        forall|j: int, k: int|
            0 <= j < k < names.len() ==> slot_offset(names, #[trigger] names[j]) != slot_offset(
                names,
                #[trigger] names[k],
            ),
{
    assert forall|k: int| 0 <= k < names.len() implies slot_offset(names, #[trigger] names[k]) == -4 * (
    k + 1) by {
        lemma_slot_index_found(names, names[k], k);
    }
}

/// Looking a name up notes it once: a new name gets the next slot at the
/// end of the table, a known one leaves the table as it was, and a second
/// lookup of the same name changes nothing and gives the same offset.
pub proof fn law_lookup_notes_once(names: Seq<Seq<char>>, n: Seq<char>)
    requires
        no_dup(names),
    ensures
        !names.contains(n) ==> note_operand(names, OperandModel::Pseudo(n)) == names.push(n)
            && slot_offset(names.push(n), n) == -4 * (names.len() + 1),
        names.contains(n) ==> note_operand(names, OperandModel::Pseudo(n)) == names,
        no_dup(note_operand(names, OperandModel::Pseudo(n))),
        note_operand(note_operand(names, OperandModel::Pseudo(n)), OperandModel::Pseudo(n))
            == note_operand(names, OperandModel::Pseudo(n)),
{
    lemma_note_operand(names, OperandModel::Pseudo(n));
    let r = note_operand(names, OperandModel::Pseudo(n));
    if !names.contains(n) {
        assert forall|j: int| 0 <= j < names.len() implies names.push(n)[j] != n by {
            assert(names.push(n)[j] == names[j]);
        }
        lemma_slot_index_found(names.push(n), n, names.len() as int);
    }
    assert(r.contains(n));
}

/// The stack slots assigned so far: the k-th name gets offset `-4 * (k + 1)`.
struct PseudoMap {
    names: Vec<String>,
}

impl PseudoMap {
    spec fn names_view(&self) -> Seq<Seq<char>> {
        self.names@.map_values(|s: String| s@)
    }

    fn new() -> (m: Self)
        ensures
            m.names_view() == Seq::<Seq<char>>::empty(),
    {
        let m = PseudoMap { names: Vec::new() };
        assert(m.names_view() =~= Seq::<Seq<char>>::empty());
        m
    }

    /// The offset of pseudo-register `name`, giving it the next slot if it
    /// has none yet.
    fn lookup(&mut self, name: &String) -> (offset: i64)
        requires
            no_dup(old(self).names_view()),
            old(self).names_view().len() < 0x2000_0000_0000_0000,
        ensures
            final(self).names_view() == note_operand(
                old(self).names_view(),
                OperandModel::Pseudo(name@),
            ),
            no_dup(final(self).names_view()),
            offset == slot_offset(final(self).names_view(), name@),
    {
        let ghost names = self.names_view();
        let mut k: usize = 0;
        while k < self.names.len()
            invariant
                k <= self.names.len(),
                names == self.names_view(),
                no_dup(names),
                names.len() < 0x2000_0000_0000_0000,
                forall|j: int| 0 <= j < k ==> names[j] != name@,
            decreases self.names.len() - k,
        {
            if self.names[k] == *name {
                proof {
                    assert(names[k as int] == name@);
                    lemma_slot_index_found(names, name@, k as int);
                    assert(names.contains(name@));
                }
                return -4 * (k as i64 + 1);
            }
            k += 1;
        }
        let len = self.names.len();
        self.names.push(name.clone());
        proof {
            assert(!names.contains(name@));
            assert(self.names_view() =~= names.push(name@));
            lemma_slot_index_found(self.names_view(), name@, len as int);
        }
        -4 * (len as i64 + 1)
    }

    /// The bytes of stack the slots take.
    fn stack_size(&self) -> (n: i64)
        requires
            self.names_view().len() < 0x2000_0000_0000_0000,
        ensures
            n == 4 * self.names_view().len(),
    {
        4 * (self.names.len() as i64)
    }
}

fn replace_in_operand(op: &mut assembly::Operand, pseudos: &mut PseudoMap)
    requires
        no_dup(old(pseudos).names_view()),
        old(pseudos).names_view().len() < 0x2000_0000_0000_0000,
    ensures
        final(pseudos).names_view() == note_operand(old(pseudos).names_view(), old(op)@),
        no_dup(final(pseudos).names_view()),
        final(op)@ == replace_operand_spec(final(pseudos).names_view(), old(op)@),
{
    let offset = match &*op {
        assembly::Operand::Pseudo(name) => Some(pseudos.lookup(name)),
        _ => None,
    };
    match offset {
        Some(off) => {
            *op = assembly::Operand::Stack(off);
        },
        None => {},
    }
}

fn replace_in_instruction(instr: &mut assembly::Instruction, pseudos: &mut PseudoMap)
    requires
        no_dup(old(pseudos).names_view()),
        old(pseudos).names_view().len() < 0x1fff_ffff_ffff_ffff,
    ensures
        final(pseudos).names_view() == note_instruction(old(pseudos).names_view(), old(instr)@),
        no_dup(final(pseudos).names_view()),
        final(instr)@ == replace_instruction_spec(final(pseudos).names_view(), old(instr)@),
{
    let ghost n0 = pseudos.names_view();
    let ghost i0 = instr@;
    match instr {
        assembly::Instruction::Mov(src, dst) => {
            let ghost s0 = src@;
            replace_in_operand(src, pseudos);
            let ghost n1 = pseudos.names_view();
            proof {
                lemma_note_operand(n0, s0);
            }
            replace_in_operand(dst, pseudos);
            proof {
                lemma_note_operand(n1, i0->Mov_1);
                if let OperandModel::Pseudo(n) = s0 {
                    lemma_slot_index_prefix(n1, pseudos.names_view(), n);
                }
            }
        },
        assembly::Instruction::Unary(_, op) => {
            replace_in_operand(op, pseudos);
        },
        _ => {},
    }
}

fn replace_pseudos(program: assembly::Program) -> (r: (assembly::Program, i64))
    requires
        match program@ {
            assembly::ProgramModel::Program(f) => f.instructions.len() < max_instructions(),
        },
    ensures
        match program@ {
            assembly::ProgramModel::Program(f) => {
                &&& r.0@ == assembly::ProgramModel::Program(
                    assembly::FunctionModel { name: f.name, instructions: replace_body(f.instructions) },
                )
                &&& r.1 == stack_size_spec(f.instructions)
            },
        },
{
    let assembly::Program::Program(func) = program;
    let assembly::Function { name, instructions } = func;
    let ghost body_view = assembly::instructions_view(instructions@);
    let ghost total = instructions@.len();
    let mut pseudos = PseudoMap::new();
    let mut out: Vec<assembly::Instruction> = Vec::new();
    let ghost mut seen: Seq<InstructionModel> = seq![];
    for instr in it: instructions
        invariant
            body_view == assembly::instructions_view(it.seq()),
            total == it.seq().len(),
            total < max_instructions(),
            seen == assembly::instructions_view(it.seq().take(it.index() as int)),
            seen.len() == it.index(),
            out@.len() == it.index(),
            pseudos.names_view() == pseudo_order(seen),
            no_dup(pseudos.names_view()),
            pseudos.names_view().len() <= 2 * it.index(),
            forall|k: int|
                0 <= k < it.index() ==> (#[trigger] out@[k])@ == replace_instruction_spec(
                    pseudos.names_view(),
                    seen[k],
                ) && pseudos_in(seen[k], pseudos.names_view()),
    {
        let ghost k = it.index();
        let ghost iv = instr@;
        let ghost names0 = pseudos.names_view();
        let mut instr = instr;
        replace_in_instruction(&mut instr, &mut pseudos);
        out.push(instr);
        proof {
            let names1 = pseudos.names_view();
            lemma_note_instruction(names0, iv);
            assert(names1 == pseudo_order(seen.push(iv))) by {
                assert(seen.push(iv).drop_last() =~= seen);
            }
            assert forall|j: int| 0 <= j < k + 1 implies (#[trigger] out@[j])@
                == replace_instruction_spec(names1, seen.push(iv)[j]) && pseudos_in(
                seen.push(iv)[j],
                names1,
            ) by {
                if j < k {
                    lemma_replace_stable(names0, names1, seen[j]);
                    lemma_pseudos_in_prefix(seen[j], names0, names1);
                }
            }
            assert(assembly::instructions_view(it.seq().take(k + 1)) =~= seen.push(iv));
            seen = seen.push(iv);
        }
    }
    let stack_size = pseudos.stack_size();
    proof {
        assert(seen =~= body_view);
        assert(assembly::instructions_view(out@) =~= replace_body(body_view));
    }
    (assembly::Program::Program(assembly::Function { name, instructions: out }), stack_size)
}

// ---------------------------------------------------------------------------
// Pass 3: allocate the stack and split moves between two stack slots

/// A move between two stack slots goes through the scratch register.
pub open spec fn fix_instruction_spec(i: InstructionModel) -> Seq<InstructionModel> {
    match i {
        InstructionModel::Mov(OperandModel::Stack(src), OperandModel::Stack(dst)) => seq![
            InstructionModel::Mov(OperandModel::Stack(src), OperandModel::Reg(assembly::Reg::Scratch1)),
            InstructionModel::Mov(OperandModel::Reg(assembly::Reg::Scratch1), OperandModel::Stack(dst)),
        ],
        _ => seq![i],
    }
}

pub open spec fn fix_body(is: Seq<InstructionModel>) -> Seq<InstructionModel>
    decreases is.len(),
{
    if is.len() == 0 {
        seq![]
    } else {
        fix_body(is.drop_last()) + fix_instruction_spec(is.last())
    }
}

/// The stack allocation, when any stack is used, then the fixed instructions.
pub open spec fn fix_instructions_spec(is: Seq<InstructionModel>, stack_size: i64) -> Seq<InstructionModel> {
    if stack_size > 0 {
        seq![InstructionModel::AllocateStack(stack_size)] + fix_body(is)
    } else {
        fix_body(is)
    }
}

/// The assembly program for a TACKY program: the three passes in turn.
pub open spec fn codegen_spec(p: tacky::ProgramModel) -> assembly::ProgramModel {
    match p {
        tacky::ProgramModel::Program(f) => {
            let converted = convert_body(f.body);
            assembly::ProgramModel::Program(
                assembly::FunctionModel {
                    name: f.name,
                    instructions: fix_instructions_spec(
                        replace_body(converted),
                        stack_size_spec(converted) as i64,
                    ),
                },
            )
        },
    }
}

fn fix_instruction(instr: assembly::Instruction, out: &mut Vec<assembly::Instruction>)
    ensures
        assembly::instructions_view(final(out)@) == assembly::instructions_view(old(out)@)
            + fix_instruction_spec(instr@),
{
    let ghost before = assembly::instructions_view(out@);
    let ghost iv = instr@;
    match instr {
        assembly::Instruction::Mov(assembly::Operand::Stack(src), assembly::Operand::Stack(dst)) => {
            out.push(
                assembly::Instruction::Mov(
                    assembly::Operand::Stack(src),
                    assembly::Operand::Reg(assembly::Reg::Scratch1),
                ),
            );
            out.push(
                assembly::Instruction::Mov(
                    assembly::Operand::Reg(assembly::Reg::Scratch1),
                    assembly::Operand::Stack(dst),
                ),
            );
        },
        other => out.push(other),
    }
    assert(assembly::instructions_view(out@) =~= before + fix_instruction_spec(iv));
}

fn fix_instructions(program: assembly::Program, stack_size: i64) -> (r: assembly::Program)
    requires
        match program@ {
            assembly::ProgramModel::Program(f) => f.instructions.len() < max_instructions(),
        },
    ensures
        match program@ {
            assembly::ProgramModel::Program(f) => r@ == assembly::ProgramModel::Program(
                assembly::FunctionModel {
                    name: f.name,
                    instructions: fix_instructions_spec(f.instructions, stack_size),
                },
            ),
        },
{
    let assembly::Program::Program(func) = program;
    let assembly::Function { name, instructions } = func;
    let ghost body_view = assembly::instructions_view(instructions@);
    let mut new_instructions: Vec<assembly::Instruction> = Vec::with_capacity(instructions.len());
    if stack_size > 0 {
        new_instructions.push(assembly::Instruction::AllocateStack(stack_size));
    }
    let ghost head = assembly::instructions_view(new_instructions@);
    assert(head == if stack_size > 0 {
        seq![InstructionModel::AllocateStack(stack_size)]
    } else {
        Seq::<InstructionModel>::empty()
    });
    let ghost mut seen: Seq<InstructionModel> = seq![];
    for instr in it: instructions
        invariant
            body_view == assembly::instructions_view(it.seq()),
            seen == assembly::instructions_view(it.seq().take(it.index() as int)),
            seen.len() == it.index(),
            assembly::instructions_view(new_instructions@) == head + fix_body(seen),
    {
        let ghost k = it.index();
        let ghost iv = instr@;
        fix_instruction(instr, &mut new_instructions);
        proof {
            assert(seen.push(iv).drop_last() =~= seen);
            assert(head + fix_body(seen) + fix_instruction_spec(iv) =~= head + fix_body(seen.push(iv)));
            assert(assembly::instructions_view(it.seq().take(k + 1)) =~= seen.push(iv));
            seen = seen.push(iv);
        }
    }
    proof {
        assert(seen =~= body_view);
        if stack_size <= 0 {
            assert(head + fix_body(body_view) =~= fix_body(body_view));
        }
    }
    assembly::Program::Program(assembly::Function { name, instructions: new_instructions })
}

pub(crate) proof fn lemma_convert_body_len(is: Seq<tacky::InstructionModel>)
    ensures
        convert_body(is).len() == 2 * is.len(),
    decreases is.len(),
{
    if is.len() > 0 {
        lemma_convert_body_len(is.drop_last());
    }
}

pub(crate) proof fn lemma_pseudo_order_len(names: Seq<Seq<char>>, is: Seq<InstructionModel>)
    requires
        no_dup(names),
    ensures
        no_dup(pseudo_order_from(names, is)),
        pseudo_order_from(names, is).len() <= names.len() + 2 * is.len(),
    decreases is.len(),
{
    if is.len() > 0 {
        lemma_pseudo_order_len(names, is.drop_last());
        lemma_note_instruction(pseudo_order_from(names, is.drop_last()), is.last());
    }
}

/// Generates assembly for a TACKY program.
///
/// The result is the three passes of [`codegen_spec`] applied in turn. The
/// function may hold at most 2^59 - 1 instructions, which keeps every stack
/// offset within `i64`.
pub fn gen_program(program: tacky::Program) -> (r: assembly::Program)
    requires
        match program@ {
            tacky::ProgramModel::Program(f) => f.body.len() < max_instructions() / 2,
        },
    ensures
        r@ == codegen_spec(program@),
{
    proof {
        let tacky::ProgramModel::Program(f) = program@;
        lemma_convert_body_len(f.body);
        lemma_pseudo_order_len(seq![], convert_body(f.body));
    }
    let asm_program = convert_program(program);
    let (asm_program, stack_size) = replace_pseudos(asm_program);
    fix_instructions(asm_program, stack_size)
}

// ---------------------------------------------------------------------------
// Laws on the shape of the output

/// A move from one stack slot to another, which x86-64 cannot encode.
pub open spec fn is_stack_to_stack(i: InstructionModel) -> bool {
    i matches InstructionModel::Mov(OperandModel::Stack(_), OperandModel::Stack(_))
}

/// No instruction of the program moves from one stack slot to another.
pub open spec fn no_stack_to_stack(p: assembly::ProgramModel) -> bool {
    match p {
        assembly::ProgramModel::Program(f) => forall|k: int|
            0 <= k < f.instructions.len() ==> !is_stack_to_stack(#[trigger] f.instructions[k]),
    }
}

proof fn lemma_fix_body_shape(is: Seq<InstructionModel>)
    requires
        forall|k: int| 0 <= k < is.len() ==> assembly::instruction_is_final(#[trigger] is[k]),
    ensures
        forall|k: int|
            0 <= k < fix_body(is).len() ==> assembly::instruction_is_final(#[trigger] fix_body(is)[k])
                && !is_stack_to_stack(fix_body(is)[k]),
    decreases is.len(),
{
    if is.len() > 0 {
        let init = is.drop_last();
        assert forall|k: int| 0 <= k < init.len() implies assembly::instruction_is_final(
            #[trigger] init[k],
        ) by {
            assert(init[k] == is[k]);
        }
        lemma_fix_body_shape(init);
        assert(assembly::instruction_is_final(is[is.len() - 1]));
        let a = fix_body(init);
        let b = fix_instruction_spec(is.last());
        assert forall|k: int| 0 <= k < (a + b).len() implies assembly::instruction_is_final(
            #[trigger] (a + b)[k],
        ) && !is_stack_to_stack((a + b)[k]) by {
            if k >= a.len() {
                assert((a + b)[k] == b[k - a.len()]);
            }
        }
    }
}

/// Generated assembly is ready for emission: it mentions no
/// pseudo-register, and no move goes from one stack slot to another.
pub proof fn law_codegen_output_is_final(p: tacky::ProgramModel)
    ensures
        assembly::program_is_final(codegen_spec(p)),
        no_stack_to_stack(codegen_spec(p)),
{
    let tacky::ProgramModel::Program(f) = p;
    let converted = convert_body(f.body);
    let replaced = replace_body(converted);
    let size = stack_size_spec(converted) as i64;
    assert forall|k: int| 0 <= k < replaced.len() implies assembly::instruction_is_final(
        #[trigger] replaced[k],
    ) by {}
    lemma_fix_body_shape(replaced);
    let out = fix_instructions_spec(replaced, size);
    assert forall|k: int| 0 <= k < out.len() implies assembly::instruction_is_final(#[trigger] out[k])
        && !is_stack_to_stack(out[k]) by {
        if size > 0 && k > 0 {
            assert(out[k] == fix_body(replaced)[k - 1]);
        }
    }
}

/// Assembly generation keeps the function's name: the assembly function is
/// named as the TACKY function.
pub proof fn law_codegen_keeps_function_name(p: tacky::ProgramModel)
    ensures
        codegen_spec(p)->Program_0.name == p->Program_0.name,
{
}

} // verus!
