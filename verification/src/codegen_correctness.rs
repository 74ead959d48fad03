//! Assembly generation preserves meaning: the generated assembly returns
//! the value the TACKY program returns, pass by pass.

use vstd::prelude::*;
use crate::assembly_ast as assembly;
use crate::assembly_ast::{
    exec_step, location_of, read_operand, run_instructions, InstructionModel, Location, Memory,
    OperandModel, Reg,
};
use crate::codegen::{
    convert_body, convert_instruction_spec, convert_unop_spec, convert_val_spec, is_prefix,
    lemma_note_instruction, lemma_pseudos_in_prefix, lemma_slot_index_prefix, no_dup,
    note_instruction, pseudo_order_from, pseudos_in, replace_instruction_spec,
    replace_operand_spec, slot_index, slot_offset, codegen_spec, fix_body, fix_instruction_spec,
    fix_instructions_spec, lemma_convert_body_len, lemma_pseudo_order_len, max_instructions,
    pseudo_order, replace_body, stack_size_spec,
};
use crate::tacky;

verus! {

// ---------------------------------------------------------------------------
// Pass 1

/// Each temporary's value is held in the pseudo-register of the same name.
pub open spec fn env_agrees(env: tacky::Env, m: Memory) -> bool {
    forall|x: Seq<char>|
        #![trigger env.contains_key(x)]
        env.contains_key(x) ==> m.contains_key(Location::Pseudo(x)) && m[Location::Pseudo(x)] == env[x]
}

proof fn lemma_convert_body_cons(is: Seq<tacky::InstructionModel>)
    requires
        is.len() > 0,
    ensures
        convert_body(is) == convert_instruction_spec(is[0]) + convert_body(is.drop_first()),
    decreases is.len(),
{
    if is.len() == 1 {
        assert(is.drop_last() =~= Seq::<tacky::InstructionModel>::empty());
        assert(is.drop_first() =~= Seq::<tacky::InstructionModel>::empty());
        assert(convert_body(is) =~= convert_instruction_spec(is[0]) + convert_body(is.drop_first()));
    } else {
        lemma_convert_body_cons(is.drop_last());
        assert(is.drop_last().drop_first() =~= is.drop_first().drop_last());
        assert(is.drop_first().last() == is.last());
        assert(is.drop_last()[0] == is[0]);
        assert(convert_body(is) =~= convert_instruction_spec(is[0]) + convert_body(is.drop_first()));
    }
}

proof fn lemma_read_converted(env: tacky::Env, m: Memory, v: tacky::ValModel)
    requires
        env_agrees(env, m),
        tacky::read_val(env, v) is Some,
    ensures
        read_operand(m, convert_val_spec(v)) == tacky::read_val(env, v),
{
    if let tacky::ValModel::Var(x) = v {
        assert(env.contains_key(x));
    }
}

proof fn lemma_pass1(body: Seq<tacky::InstructionModel>, env: tacky::Env, m: Memory)
    requires
        env_agrees(env, m),
        tacky::run_body(body, env) is Some,
    ensures
        run_instructions(convert_body(body), m) == tacky::run_body(body, env),
    decreases body.len(),
{
    lemma_convert_body_cons(body);
    let rest = convert_body(body.drop_first());
    let out = convert_body(body);
    match body[0] {
        tacky::InstructionModel::Return(v) => {
            lemma_read_converted(env, m, v);
            let r = tacky::read_val(env, v).unwrap();
            let m1 = m.insert(Location::Reg(Reg::RV), r);
            assert(out[0] == InstructionModel::Mov(convert_val_spec(v), OperandModel::Reg(Reg::RV)));
            assert(exec_step(out[0], m) == Some(m1));
            assert(out.drop_first()[0] == InstructionModel::Ret);
            assert(run_instructions(out.drop_first(), m1) == Some(r));
            assert(run_instructions(out, m) == run_instructions(out.drop_first(), m1));
        },
        tacky::InstructionModel::Unary(op, src, dst) => {
            let d = dst->Var_0;
            lemma_read_converted(env, m, src);
            let x = tacky::read_val(env, src).unwrap();
            let env2 = env.insert(d, tacky::apply_unop(op, x));
            let m1 = m.insert(Location::Pseudo(d), x);
            let m2 = m1.insert(Location::Pseudo(d), tacky::apply_unop(op, x));
            assert(exec_step(out[0], m) == Some(m1));
            assert(out.drop_first()[0] == InstructionModel::Unary(convert_unop_spec(op), OperandModel::Pseudo(d)));
            assert(assembly::apply_unop(convert_unop_spec(op), x) == tacky::apply_unop(op, x));
            assert(exec_step(out.drop_first()[0], m1) == Some(m2));
            assert(out.drop_first().drop_first() =~= rest);
            assert(env_agrees(env2, m2));
            lemma_pass1(body.drop_first(), env2, m2);
            assert(run_instructions(out.drop_first(), m1) == run_instructions(rest, m2));
            assert(run_instructions(out, m) == run_instructions(out.drop_first(), m1));
        },
    }
}

// ---------------------------------------------------------------------------
// Pass 2

/// An operand that is not a stack slot and not the scratch register.
pub open spec fn operand_plain(o: OperandModel) -> bool {
    !(o is Stack) && o != OperandModel::Reg(Reg::Scratch1)
}

/// An instruction over immediates, the return register and
/// pseudo-registers only.
pub open spec fn instruction_plain(i: InstructionModel) -> bool {
    match i {
        InstructionModel::Mov(a, b) => operand_plain(a) && operand_plain(b),
        InstructionModel::Unary(_, a) => operand_plain(a),
        _ => true,
    }
}

/// The stack slot of pseudo-register `x`.
pub open spec fn slot_location(names: Seq<Seq<char>>, x: Seq<char>) -> Location {
    Location::Stack(slot_offset(names, x) as i64)
}

/// Registers hold the same values, and each pseudo-register's value is in
/// its stack slot.
pub open spec fn memory_replaced(names: Seq<Seq<char>>, m: Memory, m2: Memory) -> bool {
    &&& forall|r: Reg|
        #![trigger m.contains_key(Location::Reg(r))]
        m.contains_key(Location::Reg(r)) ==> m2.contains_key(Location::Reg(r)) && m2[Location::Reg(r)]
            == m[Location::Reg(r)]
    &&& forall|x: Seq<char>|
        #![trigger m.contains_key(Location::Pseudo(x))]
        names.contains(x) && m.contains_key(Location::Pseudo(x)) ==> m2.contains_key(
            slot_location(names, x),
        ) && m2[slot_location(names, x)] == m[Location::Pseudo(x)]
}

proof fn lemma_slot_range(names: Seq<Seq<char>>, x: Seq<char>)
    requires
        names.contains(x),
        names.len() < 0x2000_0000_0000_0000,
    ensures
        0 <= slot_index(names, x) < names.len(),
        names[slot_index(names, x)] == x,
        slot_offset(names, x) as i64 == slot_offset(names, x),
{
    lemma_prefix_refl(names);
    lemma_slot_index_prefix(names, names, x);
}

proof fn lemma_prefix_refl(a: Seq<Seq<char>>)
    ensures
        is_prefix(a, a),
{
    assert(a.take(a.len() as int) =~= a);
}

/// Distinct pseudo-registers get distinct stack slots.
proof fn lemma_slots_distinct(names: Seq<Seq<char>>, x: Seq<char>, y: Seq<char>)
    requires
        names.contains(x),
        names.contains(y),
        x != y,
        names.len() < 0x2000_0000_0000_0000,
    ensures
        slot_location(names, x) != slot_location(names, y),
{
    lemma_slot_range(names, x);
    lemma_slot_range(names, y);
}

proof fn lemma_read_replaced(names: Seq<Seq<char>>, m: Memory, m2: Memory, o: OperandModel)
    requires
        memory_replaced(names, m, m2),
        operand_plain(o),
        o matches OperandModel::Pseudo(x) ==> names.contains(x),
        read_operand(m, o) is Some,
    ensures
        read_operand(m2, replace_operand_spec(names, o)) == read_operand(m, o),
{
    match o {
        OperandModel::Reg(r) => {
            assert(m.contains_key(Location::Reg(r)));
        },
        OperandModel::Pseudo(x) => {
            assert(m.contains_key(Location::Pseudo(x)));
        },
        _ => {},
    }
}

proof fn lemma_write_replaced(names: Seq<Seq<char>>, m: Memory, m2: Memory, o: OperandModel, v: int)
    requires
        memory_replaced(names, m, m2),
        no_dup(names),
        names.len() < 0x2000_0000_0000_0000,
        operand_plain(o),
        o matches OperandModel::Pseudo(x) ==> names.contains(x),
        location_of(o) is Some,
    ensures
        location_of(replace_operand_spec(names, o)) is Some,
        memory_replaced(
            names,
            m.insert(location_of(o).unwrap(), v),
            m2.insert(location_of(replace_operand_spec(names, o)).unwrap(), v),
        ),
{
    let l = location_of(o).unwrap();
    let l2 = location_of(replace_operand_spec(names, o)).unwrap();
    let n1 = m.insert(l, v);
    let n2 = m2.insert(l2, v);
    assert forall|r: Reg| #![trigger n1.contains_key(Location::Reg(r))] n1.contains_key(Location::Reg(r))
        implies n2.contains_key(Location::Reg(r)) && n2[Location::Reg(r)] == n1[Location::Reg(r)] by {
        if l != Location::Reg(r) {
            assert(m.contains_key(Location::Reg(r)));
        }
    }
    assert forall|x: Seq<char>| #![trigger n1.contains_key(Location::Pseudo(x))] names.contains(x)
        && n1.contains_key(Location::Pseudo(x)) implies n2.contains_key(slot_location(names, x))
        && n2[slot_location(names, x)] == n1[Location::Pseudo(x)] by {
        if l == Location::Pseudo(x) {
        } else {
            assert(m.contains_key(Location::Pseudo(x)));
            if let OperandModel::Pseudo(y) = o {
                lemma_slots_distinct(names, x, y);
            }
        }
    }
}

proof fn lemma_step_replaced(names: Seq<Seq<char>>, m: Memory, m2: Memory, i: InstructionModel)
    requires
        memory_replaced(names, m, m2),
        no_dup(names),
        names.len() < 0x2000_0000_0000_0000,
        instruction_plain(i),
        pseudos_in(i, names),
        exec_step(i, m) is Some,
    ensures
        exec_step(replace_instruction_spec(names, i), m2) is Some,
        memory_replaced(
            names,
            exec_step(i, m).unwrap(),
            exec_step(replace_instruction_spec(names, i), m2).unwrap(),
        ),
{
    match i {
        InstructionModel::Mov(a, b) => {
            lemma_read_replaced(names, m, m2, a);
            let v = read_operand(m, a).unwrap();
            lemma_write_replaced(names, m, m2, b, v);
        },
        InstructionModel::Unary(op, a) => {
            lemma_read_replaced(names, m, m2, a);
            let v = read_operand(m, a).unwrap();
            lemma_write_replaced(names, m, m2, a, assembly::apply_unop(op, v));
        },
        _ => {},
    }
}

pub open spec fn replace_all(names: Seq<Seq<char>>, is: Seq<InstructionModel>) -> Seq<InstructionModel> {
    is.map_values(|i: InstructionModel| replace_instruction_spec(names, i))
}

proof fn lemma_pass2(names: Seq<Seq<char>>, is: Seq<InstructionModel>, m: Memory, m2: Memory)
    requires
        memory_replaced(names, m, m2),
        no_dup(names),
        names.len() < 0x2000_0000_0000_0000,
        forall|k: int| 0 <= k < is.len() ==> instruction_plain(#[trigger] is[k]) && pseudos_in(is[k], names),
        run_instructions(is, m) is Some,
    ensures
        run_instructions(replace_all(names, is), m2) == run_instructions(is, m),
    decreases is.len(),
{
    let out = replace_all(names, is);
    assert(out[0] == replace_instruction_spec(names, is[0]));
    if is[0] is Ret {
        lemma_read_replaced(names, m, m2, OperandModel::Reg(Reg::RV));
    } else {
        assert(instruction_plain(is[0]) && pseudos_in(is[0], names));
        lemma_step_replaced(names, m, m2, is[0]);
        let n1 = exec_step(is[0], m).unwrap();
        let n2 = exec_step(out[0], m2).unwrap();
        assert(out.drop_first() =~= replace_all(names, is.drop_first()));
        assert forall|k: int| 0 <= k < is.drop_first().len() implies instruction_plain(
            #[trigger] is.drop_first()[k],
        ) && pseudos_in(is.drop_first()[k], names) by {
            assert(is.drop_first()[k] == is[k + 1]);
        }
        lemma_pass2(names, is.drop_first(), n1, n2);
    }
}

// ---------------------------------------------------------------------------
// Pass 3

/// The operand is not the scratch register.
pub open spec fn operand_not_scratch(o: OperandModel) -> bool {
    o != OperandModel::Reg(Reg::Scratch1)
}

pub open spec fn instruction_not_scratch(i: InstructionModel) -> bool {
    match i {
        InstructionModel::Mov(a, b) => operand_not_scratch(a) && operand_not_scratch(b),
        InstructionModel::Unary(_, a) => operand_not_scratch(a),
        _ => true,
    }
}

/// Every place but the scratch register holds the same value.
pub open spec fn agrees_but_scratch(m: Memory, m2: Memory) -> bool {
    forall|l: Location|
        #![trigger m.contains_key(l)]
        l != Location::Reg(Reg::Scratch1) && m.contains_key(l) ==> m2.contains_key(l) && m2[l] == m[l]
}

proof fn lemma_fix_body_cons(is: Seq<InstructionModel>)
    requires
        is.len() > 0,
    ensures
        fix_body(is) == fix_instruction_spec(is[0]) + fix_body(is.drop_first()),
    decreases is.len(),
{
    if is.len() == 1 {
        assert(is.drop_last() =~= Seq::<InstructionModel>::empty());
        assert(is.drop_first() =~= Seq::<InstructionModel>::empty());
        assert(fix_body(is) =~= fix_instruction_spec(is[0]) + fix_body(is.drop_first()));
    } else {
        lemma_fix_body_cons(is.drop_last());
        assert(is.drop_last().drop_first() =~= is.drop_first().drop_last());
        assert(is.drop_first().last() == is.last());
        assert(is.drop_last()[0] == is[0]);
        assert(fix_body(is) =~= fix_instruction_spec(is[0]) + fix_body(is.drop_first()));
    }
}

proof fn lemma_read_agrees(m: Memory, m2: Memory, o: OperandModel)
    requires
        agrees_but_scratch(m, m2),
        operand_not_scratch(o),
        read_operand(m, o) is Some,
    ensures
        read_operand(m2, o) == read_operand(m, o),
{
    if !(o is Imm) {
        assert(m.contains_key(location_of(o).unwrap()));
    }
}

proof fn lemma_write_agrees(m: Memory, m2: Memory, l: Location, v: int)
    requires
        agrees_but_scratch(m, m2),
    ensures
        agrees_but_scratch(m.insert(l, v), m2.insert(l, v)),
{
    assert forall|x: Location| #![trigger m.insert(l, v).contains_key(x)] x != Location::Reg(Reg::Scratch1)
        && m.insert(l, v).contains_key(x) implies m2.insert(l, v).contains_key(x) && m2.insert(l, v)[x]
        == m.insert(l, v)[x] by {
        if x != l {
            assert(m.contains_key(x));
        }
    }
}

proof fn lemma_pass3(is: Seq<InstructionModel>, m: Memory, m2: Memory)
    requires
        agrees_but_scratch(m, m2),
        forall|k: int| 0 <= k < is.len() ==> instruction_not_scratch(#[trigger] is[k]),
        run_instructions(is, m) is Some,
    ensures
        run_instructions(fix_body(is), m2) == run_instructions(is, m),
    decreases is.len(),
{
    lemma_fix_body_cons(is);
    let head = fix_instruction_spec(is[0]);
    let rest = fix_body(is.drop_first());
    let out = fix_body(is);
    assert(instruction_not_scratch(is[0]));
    assert forall|k: int| 0 <= k < is.drop_first().len() implies instruction_not_scratch(
        #[trigger] is.drop_first()[k],
    ) by {
        assert(is.drop_first()[k] == is[k + 1]);
    }
    if is[0] is Ret {
        assert(out[0] == is[0]);
        lemma_read_agrees(m, m2, OperandModel::Reg(Reg::RV));
    } else {
        let n1 = exec_step(is[0], m).unwrap();
        match is[0] {
            InstructionModel::Mov(OperandModel::Stack(a), OperandModel::Stack(b)) => {
                lemma_read_agrees(m, m2, OperandModel::Stack(a));
                let v = read_operand(m, OperandModel::Stack(a)).unwrap();
                let s = Location::Reg(Reg::Scratch1);
                let k1 = m2.insert(s, v);
                let k2 = k1.insert(Location::Stack(b), v);
                assert(out[0] == head[0]);
                assert(exec_step(out[0], m2) == Some(k1));
                assert(out.drop_first()[0] == head[1]);
                assert(exec_step(out.drop_first()[0], k1) == Some(k2));
                assert(agrees_but_scratch(n1, k2)) by {
                    assert forall|x: Location| #![trigger n1.contains_key(x)] x != s && n1.contains_key(
                        x,
                    ) implies k2.contains_key(x) && k2[x] == n1[x] by {
                        if x != Location::Stack(b) {
                            assert(m.contains_key(x));
                        }
                    }
                }
                assert(out.drop_first().drop_first() =~= rest);
                lemma_pass3(is.drop_first(), n1, k2);
                assert(run_instructions(out.drop_first(), k1) == run_instructions(rest, k2));
            },
            InstructionModel::Mov(a, b) => {
                lemma_read_agrees(m, m2, a);
                lemma_write_agrees(m, m2, location_of(b).unwrap(), read_operand(m, a).unwrap());
                assert(out[0] == is[0]);
                assert(out.drop_first() =~= rest);
                lemma_pass3(is.drop_first(), n1, exec_step(is[0], m2).unwrap());
            },
            InstructionModel::Unary(op, a) => {
                lemma_read_agrees(m, m2, a);
                lemma_write_agrees(
                    m,
                    m2,
                    location_of(a).unwrap(),
                    assembly::apply_unop(op, read_operand(m, a).unwrap()),
                );
                assert(out[0] == is[0]);
                assert(out.drop_first() =~= rest);
                lemma_pass3(is.drop_first(), n1, exec_step(is[0], m2).unwrap());
            },
            _ => {
                assert(out[0] == is[0]);
                assert(out.drop_first() =~= rest);
                lemma_pass3(is.drop_first(), n1, m2);
            },
        }
    }
}

// ---------------------------------------------------------------------------
// The passes together

proof fn lemma_convert_body_plain(body: Seq<tacky::InstructionModel>)
    ensures
        forall|k: int|
            0 <= k < convert_body(body).len() ==> instruction_plain(#[trigger] convert_body(body)[k]),
    decreases body.len(),
{
    if body.len() > 0 {
        lemma_convert_body_plain(body.drop_last());
        let a = convert_body(body.drop_last());
        let b = convert_instruction_spec(body.last());
        assert forall|k: int| 0 <= k < (a + b).len() implies instruction_plain(#[trigger] (a + b)[k]) by {
            if k >= a.len() {
                assert((a + b)[k] == b[k - a.len()]);
            }
        }
    }
}

proof fn lemma_pseudo_order_covers(names: Seq<Seq<char>>, is: Seq<InstructionModel>)
    requires
        no_dup(names),
    ensures
        forall|k: int| 0 <= k < is.len() ==> pseudos_in(#[trigger] is[k], pseudo_order_from(names, is)),
    decreases is.len(),
{
    if is.len() > 0 {
        let init = is.drop_last();
        lemma_pseudo_order_covers(names, init);
        lemma_pseudo_order_len(names, init);
        let before = pseudo_order_from(names, init);
        lemma_note_instruction(before, is.last());
        assert forall|k: int| 0 <= k < is.len() implies pseudos_in(
            #[trigger] is[k],
            pseudo_order_from(names, is),
        ) by {
            if k < is.len() - 1 {
                assert(init[k] == is[k]);
                lemma_pseudos_in_prefix(is[k], before, pseudo_order_from(names, is));
            }
        }
    }
}

/// Assembly generation preserves meaning: whenever a TACKY program returns
/// a value, the generated assembly returns the same value.
pub proof fn law_codegen_preserves_value(p: tacky::ProgramModel)
    requires
        p->Program_0.body.len() < max_instructions() / 2,
        tacky::run_program(p) is Some,
    ensures
        assembly::run_program(codegen_spec(p)) == tacky::run_program(p),
{
    let f = p->Program_0;
    let conv = convert_body(f.body);
    let empty_env: tacky::Env = Map::empty();
    let empty: Memory = Map::empty();
    lemma_pass1(f.body, empty_env, empty);
    lemma_convert_body_len(f.body);
    let names = pseudo_order(conv);
    lemma_pseudo_order_len(seq![], conv);
    lemma_convert_body_plain(f.body);
    lemma_pseudo_order_covers(seq![], conv);
    assert(forall|k: int| 0 <= k < conv.len() ==> instruction_plain(#[trigger] conv[k]) && pseudos_in(
        conv[k],
        names,
    ));
    lemma_pass2(names, conv, empty, empty);
    let replaced = replace_body(conv);
    assert(replaced =~= replace_all(names, conv));
    assert forall|k: int| 0 <= k < replaced.len() implies instruction_not_scratch(#[trigger] replaced[k]) by {
        assert(instruction_plain(conv[k]));
    }
    lemma_pass3(replaced, empty, empty);
    let size = stack_size_spec(conv) as i64;
    let out = fix_instructions_spec(replaced, size);
    if size > 0 {
        assert(out.drop_first() =~= fix_body(replaced));
        assert(run_instructions(out, empty) == run_instructions(fix_body(replaced), empty));
    }
}

/// Compiling preserves meaning end to end: the assembly generated for a
/// source program returns the value of the program's expression.
pub proof fn law_compile_preserves_value(p: crate::ast::ProgramModel, c: usize)
    requires
        tacky::tacky_program(p, c)->Program_0.body.len() < max_instructions() / 2,
    ensures
        assembly::run_program(codegen_spec(tacky::tacky_program(p, c))) == Some(crate::ast::eval_program(p)),
{
    tacky::law_tacky_preserves_value(p, c);
    law_codegen_preserves_value(tacky::tacky_program(p, c));
}

/// Each pseudo-register of a function gets a stack slot of its own inside
/// the allocated frame: offsets are multiples of 4 between `-stack_size`
/// and `-4`, and different pseudo-registers get different offsets.
pub proof fn law_stack_slots_are_distinct(is: Seq<InstructionModel>, x: Seq<char>, y: Seq<char>)
    requires
        is.len() < max_instructions(),
        pseudo_order(is).contains(x),
        pseudo_order(is).contains(y),
    ensures
        -stack_size_spec(is) <= slot_offset(pseudo_order(is), x) <= -4,
        slot_offset(pseudo_order(is), x) % 4 == 0,
        x != y ==> slot_offset(pseudo_order(is), x) != slot_offset(pseudo_order(is), y),
        forall|k: int| 0 <= k < is.len() ==> pseudos_in(#[trigger] is[k], pseudo_order(is)),
{
    let names = pseudo_order(is);
    lemma_pseudo_order_len(seq![], is);
    lemma_pseudo_order_covers(seq![], is);
    lemma_slot_range(names, x);
    lemma_slot_range(names, y);
}

/// Compiling keeps the function's name end to end: the generated assembly
/// function is named as the source function, and its x86-64 and ARM64 text
/// exports and labels it under the target's symbol for that name.
pub proof fn law_compile_keeps_function_name(p: crate::ast::ProgramModel, c: usize, os: crate::emit::TargetOs)
    ensures
        codegen_spec(tacky::tacky_program(p, c))->Program_0.name == p->Program_0.name,
        crate::emit::label_lines(crate::emit::target_symbol(p->Program_0.name, os)).is_prefix_of(
            crate::emit_x86_64::program_text(codegen_spec(tacky::tacky_program(p, c)), os),
        ),
        crate::emit::label_lines(crate::emit::target_symbol(p->Program_0.name, os)).is_prefix_of(
            crate::emit_arm64::program_text(codegen_spec(tacky::tacky_program(p, c)), os),
        ),
{
    tacky::law_lowering_keeps_function_name(p, c);
    crate::codegen::law_codegen_keeps_function_name(tacky::tacky_program(p, c));
    crate::emit_x86_64::law_label_is_target_symbol(codegen_spec(tacky::tacky_program(p, c)), os);
    crate::emit_arm64::law_label_is_target_symbol(codegen_spec(tacky::tacky_program(p, c)), os);
}

} // verus!
