use c_compiler::assembly_ast;
use c_compiler::ast;
use c_compiler::codegen;
use c_compiler::emit::{self, TargetOs};
use c_compiler::emit_arm64;
use c_compiler::emit_x86_64;
use c_compiler::lexer::lex;
use c_compiler::parser::parse;
use c_compiler::tacky;

fn ast_of(text: &str) -> ast::Program {
    parse(&lex(text).unwrap()).unwrap()
}

fn tacky_of(text: &str) -> tacky::Program {
    tacky::gen_program(ast_of(text), &mut 0)
}

fn asm_of(text: &str) -> assembly_ast::Program {
    codegen::gen_program(tacky_of(text))
}

#[test]
fn tacky_for_constant() {
    assert_eq!(
        tacky_of("int main(void) { return 2; }").to_text(),
        "Program(\n    Function(\n        name: \"main\"\n        body:\n        Return(Constant(2))\n    )\n)"
    );
}

#[test]
fn tacky_numbers_temporaries_in_order() {
    assert_eq!(
        tacky_of("int main(void) { return ~(-8); }").to_text(),
        "Program(\n    Function(\n        name: \"main\"\n        body:\n        Unary(Negate, Constant(8), Var(\"tmp.0\"))\n        Unary(Complement, Var(\"tmp.0\"), Var(\"tmp.1\"))\n        Return(Var(\"tmp.1\"))\n    )\n)"
    );
}

#[test]
fn codegen_for_constant_has_no_stack() {
    assert_eq!(
        asm_of("int main(void) { return 2; }").to_text(),
        "Program(\n    Function(\n        name: \"main\"\n        instructions:\n        Mov(Imm(2), Reg(RV))\n        Ret\n    )\n)"
    );
}

#[test]
fn codegen_assigns_stack_slots_and_splits_moves() {
    assert_eq!(
        asm_of("int main(void) { return ~(-8); }").to_text(),
        "Program(\n    Function(\n        name: \"main\"\n        instructions:\n        AllocateStack(8)\n        Mov(Imm(8), Stack(-4))\n        Unary(Neg, Stack(-4))\n        Mov(Stack(-4), Reg(Scratch1))\n        Mov(Reg(Scratch1), Stack(-8))\n        Unary(Not, Stack(-8))\n        Mov(Stack(-8), Reg(RV))\n        Ret\n    )\n)"
    );
}

#[test]
fn emit_x86_64_text() {
    let mut out = String::new();
    emit_x86_64::emit_program(&mut out, &asm_of("int main(void) { return -3; }"), TargetOs::Linux);
    assert_eq!(
        out,
        "\t.globl main\nmain:\n\tpushq %rbp\n\tmovq %rsp, %rbp\n\tsubq $4, %rsp\n\tmovl $3, -4(%rbp)\n\tnegl -4(%rbp)\n\tmovl -4(%rbp), %eax\n\tmovq %rbp, %rsp\n\tpopq %rbp\n\tret\n\t.section .note.GNU-stack,\"\",@progbits\n"
    );
}

#[test]
fn emit_x86_64_on_macos_mangles_and_has_no_note() {
    let mut out = String::new();
    emit_x86_64::emit_program(&mut out, &asm_of("int main(void) { return 2; }"), TargetOs::MacOs);
    assert_eq!(
        out,
        "\t.globl _main\n_main:\n\tpushq %rbp\n\tmovq %rsp, %rbp\n\tmovl $2, %eax\n\tmovq %rbp, %rsp\n\tpopq %rbp\n\tret\n"
    );
}

#[test]
fn emit_arm64_text() {
    let mut out = String::new();
    emit_arm64::emit_program(&mut out, &asm_of("int main(void) { return ~7; }"), TargetOs::Other);
    assert_eq!(
        out,
        "\t.globl main\nmain:\n\tstp x29, x30, [sp, #-16]!\n\tmov x29, sp\n\tsub sp, sp, #4\n\tmov [x29, #-4], #7\n\tmvn [x29, #-4], [x29, #-4]\n\tmov w0, [x29, #-4]\n\tmov sp, x29\n\tldp x29, x30, [sp], #16\n\tret\n"
    );
}

#[test]
fn emit_basic_text() {
    let mut out = String::new();
    emit::emit_program(&mut out, &asm_of("int main(void) { return 42; }"), TargetOs::Linux);
    assert_eq!(
        out,
        "\t.globl main\nmain:\n\tmovl $42, %eax\n\tret\n\t.section .note.GNU-stack,\"\",@progbits\n"
    );
}

#[test]
fn emit_negative_immediate() {
    let p = assembly_ast::Program::Program(assembly_ast::Function {
        name: "f".to_string(),
        instructions: vec![
            assembly_ast::Instruction::Mov(
                assembly_ast::Operand::Imm(-9223372036854775808),
                assembly_ast::Operand::Reg(assembly_ast::Reg::RV),
            ),
            assembly_ast::Instruction::Ret,
        ],
    });
    let mut out = String::new();
    emit::emit_program(&mut out, &p, TargetOs::Other);
    assert_eq!(out, "\t.globl f\nf:\n\tmovl $-9223372036854775808, %eax\n\tret\n");
}

#[test]
fn mangle_prefixes_underscore_on_macos_only() {
    assert_eq!(emit::mangle(&"main".to_string(), TargetOs::MacOs), "_main");
    assert_eq!(emit::mangle(&"main".to_string(), TargetOs::Linux), "main");
}

#[test]
fn printing_indents_every_line() {
    let p = ast_of("int main(void) { return 1; }");
    let text = p.to_text();
    for line in text.lines().skip(1) {
        if line != ")" {
            assert!(line.starts_with("    "), "line {:?}", line);
        }
    }
}

#[test]
fn names_are_printed_with_debug_quoting() {
    let f = ast::Function {
        name: "a\"b".to_string(),
        body: ast::Statement::Return(ast::Exp::Constant(1)),
    };
    assert_eq!(f.to_text(), "Function(\n    name: \"a\\\"b\"\n    body: Return(Constant(1))\n)");
}
