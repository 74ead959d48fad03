use c_compiler::assembly_ast::{self, Instruction, Operand, Reg, UnaryOperator};
use c_compiler::codegen;
use c_compiler::lexer::{lex, Token};
use c_compiler::parser::parse;
use c_compiler::tacky;
use std::collections::HashMap;

/// Runs assembly the way the target does, on 32-bit values.
fn run_assembly(p: &assembly_ast::Program) -> Option<i32> {
    let assembly_ast::Program::Program(f) = p;
    let mut regs: HashMap<&'static str, i32> = HashMap::new();
    let mut stack: HashMap<i64, i32> = HashMap::new();
    let read = |o: &Operand, regs: &HashMap<&'static str, i32>, stack: &HashMap<i64, i32>| -> Option<i32> {
        match o {
            Operand::Imm(n) => Some(*n as i32),
            Operand::Reg(Reg::RV) => regs.get("rv").copied(),
            Operand::Reg(Reg::Scratch1) => regs.get("scratch").copied(),
            Operand::Stack(n) => stack.get(n).copied(),
            Operand::Pseudo(_) => None,
        }
    };
    for i in &f.instructions {
        match i {
            Instruction::Mov(a, b) => {
                let v = read(a, &regs, &stack)?;
                match b {
                    Operand::Reg(Reg::RV) => {
                        regs.insert("rv", v);
                    }
                    Operand::Reg(Reg::Scratch1) => {
                        regs.insert("scratch", v);
                    }
                    Operand::Stack(n) => {
                        stack.insert(*n, v);
                    }
                    _ => return None,
                }
            }
            Instruction::Unary(op, a) => {
                let v = read(a, &regs, &stack)?;
                let r = match op {
                    UnaryOperator::Neg => v.wrapping_neg(),
                    UnaryOperator::Not => !v,
                };
                match a {
                    Operand::Stack(n) => {
                        stack.insert(*n, r);
                    }
                    _ => return None,
                }
            }
            Instruction::AllocateStack(_) => {}
            Instruction::Ret => return regs.get("rv").copied(),
        }
    }
    None
}

fn compile(text: &str) -> assembly_ast::Program {
    codegen::gen_program(tacky::gen_program(parse(&lex(text).unwrap()).unwrap(), &mut 0))
}

#[test]
fn compiled_programs_return_the_value_of_their_expression() {
    let cases: [(&str, i32); 6] = [
        ("int main(void) { return 2; }", 2),
        ("int main(void) { return -2; }", -2),
        ("int main(void) { return ~2; }", -3),
        ("int main(void) { return -(~(-(7))); }", -6),
        ("int main(void) { return ~(-(~(-(~0)))); }", -3),
        ("int main(void) { return -2147483648; }", i32::MIN),
    ];
    for (text, expected) in cases.iter() {
        assert_eq!(run_assembly(&compile(text)), Some(*expected), "{}", text);
    }
}

#[test]
fn generated_assembly_has_no_pseudo_registers_or_memory_to_memory_moves() {
    let p = compile("int main(void) { return ~(-(~(-(~(-1))))); }");
    assert!(assembly_ast::is_final_program(&p));
    let assembly_ast::Program::Program(f) = &p;
    for i in &f.instructions {
        assert!(!matches!(i, Instruction::Mov(Operand::Stack(_), Operand::Stack(_))));
    }
}

#[test]
fn stack_slots_are_distinct_and_inside_the_frame() {
    let p = compile("int main(void) { return -(-(-(-5))); }");
    let assembly_ast::Program::Program(f) = &p;
    let size = match f.instructions[0] {
        Instruction::AllocateStack(n) => n,
        _ => panic!("no stack allocation"),
    };
    assert_eq!(size, 16);
    let mut written: Vec<i64> = Vec::new();
    for i in &f.instructions {
        if let Instruction::Unary(_, Operand::Stack(n)) = i {
            assert!(-size <= *n && *n <= -4 && *n % 4 == 0);
            assert!(!written.contains(n));
            written.push(*n);
        }
    }
    assert_eq!(written, vec![-4, -8, -12, -16]);
}

#[test]
fn temporaries_are_fresh() {
    let p = tacky::gen_program(parse(&lex("int main(void) { return -~-~9; }").unwrap()).unwrap(), &mut 0);
    let tacky::Program::Program(f) = &p;
    let mut names = Vec::new();
    for i in &f.body {
        if let tacky::Instruction::Unary(_, _, tacky::Val::Var(d)) = i {
            names.push(d.clone());
        }
    }
    assert_eq!(names, vec!["tmp.0", "tmp.1", "tmp.2", "tmp.3"]);
}

#[test]
fn identifiers_never_spell_keywords() {
    let tokens = lex("int void return intx voidy returnz _int").unwrap();
    assert_eq!(
        tokens,
        vec![
            Token::Int,
            Token::Void,
            Token::Return,
            Token::Identifier("intx".to_string()),
            Token::Identifier("voidy".to_string()),
            Token::Identifier("returnz".to_string()),
            Token::Identifier("_int".to_string()),
        ]
    );
}

#[test]
fn spelled_tokens_lex_back() {
    let tokens = vec![
        Token::Int,
        Token::Identifier("main".to_string()),
        Token::OpenParen,
        Token::Void,
        Token::CloseParen,
        Token::OpenBrace,
        Token::Return,
        Token::Hyphen,
        Token::Hyphen,
        Token::DoubleHyphen,
        Token::Tilde,
        Token::Constant(0),
        Token::Constant(12),
        Token::Semicolon,
        Token::CloseBrace,
    ];
    let text = "int main ( void ) { return - - -- ~ 0 12 ; } ";
    assert_eq!(lex(text).unwrap(), tokens);
}

#[test]
fn source_text_of_a_program_lexes_and_parses_back() {
    let text = "int f ( void ) { return ~ - 3 ; } ";
    assert_eq!(
        parse(&lex(text).unwrap()).unwrap().to_text(),
        "Program(\n    Function(\n        name: \"f\"\n        body: Return(Unary(Complement, Unary(Negate, Constant(3))))\n    )\n)"
    );
}

#[test]
fn parentheses_only_group() {
    let a = parse(&lex("int f(void) { return ((~((2)))); }").unwrap()).unwrap().to_text();
    let b = parse(&lex("int f(void) { return ~2; }").unwrap()).unwrap().to_text();
    assert_eq!(a, b);
}

#[test]
fn temporaries_continue_across_calls() {
    let mut counter: usize = 0;
    let text = "int f(void) { return ~(-8); }";
    let first = tacky::gen_program(parse(&lex(text).unwrap()).unwrap(), &mut counter);
    assert_eq!(counter, 2);
    let second = tacky::gen_program(parse(&lex(text).unwrap()).unwrap(), &mut counter);
    assert_eq!(counter, 4);
    let first_text = first.to_text();
    let second_text = second.to_text();
    assert!(first_text.contains("Var(\"tmp.0\")") && first_text.contains("Var(\"tmp.1\")"));
    assert!(second_text.contains("Var(\"tmp.2\")") && second_text.contains("Var(\"tmp.3\")"));
    assert!(!second_text.contains("tmp.0"));
}

#[test]
fn counter_wraps_around_at_its_maximum() {
    let mut counter: usize = usize::MAX;
    let p = tacky::gen_program(parse(&lex("int f(void) { return -~1; }").unwrap()).unwrap(), &mut counter);
    assert_eq!(counter, 1);
    let text = p.to_text();
    assert!(text.contains(&format!("Var(\"tmp.{}\")", usize::MAX)));
    assert!(text.contains("Var(\"tmp.0\")"));
}

#[test]
fn surrounding_whitespace_is_ignored() {
    let s = "int main(void) { return ~1; }";
    let padded = format!(" \t\n{}\u{3000} \r", s);
    assert_eq!(lex(&padded).unwrap(), lex(s).unwrap());
    assert_eq!(lex("\u{a0}  ").unwrap(), lex("").unwrap());
    assert_eq!(lex("  @ x").unwrap_err().to_text(), lex("@ x").unwrap_err().to_text());
}

#[test]
fn texts_joined_by_a_space_lex_to_both_token_lists() {
    let a = "int main(void)";
    let b = "{ return -2; }";
    let mut expected = lex(a).unwrap();
    expected.extend(lex(b).unwrap());
    assert_eq!(lex(&format!("{} {}", a, b)).unwrap(), expected);
    assert_eq!(lex("- -").unwrap(), vec![Token::Hyphen, Token::Hyphen]);
    assert_eq!(lex("return 2").unwrap(), vec![Token::Return, Token::Constant(2)]);
    assert!(lex("return2").unwrap() == vec![Token::Identifier("return2".to_string())]);
}

fn spell(t: &Token) -> String {
    match t {
        Token::Int => "int".to_string(),
        Token::Void => "void".to_string(),
        Token::Return => "return".to_string(),
        Token::Identifier(n) => n.clone(),
        Token::Constant(k) => k.to_string(),
        Token::OpenParen => "(".to_string(),
        Token::CloseParen => ")".to_string(),
        Token::OpenBrace => "{".to_string(),
        Token::CloseBrace => "}".to_string(),
        Token::Semicolon => ";".to_string(),
        Token::Tilde => "~".to_string(),
        Token::Hyphen => "-".to_string(),
        Token::DoubleHyphen => "--".to_string(),
    }
}

#[test]
fn tokens_joined_by_single_spaces_lex_back() {
    let tokens = lex("int main(void){return --~(-12);}").unwrap();
    let text = tokens.iter().map(spell).collect::<Vec<String>>().join(" ");
    assert_eq!(text, "int main ( void ) { return -- ~ ( - 12 ) ; }");
    assert_eq!(lex(&text).unwrap(), tokens);
}

#[test]
fn no_proper_prefix_or_extension_of_a_program_parses() {
    let source = "int main(void) { return -(2); }";
    let tokens = lex(source).unwrap();
    assert!(parse(&tokens).is_ok());
    for k in 0..tokens.len() {
        assert!(parse(&tokens[..k]).is_err());
    }
    let extras = "int ; ) -- x 3";
    let count = lex(extras).unwrap().len();
    for j in 0..count {
        let mut longer = lex(source).unwrap();
        let extra = lex(extras).unwrap().remove(j);
        let expected = lex(extras).unwrap().remove(j);
        longer.push(extra);
        match parse(&longer).unwrap_err().0 {
            c_compiler::parser::ParseFailure::TrailingToken(t) => assert_eq!(t, expected),
            other => panic!("unexpected failure {:?}", other),
        }
    }
}

#[test]
fn one_pseudo_register_keeps_one_slot() {
    let p = compile("int main(void) { return -5; }");
    let assembly_ast::Program::Program(f) = &p;
    assert!(matches!(f.instructions[0], Instruction::AllocateStack(4)));
    let mut offsets: Vec<i64> = Vec::new();
    for i in &f.instructions {
        match i {
            Instruction::Mov(a, b) => {
                for o in [a, b] {
                    if let Operand::Stack(n) = o {
                        offsets.push(*n);
                    }
                }
            }
            Instruction::Unary(_, Operand::Stack(n)) => offsets.push(*n),
            _ => {}
        }
    }
    assert!(offsets.len() >= 3);
    assert!(offsets.iter().all(|n| *n == -4));
}
