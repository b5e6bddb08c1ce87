use mona::codegen::{gen_x86, reg_name};
use mona::ir::{dump_ir, gen_ir, get_irinfo, num_string, IROp, IRType, IR};
use mona::parse::{Node, NodeType};
use mona::regalloc::alloc_regs;
use mona::token::{tokenize, TokenType};
use mona::CompileError;

#[test]
fn tokens_of_an_assignment() {
    let toks = tokenize("a = 1;".to_string()).unwrap();
    assert_eq!(toks.len(), 4);
    assert!(matches!(&toks[0].ty, TokenType::Ident(s) if s == "a"));
    assert!(matches!(toks[1].ty, TokenType::Equal));
    assert!(matches!(toks[2].ty, TokenType::Num(1)));
    assert!(matches!(toks[3].ty, TokenType::Semicolon));
}

#[test]
fn tokens_keep_the_source_text() {
    let toks = tokenize("a = 1;".to_string()).unwrap();
    for t in &toks {
        assert_eq!(t.input, "a = 1;");
    }
}

#[test]
fn keywords_and_identifiers_are_told_apart() {
    let toks = tokenize("return returnx if ifx else elsex".to_string()).unwrap();
    assert!(matches!(toks[0].ty, TokenType::Return));
    assert!(matches!(&toks[1].ty, TokenType::Ident(s) if s == "returnx"));
    assert!(matches!(toks[2].ty, TokenType::If));
    assert!(matches!(&toks[3].ty, TokenType::Ident(s) if s == "ifx"));
    assert!(matches!(toks[4].ty, TokenType::Else));
    assert!(matches!(&toks[5].ty, TokenType::Ident(s) if s == "elsex"));
}

#[test]
fn identifiers_may_carry_digits() {
    let toks = tokenize("a1b2".to_string()).unwrap();
    assert_eq!(toks.len(), 1);
    assert!(matches!(&toks[0].ty, TokenType::Ident(s) if s == "a1b2"));
}

#[test]
fn all_punctuation_scans() {
    let toks = tokenize("+-*/;=()".to_string()).unwrap();
    assert!(matches!(toks[0].ty, TokenType::Plus));
    assert!(matches!(toks[1].ty, TokenType::Minus));
    assert!(matches!(toks[2].ty, TokenType::Mul));
    assert!(matches!(toks[3].ty, TokenType::Div));
    assert!(matches!(toks[4].ty, TokenType::Semicolon));
    assert!(matches!(toks[5].ty, TokenType::Equal));
    assert!(matches!(toks[6].ty, TokenType::LeftParen));
    assert!(matches!(toks[7].ty, TokenType::RightParen));
}

#[test]
fn whitespace_is_skipped() {
    let toks = tokenize("  1\t+\n2 \r;".to_string()).unwrap();
    assert_eq!(toks.len(), 4);
    assert!(matches!(toks[0].ty, TokenType::Num(1)));
}

#[test]
fn empty_input_scans_to_nothing() {
    assert!(tokenize(String::new()).unwrap().is_empty());
}

#[test]
fn largest_literal_fits() {
    let toks = tokenize("2147483647;".to_string()).unwrap();
    assert!(matches!(toks[0].ty, TokenType::Num(2147483647)));
    assert_eq!(
        tokenize("2147483648;".to_string()).unwrap_err(),
        CompileError::Lexical
    );
}

#[test]
fn leading_zeros_read_as_their_value() {
    let toks = tokenize("0000000042".to_string()).unwrap();
    assert!(matches!(toks[0].ty, TokenType::Num(42)));
}

#[test]
fn empty_program_parses_to_empty_compound() {
    let toks = tokenize(String::new()).unwrap();
    let node = Node::parse(&toks).unwrap();
    assert!(matches!(&node.ty, NodeType::CompStmt(v) if v.is_empty()));
}

#[test]
fn parse_shape_of_precedence() {
    let toks = tokenize("return 1+2*3;".to_string()).unwrap();
    let node = Node::parse(&toks).unwrap();
    let NodeType::CompStmt(stmts) = &node.ty else {
        panic!("expected a compound statement")
    };
    let NodeType::Return(e) = &stmts[0].ty else {
        panic!("expected a return")
    };
    // the sum is the root, the product its right operand
    let NodeType::BinOp(TokenType::Plus, l, r) = &e.ty else {
        panic!("expected a sum at the root")
    };
    assert!(matches!(l.ty, NodeType::Num(1)));
    assert!(matches!(&r.ty, NodeType::BinOp(TokenType::Mul, _, _)));
}

#[test]
fn parse_shape_of_conditional() {
    let toks = tokenize("if (1) return 2; else return 3;".to_string()).unwrap();
    let node = Node::parse(&toks).unwrap();
    let NodeType::CompStmt(stmts) = &node.ty else {
        panic!("expected a compound statement")
    };
    let NodeType::If(c, t, e) = &stmts[0].ty else {
        panic!("expected a conditional")
    };
    assert!(matches!(c.ty, NodeType::Num(1)));
    assert!(matches!(&t.ty, NodeType::Return(_)));
    assert!(e.is_some());
}

#[test]
fn dump_of_a_return_program() {
    let toks = tokenize("return 1;".to_string()).unwrap();
    let node = Node::parse(&toks).unwrap();
    let irv = gen_ir(&node).unwrap();
    assert_eq!(
        dump_ir(&irv),
        "ALLOCA r0, 0\nMOV r1, 1\nRET r1\nKILL r1\nKILL r0\n"
    );
}

#[test]
fn dump_after_allocation_shows_retired_kills() {
    let toks = tokenize("return 1;".to_string()).unwrap();
    let node = Node::parse(&toks).unwrap();
    let mut irv = gen_ir(&node).unwrap();
    alloc_regs(&mut irv).unwrap();
    assert_eq!(dump_ir(&irv), "ALLOCA r0, 0\nMOV r1, 1\nRET r1\nNOP\nNOP\n");
}

#[test]
fn irinfo_names_and_shapes() {
    let add = get_irinfo(&IR::new(IROp::Add, Some(1), Some(2)));
    assert_eq!(add.name, "+");
    assert_eq!(add.ty, IRType::RegReg);
    assert_eq!(add.op, IROp::Add);
    let kill = get_irinfo(&IR::new(IROp::Kill, Some(1), None));
    assert_eq!(kill.name, "KILL");
    assert_eq!(kill.ty, IRType::Reg);
    let label = get_irinfo(&IR::new(IROp::Label, Some(0), None));
    assert_eq!(label.ty, IRType::Label);
    let nop = get_irinfo(&IR::new(IROp::Nop, None, None));
    assert_eq!(nop.ty, IRType::NoArg);
}

#[test]
fn numbers_print_in_decimal() {
    assert_eq!(num_string(0), "0");
    assert_eq!(num_string(7), "7");
    assert_eq!(num_string(10), "10");
    assert_eq!(num_string(12345), "12345");
}

#[test]
fn register_naming_table() {
    let names: Vec<&str> = (0..8).map(reg_name).collect();
    assert_eq!(
        names,
        vec!["rdi", "rsi", "r10", "r11", "r12", "r13", "r14", "r15"]
    );
}

#[test]
fn frame_grows_by_eight_per_variable() {
    let toks = tokenize("a=1; b=2; c=3; return b;".to_string()).unwrap();
    let node = Node::parse(&toks).unwrap();
    let mut irv = gen_ir(&node).unwrap();
    assert_eq!(irv[0].op, IROp::Alloca);
    assert_eq!(irv[0].rhs, Some(24));
    alloc_regs(&mut irv).unwrap();
    let lines = gen_x86(irv).unwrap();
    assert!(lines.contains(&"  sub rsp, 24".to_string()));
}

#[test]
fn error_descriptions_are_nonempty() {
    for e in [
        CompileError::Lexical,
        CompileError::Syntax,
        CompileError::Semantic,
        CompileError::Resource,
    ] {
        assert!(!e.describe().is_empty());
    }
}

#[test]
fn multiplication_stages_through_the_accumulator() {
    let toks = tokenize("return 2*3;".to_string()).unwrap();
    let node = Node::parse(&toks).unwrap();
    let mut irv = gen_ir(&node).unwrap();
    alloc_regs(&mut irv).unwrap();
    let lines = gen_x86(irv).unwrap();
    let pos = lines.iter().position(|l| l == "  mul rsi").unwrap();
    assert_eq!(lines[pos - 1], "  mov rax, r10");
    assert_eq!(lines[pos + 1], "  mov rsi, rax");
}

#[test]
fn division_stages_through_the_accumulator() {
    let toks = tokenize("return 6/2;".to_string()).unwrap();
    let node = Node::parse(&toks).unwrap();
    let mut irv = gen_ir(&node).unwrap();
    alloc_regs(&mut irv).unwrap();
    let lines = gen_x86(irv).unwrap();
    let pos = lines.iter().position(|l| l == "  div r10").unwrap();
    assert_eq!(lines[pos - 1], "  cqo");
    assert_eq!(lines[pos - 2], "  mov rax, rsi");
    assert_eq!(lines[pos + 1], "  mov rsi, rax");
}
