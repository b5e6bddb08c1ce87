use std::collections::HashMap;

use mona::codegen::gen_x86;
use mona::ir::{gen_ir, IROp, IRType, IR};
use mona::parse::Node;
use mona::regalloc::alloc_regs;
use mona::token::tokenize;
use mona::CompileError;

/// Run the whole pipeline up to allocated instructions.
fn compile_ir(src: &str) -> Result<Vec<IR>, CompileError> {
    let tokens = tokenize(src.to_string())?;
    let node = Node::parse(&tokens)?;
    let mut irv = gen_ir(&node)?;
    alloc_regs(&mut irv)?;
    Ok(irv)
}

/// Run the whole pipeline to assembly lines.
fn compile(src: &str) -> Result<Vec<String>, CompileError> {
    gen_x86(compile_ir(src)?)
}

/// Interpret an instruction sequence, virtual or allocated: registers
/// and memory as maps, the frame placed at a fixed address. Returns
/// the value of the first `Return` reached.
fn interp(irv: &[IR]) -> Option<i64> {
    let mut regs: HashMap<usize, i64> = HashMap::new();
    let mut mem: HashMap<i64, i64> = HashMap::new();
    let mut sp: i64 = 1 << 20;
    let labels: HashMap<usize, usize> = irv
        .iter()
        .enumerate()
        .filter(|(_, ir)| ir.op == IROp::Label)
        .map(|(i, ir)| (ir.lhs.unwrap(), i))
        .collect();
    let mut pc = 0;
    let mut steps = 0;
    while pc < irv.len() {
        steps += 1;
        assert!(steps < 100_000, "interpreter ran away");
        let ir = &irv[pc];
        match ir.op {
            IROp::Imm => {
                regs.insert(ir.lhs.unwrap(), ir.rhs.unwrap() as i64);
            }
            IROp::Mov => {
                let v = regs[&ir.rhs.unwrap()];
                regs.insert(ir.lhs.unwrap(), v);
            }
            IROp::Add => {
                let v = regs[&ir.lhs.unwrap()] + regs[&ir.rhs.unwrap()];
                regs.insert(ir.lhs.unwrap(), v);
            }
            IROp::AddImm => {
                let v = regs[&ir.lhs.unwrap()] + ir.rhs.unwrap() as i64;
                regs.insert(ir.lhs.unwrap(), v);
            }
            IROp::Sub => {
                let v = regs[&ir.lhs.unwrap()] - regs[&ir.rhs.unwrap()];
                regs.insert(ir.lhs.unwrap(), v);
            }
            IROp::Mul => {
                let v = regs[&ir.lhs.unwrap()] * regs[&ir.rhs.unwrap()];
                regs.insert(ir.lhs.unwrap(), v);
            }
            IROp::Div => {
                let v = regs[&ir.lhs.unwrap()] / regs[&ir.rhs.unwrap()];
                regs.insert(ir.lhs.unwrap(), v);
            }
            IROp::Alloca => {
                if let Some(size) = ir.rhs {
                    sp -= size as i64;
                }
                regs.insert(ir.lhs.unwrap(), sp);
            }
            IROp::Load => {
                let v = mem[&regs[&ir.rhs.unwrap()]];
                regs.insert(ir.lhs.unwrap(), v);
            }
            IROp::Store => {
                let addr = regs[&ir.lhs.unwrap()];
                let v = regs[&ir.rhs.unwrap()];
                mem.insert(addr, v);
            }
            IROp::Label | IROp::Nop | IROp::Kill => {}
            IROp::Jmp => {
                pc = labels[&ir.lhs.unwrap()];
                continue;
            }
            IROp::Unless => {
                if regs[&ir.lhs.unwrap()] == 0 {
                    pc = labels[&ir.rhs.unwrap()];
                    continue;
                }
            }
            IROp::Return => {
                return Some(regs[&ir.lhs.unwrap()]);
            }
        }
        pc += 1;
    }
    None
}

fn run(src: &str) -> i64 {
    interp(&compile_ir(src).expect("compilation failed")).expect("no return reached")
}

#[test]
fn precedence_mixed_operators() {
    assert_eq!(run("return 1+2*3-4/2;"), 5);
}

#[test]
fn precedence_parentheses() {
    assert_eq!(run("return (1+2)*3;"), 9);
    assert_eq!(run("return 2*(3+4);"), 14);
}

#[test]
fn left_to_right_evaluation() {
    assert_eq!(run("return 10-4-3;"), 3);
    assert_eq!(run("return 20/4/5;"), 1);
}

#[test]
fn assignment_stores_and_returns() {
    assert_eq!(run("a=1+2; return a;"), 3);
}

#[test]
fn reassignment_reads_back() {
    assert_eq!(run("a=1; a=a+1; return a;"), 2);
}

#[test]
fn two_variables_have_distinct_slots() {
    assert_eq!(run("a=7; b=9; return a;"), 7);
    assert_eq!(run("a=7; b=9; return b;"), 9);
}

#[test]
fn branch_not_taken_on_zero() {
    assert_eq!(run("if (0) return 1; return 2;"), 2);
}

#[test]
fn branch_taken_on_nonzero() {
    assert_eq!(run("if (1) return 1; return 2;"), 1);
}

#[test]
fn else_branch_taken() {
    assert_eq!(run("if (0) return 1; else return 2; return 3;"), 2);
}

#[test]
fn nested_conditionals_run_right() {
    assert_eq!(
        run("if (1) if (0) return 1; else return 2; else return 3; return 4;"),
        2
    );
    assert_eq!(
        run("if (0) if (1) return 1; else return 2; else if (1) return 3; else return 4; return 5;"),
        3
    );
}

#[test]
fn nested_conditionals_get_distinct_labels() {
    let tokens =
        tokenize("if (1) if (1) return 1; else return 2; else if (1) return 3; else return 4; return 5;".to_string())
            .unwrap();
    let node = Node::parse(&tokens).unwrap();
    let irv = gen_ir(&node).unwrap();
    let defs: Vec<usize> = irv
        .iter()
        .filter(|ir| ir.op == IROp::Label)
        .map(|ir| ir.lhs.unwrap())
        .collect();
    let mut sorted = defs.clone();
    sorted.sort();
    sorted.dedup();
    assert_eq!(sorted.len(), defs.len(), "a label was defined twice");
}

/// Which operand slots of an instruction hold registers.
fn reg_operands(ir: &IR) -> Vec<usize> {
    let info = mona::ir::get_irinfo(ir);
    match info.ty {
        IRType::Reg | IRType::RegImm | IRType::RegLabel => vec![ir.lhs.unwrap()],
        IRType::RegReg => vec![ir.lhs.unwrap(), ir.rhs.unwrap()],
        IRType::Label | IRType::NoArg => vec![],
    }
}

#[test]
fn kills_are_final_in_generated_ir() {
    let src = "a=1+2*3; b=a+4; if (b-10) c=b*2; else c=b/2; return a+b+c;";
    let tokens = tokenize(src.to_string()).unwrap();
    let node = Node::parse(&tokens).unwrap();
    let irv = gen_ir(&node).unwrap();
    for (i, ir) in irv.iter().enumerate() {
        if ir.op == IROp::Kill {
            let r = ir.lhs.unwrap();
            for later in &irv[i + 1..] {
                assert!(
                    !reg_operands(later).contains(&r),
                    "register {} used after its kill",
                    r
                );
            }
        }
    }
}

#[test]
fn allocated_registers_stay_in_the_file() {
    let src = "a=1+2*3; b=a+4; if (b-10) c=b*2; else c=b/2; return a+b+c;";
    let irv = compile_ir(src).unwrap();
    for ir in &irv {
        for r in reg_operands(ir) {
            assert!(r < 8, "physical slot {} out of the file", r);
        }
    }
}

#[test]
fn independent_statements_never_exhaust() {
    // far more statements than there are registers: each one's
    // register dies at once, so its slot is reused
    let mut src = String::new();
    for i in 0..50 {
        src.push_str(&format!("{};", i + 1));
    }
    src.push_str("return 50;");
    assert_eq!(run(&src), 50);
}

#[test]
fn eight_live_registers_exhaust_the_file() {
    // seven terms plus the frame base fit exactly; an eighth term
    // keeps too many partial values alive at once
    let fits = "return 1+(2+(3+(4+(5+(6+7)))));";
    assert_eq!(run(fits), 28);
    let too_many = "return 1+(2+(3+(4+(5+(6+(7+8))))));";
    let tokens = tokenize(too_many.to_string()).unwrap();
    let node = Node::parse(&tokens).unwrap();
    let mut irv = gen_ir(&node).unwrap();
    assert_eq!(alloc_regs(&mut irv), Err(CompileError::Resource));
}

#[test]
fn reemission_is_identical() {
    let src = "a=1+2*3; if (a-7) return 1; else b=a; return b;";
    let tokens = tokenize(src.to_string()).unwrap();
    let node = Node::parse(&tokens).unwrap();
    let first = {
        let mut irv = gen_ir(&node).unwrap();
        alloc_regs(&mut irv).unwrap();
        gen_x86(irv).unwrap()
    };
    let second = {
        let mut irv = gen_ir(&node).unwrap();
        alloc_regs(&mut irv).unwrap();
        gen_x86(irv).unwrap()
    };
    assert_eq!(first, second);
}

#[test]
fn exact_assembly_of_a_return() {
    let lines = compile("return 42;").unwrap();
    assert_eq!(
        lines,
        vec![
            "  push rbp",
            "  mov rbp, rsp",
            "  sub rsp, 0",
            "  mov rdi, rsp",
            "  mov rsi, 42",
            "  mov rax, rsi",
            "  jmp .Lend",
            ".Lend:",
            "  mov rsp, rbp",
            "  mov rsp, rbp",
            "  pop rbp",
            "  ret",
        ]
    );
}

#[test]
fn exact_assembly_of_an_assignment() {
    let lines = compile("a=1; return a;").unwrap();
    assert_eq!(
        lines,
        vec![
            "  push rbp",
            "  mov rbp, rsp",
            "  sub rsp, 8",
            "  mov rdi, rsp",
            "  mov rsi, 1",
            "  mov r10, rdi",
            "  add r10, 0",
            "  mov [r10], rsi",
            // both value and address die above, so their slots carry
            // the second statement's address and loaded value
            "  mov rsi, rdi",
            "  add rsi, 0",
            "  mov r10, [rsi]",
            "  mov rax, r10",
            "  jmp .Lend",
            ".Lend:",
            "  mov rsp, rbp",
            "  mov rsp, rbp",
            "  pop rbp",
            "  ret",
        ]
    );
}

#[test]
fn lexical_error_on_unknown_character() {
    assert_eq!(
        tokenize("1 @ 2;".to_string()).unwrap_err(),
        CompileError::Lexical
    );
}

#[test]
fn lexical_error_on_oversized_number() {
    assert_eq!(
        tokenize("return 99999999999999999999;".to_string()).unwrap_err(),
        CompileError::Lexical
    );
}

#[test]
fn syntax_error_on_dangling_operator() {
    assert_eq!(compile("return 1+;"), Err(CompileError::Syntax));
}

#[test]
fn syntax_error_on_missing_semicolon() {
    assert_eq!(compile("return 1"), Err(CompileError::Syntax));
}

#[test]
fn syntax_error_on_unclosed_parenthesis() {
    assert_eq!(compile("return (1+2;"), Err(CompileError::Syntax));
}

#[test]
fn semantic_error_on_assignment_to_number() {
    assert_eq!(compile("1=2;"), Err(CompileError::Semantic));
}

#[test]
fn unbound_identifier_is_auto_declared() {
    // referencing a variable never assigned is not an error: its
    // first use claims a frame slot
    assert!(compile("return x;").is_ok());
    assert_eq!(run("x=0; x=x+5; return x;"), 5);
}
