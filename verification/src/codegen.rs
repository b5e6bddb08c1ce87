use crate::ir::{dec_str, irs_view, num_string, IROp, IRView, IR};
use crate::CompileError;
use crate::REGS_N;
use vstd::prelude::*;
use vstd::string::StringExecFns;

verus! {

/// Name of a physical register slot in the target's register-naming
/// table.
pub open spec fn spec_reg(i: int) -> Seq<char> {
    if i == 0 {
        "rdi"@
    } else if i == 1 {
        "rsi"@
    } else if i == 2 {
        "r10"@
    } else if i == 3 {
        "r11"@
    } else if i == 4 {
        "r12"@
    } else if i == 5 {
        "r13"@
    } else if i == 6 {
        "r14"@
    } else {
        "r15"@
    }
}

/// Name of a physical register slot.
pub fn reg_name(i: usize) -> (r: &'static str)
    requires
        i < REGS_N,
    ensures
        r@ == spec_reg(i as int),
{
    match i {
        0 => "rdi",
        1 => "rsi",
        2 => "r10",
        3 => "r11",
        4 => "r12",
        5 => "r13",
        6 => "r14",
        _ => "r15",
    }
}

/// The assembly lines of one allocated instruction, or nothing when
/// an operand its operation needs is missing or is no physical slot.
pub open spec fn emit_ir(ir: IRView) -> Option<Seq<Seq<char>>> {
    match ir.op {
        IROp::Imm => match (ir.lhs, ir.rhs) {
            (Some(l), Some(r)) => if 0 <= l < REGS_N {
                Some(seq!["  mov "@ + spec_reg(l) + ", "@ + dec_str(r)])
            } else {
                None
            },
            _ => None,
        },
        IROp::Mov => match (ir.lhs, ir.rhs) {
            (Some(l), Some(r)) => if 0 <= l < REGS_N && 0 <= r < REGS_N {
                Some(seq!["  mov "@ + spec_reg(l) + ", "@ + spec_reg(r)])
            } else {
                None
            },
            _ => None,
        },
        IROp::Return => match ir.lhs {
            Some(l) => if 0 <= l < REGS_N {
                Some(seq!["  mov rax, "@ + spec_reg(l), "  jmp .Lend"@])
            } else {
                None
            },
            None => None,
        },
        IROp::Label => match ir.lhs {
            Some(l) => if l >= 0 {
                Some(seq![".L"@ + dec_str(l) + ":"@])
            } else {
                None
            },
            None => None,
        },
        IROp::Jmp => match ir.lhs {
            Some(l) => if l >= 0 {
                Some(seq!["  jmp .L"@ + dec_str(l)])
            } else {
                None
            },
            None => None,
        },
        IROp::Unless => match (ir.lhs, ir.rhs) {
            (Some(l), Some(r)) => if 0 <= l < REGS_N && r >= 0 {
                Some(seq!["  cmp "@ + spec_reg(l) + ", 0"@, "  je .L"@ + dec_str(r)])
            } else {
                None
            },
            _ => None,
        },
        IROp::Alloca => match ir.lhs {
            Some(l) => if 0 <= l < REGS_N {
                match ir.rhs {
                    Some(r) => if r >= 0 {
                        Some(seq!["  sub rsp, "@ + dec_str(r), "  mov "@ + spec_reg(l) + ", rsp"@])
                    } else {
                        None
                    },
                    None => Some(seq!["  mov "@ + spec_reg(l) + ", rsp"@]),
                }
            } else {
                None
            },
            None => None,
        },
        IROp::Load => match (ir.lhs, ir.rhs) {
            (Some(l), Some(r)) => if 0 <= l < REGS_N && 0 <= r < REGS_N {
                Some(seq!["  mov "@ + spec_reg(l) + ", ["@ + spec_reg(r) + "]"@])
            } else {
                None
            },
            _ => None,
        },
        IROp::Store => match (ir.lhs, ir.rhs) {
            (Some(l), Some(r)) => if 0 <= l < REGS_N && 0 <= r < REGS_N {
                Some(seq!["  mov ["@ + spec_reg(l) + "], "@ + spec_reg(r)])
            } else {
                None
            },
            _ => None,
        },
        IROp::Add => match (ir.lhs, ir.rhs) {
            (Some(l), Some(r)) => if 0 <= l < REGS_N && 0 <= r < REGS_N {
                Some(seq![" add "@ + spec_reg(l) + ", "@ + spec_reg(r)])
            } else {
                None
            },
            _ => None,
        },
        IROp::AddImm => match (ir.lhs, ir.rhs) {
            (Some(l), Some(r)) => if 0 <= l < REGS_N && r >= 0 {
                Some(seq!["  add "@ + spec_reg(l) + ", "@ + dec_str(r)])
            } else {
                None
            },
            _ => None,
        },
        IROp::Sub => match (ir.lhs, ir.rhs) {
            (Some(l), Some(r)) => if 0 <= l < REGS_N && 0 <= r < REGS_N {
                Some(seq!["  sub "@ + spec_reg(l) + ", "@ + spec_reg(r)])
            } else {
                None
            },
            _ => None,
        },
        IROp::Mul => match (ir.lhs, ir.rhs) {
            (Some(l), Some(r)) => if 0 <= l < REGS_N && 0 <= r < REGS_N {
                Some(
                    seq![
                        "  mov rax, "@ + spec_reg(r),
                        "  mul "@ + spec_reg(l),
                        "  mov "@ + spec_reg(l) + ", rax"@,
                    ],
                )
            } else {
                None
            },
            _ => None,
        },
        IROp::Div => match (ir.lhs, ir.rhs) {
            (Some(l), Some(r)) => if 0 <= l < REGS_N && 0 <= r < REGS_N {
                Some(
                    seq![
                        "  mov rax, "@ + spec_reg(l),
                        "  cqo"@,
                        "  div "@ + spec_reg(r),
                        "  mov "@ + spec_reg(l) + ", rax"@,
                    ],
                )
            } else {
                None
            },
            _ => None,
        },
        IROp::Nop | IROp::Kill => Some(Seq::empty()),
    }
}

/// The assembly lines of a whole allocated sequence, in order.
pub open spec fn emit_seq(irs: Seq<IRView>) -> Option<Seq<Seq<char>>>
    decreases irs.len(),
{
    if irs.len() == 0 {
        Some(Seq::empty())
    } else {
        match emit_ir(irs[0]) {
            Some(ls) => match emit_seq(irs.drop_first()) {
                Some(rest) => Some(ls + rest),
                None => None,
            },
            None => None,
        }
    }
}

/// The fixed prologue: save the frame pointer and establish the new
/// one.
pub open spec fn prologue() -> Seq<Seq<char>> {
    seq!["  push rbp"@, "  mov rbp, rsp"@]
}

/// The fixed epilogue under its single label: restore the stack
/// pointer from the frame pointer, restore the frame pointer, and
/// return.
pub open spec fn epilogue() -> Seq<Seq<char>> {
    seq![".Lend:"@, "  mov rsp, rbp"@, "  mov rsp, rbp"@, "  pop rbp"@, "  ret"@]
}

/// The whole text of an allocated sequence: prologue, body, epilogue.
pub open spec fn spec_gen_x86(irs: Seq<IRView>) -> Option<Seq<Seq<char>>> {
    match emit_seq(irs) {
        Some(body) => Some(prologue() + body + epilogue()),
        None => None,
    }
}

/// The model of emitted lines.
pub open spec fn lines_view(s: Seq<String>) -> Seq<Seq<char>> {
    s.map_values(|x: String| x@)
}

/// Append the assembly lines of one allocated instruction.
#[verifier::rlimit(60)]
fn emit_one(ir: &IR, out: &mut Vec<String>) -> (r: Result<(), CompileError>)
    ensures
        match r {
            Ok(()) => emit_ir(ir@) is Some && lines_view(final(out)@) == lines_view(old(out)@)
                + emit_ir(ir@)->0,
            Err(e) => e == CompileError::Semantic && emit_ir(ir@) is None && *final(out)
                == *old(out),
        },
{
    let ghost pre = lines_view(out@);
    match ir.op {
        IROp::Imm => {
            let (l, r) = match (ir.lhs, ir.rhs) {
                (Some(l), Some(r)) => (l, r),
                _ => {
                    return Err(CompileError::Semantic);
                },
            };
            if l >= REGS_N {
                return Err(CompileError::Semantic);
            }
            let mut s = "  mov ".to_owned();
            s.append(reg_name(l));
            s.append(", ");
            s.append(num_string(r).as_str());
            out.push(s);
            proof {
                assert(lines_view(out@) =~= pre + emit_ir(ir@)->0);
            }
            Ok(())
        },
        IROp::Mov => {
            let (l, r) = match (ir.lhs, ir.rhs) {
                (Some(l), Some(r)) => (l, r),
                _ => {
                    return Err(CompileError::Semantic);
                },
            };
            if l >= REGS_N || r >= REGS_N {
                return Err(CompileError::Semantic);
            }
            let mut s = "  mov ".to_owned();
            s.append(reg_name(l));
            s.append(", ");
            s.append(reg_name(r));
            out.push(s);
            proof {
                assert(lines_view(out@) =~= pre + emit_ir(ir@)->0);
            }
            Ok(())
        },
        IROp::Return => {
            let l = match ir.lhs {
                Some(l) => l,
                None => {
                    return Err(CompileError::Semantic);
                },
            };
            if l >= REGS_N {
                return Err(CompileError::Semantic);
            }
            let mut s = "  mov rax, ".to_owned();
            s.append(reg_name(l));
            out.push(s);
            out.push("  jmp .Lend".to_owned());
            proof {
                assert(lines_view(out@) =~= pre + emit_ir(ir@)->0);
            }
            Ok(())
        },
        IROp::Label => {
            let l = match ir.lhs {
                Some(l) => l,
                None => {
                    return Err(CompileError::Semantic);
                },
            };
            let mut s = ".L".to_owned();
            s.append(num_string(l).as_str());
            s.append(":");
            out.push(s);
            proof {
                assert(lines_view(out@) =~= pre + emit_ir(ir@)->0);
            }
            Ok(())
        },
        IROp::Jmp => {
            let l = match ir.lhs {
                Some(l) => l,
                None => {
                    return Err(CompileError::Semantic);
                },
            };
            let mut s = "  jmp .L".to_owned();
            s.append(num_string(l).as_str());
            out.push(s);
            proof {
                assert(lines_view(out@) =~= pre + emit_ir(ir@)->0);
            }
            Ok(())
        },
        IROp::Unless => {
            let (l, r) = match (ir.lhs, ir.rhs) {
                (Some(l), Some(r)) => (l, r),
                _ => {
                    return Err(CompileError::Semantic);
                },
            };
            if l >= REGS_N {
                return Err(CompileError::Semantic);
            }
            let mut s = "  cmp ".to_owned();
            s.append(reg_name(l));
            s.append(", 0");
            out.push(s);
            let mut s2 = "  je .L".to_owned();
            s2.append(num_string(r).as_str());
            out.push(s2);
            proof {
                assert(lines_view(out@) =~= pre + emit_ir(ir@)->0);
            }
            Ok(())
        },
        IROp::Alloca => {
            let l = match ir.lhs {
                Some(l) => l,
                None => {
                    return Err(CompileError::Semantic);
                },
            };
            if l >= REGS_N {
                return Err(CompileError::Semantic);
            }
            match ir.rhs {
                Some(r) => {
                    let mut s = "  sub rsp, ".to_owned();
                    s.append(num_string(r).as_str());
                    out.push(s);
                },
                None => {},
            }
            let mut s2 = "  mov ".to_owned();
            s2.append(reg_name(l));
            s2.append(", rsp");
            out.push(s2);
            proof {
                assert(lines_view(out@) =~= pre + emit_ir(ir@)->0);
            }
            Ok(())
        },
        IROp::Load => {
            let (l, r) = match (ir.lhs, ir.rhs) {
                (Some(l), Some(r)) => (l, r),
                _ => {
                    return Err(CompileError::Semantic);
                },
            };
            if l >= REGS_N || r >= REGS_N {
                return Err(CompileError::Semantic);
            }
            let mut s = "  mov ".to_owned();
            s.append(reg_name(l));
            s.append(", [");
            s.append(reg_name(r));
            s.append("]");
            out.push(s);
            proof {
                assert(lines_view(out@) =~= pre + emit_ir(ir@)->0);
            }
            Ok(())
        },
        IROp::Store => {
            let (l, r) = match (ir.lhs, ir.rhs) {
                (Some(l), Some(r)) => (l, r),
                _ => {
                    return Err(CompileError::Semantic);
                },
            };
            if l >= REGS_N || r >= REGS_N {
                return Err(CompileError::Semantic);
            }
            let mut s = "  mov [".to_owned();
            s.append(reg_name(l));
            s.append("], ");
            s.append(reg_name(r));
            out.push(s);
            proof {
                assert(lines_view(out@) =~= pre + emit_ir(ir@)->0);
            }
            Ok(())
        },
        IROp::Add => {
            let (l, r) = match (ir.lhs, ir.rhs) {
                (Some(l), Some(r)) => (l, r),
                _ => {
                    return Err(CompileError::Semantic);
                },
            };
            if l >= REGS_N || r >= REGS_N {
                return Err(CompileError::Semantic);
            }
            let mut s = " add ".to_owned();
            s.append(reg_name(l));
            s.append(", ");
            s.append(reg_name(r));
            out.push(s);
            proof {
                assert(lines_view(out@) =~= pre + emit_ir(ir@)->0);
            }
            Ok(())
        },
        IROp::AddImm => {
            let (l, r) = match (ir.lhs, ir.rhs) {
                (Some(l), Some(r)) => (l, r),
                _ => {
                    return Err(CompileError::Semantic);
                },
            };
            if l >= REGS_N {
                return Err(CompileError::Semantic);
            }
            let mut s = "  add ".to_owned();
            s.append(reg_name(l));
            s.append(", ");
            s.append(num_string(r).as_str());
            out.push(s);
            proof {
                assert(lines_view(out@) =~= pre + emit_ir(ir@)->0);
            }
            Ok(())
        },
        IROp::Sub => {
            let (l, r) = match (ir.lhs, ir.rhs) {
                (Some(l), Some(r)) => (l, r),
                _ => {
                    return Err(CompileError::Semantic);
                },
            };
            if l >= REGS_N || r >= REGS_N {
                return Err(CompileError::Semantic);
            }
            let mut s = "  sub ".to_owned();
            s.append(reg_name(l));
            s.append(", ");
            s.append(reg_name(r));
            out.push(s);
            proof {
                assert(lines_view(out@) =~= pre + emit_ir(ir@)->0);
            }
            Ok(())
        },
        IROp::Mul => {
            let (l, r) = match (ir.lhs, ir.rhs) {
                (Some(l), Some(r)) => (l, r),
                _ => {
                    return Err(CompileError::Semantic);
                },
            };
            if l >= REGS_N || r >= REGS_N {
                return Err(CompileError::Semantic);
            }
            let mut s = "  mov rax, ".to_owned();
            s.append(reg_name(r));
            out.push(s);
            let mut s2 = "  mul ".to_owned();
            s2.append(reg_name(l));
            out.push(s2);
            let mut s3 = "  mov ".to_owned();
            s3.append(reg_name(l));
            s3.append(", rax");
            out.push(s3);
            proof {
                assert(lines_view(out@) =~= pre + emit_ir(ir@)->0);
            }
            Ok(())
        },
        IROp::Div => {
            let (l, r) = match (ir.lhs, ir.rhs) {
                (Some(l), Some(r)) => (l, r),
                _ => {
                    return Err(CompileError::Semantic);
                },
            };
            if l >= REGS_N || r >= REGS_N {
                return Err(CompileError::Semantic);
            }
            let mut s = "  mov rax, ".to_owned();
            s.append(reg_name(l));
            out.push(s);
            out.push("  cqo".to_owned());
            let mut s2 = "  div ".to_owned();
            s2.append(reg_name(r));
            out.push(s2);
            let mut s3 = "  mov ".to_owned();
            s3.append(reg_name(l));
            s3.append(", rax");
            out.push(s3);
            proof {
                assert(lines_view(out@) =~= pre + emit_ir(ir@)->0);
            }
            Ok(())
        },
        IROp::Nop | IROp::Kill => {
            proof {
                assert(lines_view(out@) =~= pre + emit_ir(ir@)->0);
            }
            Ok(())
        },
    }
}

/// The body and epilogue positioned after an already emitted prefix.
pub open spec fn gx_rest(pre: Seq<Seq<char>>, rest: Option<Seq<Seq<char>>>) -> Option<
    Seq<Seq<char>>,
> {
    match rest {
        Some(r) => Some(pre + r + epilogue()),
        None => None,
    }
}

/// Emit the textual assembly of a fully allocated sequence: the fixed
/// prologue, one block of lines per instruction in order (retired
/// kills emit nothing), and the single epilogue. Fails only on an
/// instruction whose operands are missing or are no physical slots,
/// which allocation never leaves behind.
pub fn gen_x86(irv: Vec<IR>) -> (r: Result<Vec<String>, CompileError>)
    ensures
        match r {
            Ok(lines) => spec_gen_x86(irs_view(irv@)) == Some(lines_view(lines@)),
            Err(e) => e == CompileError::Semantic && spec_gen_x86(irs_view(irv@)) is None,
        },
{
    let ghost whole = irs_view(irv@);
    let mut out: Vec<String> = Vec::new();
    out.push("  push rbp".to_owned());
    out.push("  mov rbp, rsp".to_owned());
    proof {
        assert(lines_view(out@) =~= prologue());
        assert(whole.skip(0) =~= whole);
    }
    let mut i: usize = 0;
    #[verifier::loop_isolation(false)]
    while i < irv.len()
        invariant
            i <= irv@.len(),
            spec_gen_x86(whole) == gx_rest(lines_view(out@), emit_seq(whole.skip(i as int))),
        decreases irv@.len() - i,
    {
        let ghost pre = lines_view(out@);
        proof {
            assert(whole.skip(i as int)[0] == whole[i as int]);
            assert(whole.skip(i as int).drop_first() =~= whole.skip(i as int + 1));
        }
        match emit_one(&irv[i], &mut out) {
            Ok(()) => {},
            Err(e) => {
                return Err(e);
            },
        }
        proof {
            let ls = emit_ir(whole[i as int])->0;
            match emit_seq(whole.skip(i as int + 1)) {
                Some(rest) => {
                    assert((pre + ls) + rest + epilogue() =~= pre + (ls + rest) + epilogue());
                },
                None => {},
            }
        }
        i = i + 1;
    }
    proof {
        assert(emit_seq(whole.skip(i as int)) == Some(Seq::<Seq<char>>::empty()));
    }
    let ghost body_done = lines_view(out@);
    out.push(".Lend:".to_owned());
    out.push("  mov rsp, rbp".to_owned());
    out.push("  mov rsp, rbp".to_owned());
    out.push("  pop rbp".to_owned());
    out.push("  ret".to_owned());
    proof {
        assert(lines_view(out@) =~= body_done + epilogue());
        assert(body_done + Seq::<Seq<char>>::empty() + epilogue() =~= body_done + epilogue());
    }
    Ok(out)
}

} // verus!
