use crate::parse::{node_view, nodes_view, Node, NodeType, NodeView};
use crate::token::{TokenType, TokView};
use crate::CompileError;
use vstd::prelude::*;
use vstd::string::StringExecFns;

verus! {

/// The virtual register that holds the frame base throughout a
/// function: bound first, killed last.
pub const BASE_REG: usize = 0;

/// Operation of an intermediate instruction.
#[derive(Debug, Clone, Copy, PartialEq, Eq, Structural)]
pub enum IROp {
    /// Load an immediate into a register
    Imm,
    /// Register-to-register copy
    Mov,
    Add,
    /// Add an immediate to a register
    AddImm,
    Sub,
    Mul,
    Div,
    /// Define a jump target
    Label,
    /// Unconditional branch
    Jmp,
    /// Branch taken when the register holds zero
    Unless,
    /// Move a register into the return slot and leave the function
    Return,
    /// Reserve frame space; the result register holds the frame base
    Alloca,
    /// Read through a register holding an address
    Load,
    /// Write through a register holding an address
    Store,
    /// End of a register's lifetime
    Kill,
    /// A retired instruction without further effect
    Nop,
}

/// Operand shape of an instruction: which of the two slots hold a
/// register, an immediate, or a label.
#[derive(Debug, Clone, Copy, PartialEq, Eq, Structural)]
pub enum IRType {
    NoArg,
    Reg,
    Label,
    RegReg,
    RegImm,
    RegLabel,
}

/// Display name and operand shape of an operation.
#[derive(Debug, Clone)]
pub struct IRInfo {
    pub op: IROp,
    pub name: &'static str,
    pub ty: IRType,
}

impl IRInfo {
    pub fn new(op: IROp, name: &'static str, ty: IRType) -> (r: Self)
        ensures
            r == (IRInfo { op, name, ty }),
    {
        Self { op, name, ty }
    }
}

/// One intermediate instruction: an operation and up to two operand
/// slots, whose meaning depends on the operand shape.
#[derive(Debug, Clone, Copy, PartialEq, Eq)]
pub struct IR {
    pub op: IROp,
    pub lhs: Option<usize>,
    pub rhs: Option<usize>,
}

/// Mathematical model of an instruction, operands as unbounded
/// integers.
pub struct IRView {
    pub op: IROp,
    pub lhs: Option<int>,
    pub rhs: Option<int>,
}

impl View for IR {
    type V = IRView;

    open spec fn view(&self) -> IRView {
        IRView {
            op: self.op,
            lhs: match self.lhs {
                Some(v) => Some(v as int),
                None => None,
            },
            rhs: match self.rhs {
                Some(v) => Some(v as int),
                None => None,
            },
        }
    }
}

/// The model of an instruction sequence.
pub open spec fn irs_view(s: Seq<IR>) -> Seq<IRView> {
    s.map_values(|i: IR| i@)
}

impl IR {
    /// Build an instruction.
    pub fn new(op: IROp, lhs: Option<usize>, rhs: Option<usize>) -> (r: Self)
        ensures
            r == (IR { op, lhs, rhs }),
    {
        Self { op, lhs, rhs }
    }
}

/// Operand shape of each operation.
pub open spec fn spec_ir_ty(op: IROp) -> IRType {
    match op {
        IROp::Imm => IRType::RegImm,
        IROp::Mov => IRType::RegReg,
        IROp::Add => IRType::RegReg,
        IROp::AddImm => IRType::RegImm,
        IROp::Sub => IRType::RegReg,
        IROp::Mul => IRType::RegReg,
        IROp::Div => IRType::RegReg,
        IROp::Label => IRType::Label,
        IROp::Jmp => IRType::Label,
        IROp::Unless => IRType::RegLabel,
        IROp::Return => IRType::Reg,
        IROp::Alloca => IRType::RegImm,
        IROp::Load => IRType::RegReg,
        IROp::Store => IRType::RegReg,
        IROp::Kill => IRType::Reg,
        IROp::Nop => IRType::NoArg,
    }
}

/// Display name of each operation.
pub open spec fn spec_ir_name(op: IROp) -> Seq<char> {
    match op {
        IROp::Imm => "MOV"@,
        IROp::Mov => "MOV"@,
        IROp::Add => "+"@,
        IROp::AddImm => "ADD"@,
        IROp::Sub => "-"@,
        IROp::Mul => "*"@,
        IROp::Div => "/"@,
        IROp::Label => ""@,
        IROp::Jmp => ""@,
        IROp::Unless => "UNLESS"@,
        IROp::Return => "RET"@,
        IROp::Alloca => "ALLOCA"@,
        IROp::Load => "LOAD"@,
        IROp::Store => "STORE"@,
        IROp::Kill => "KILL"@,
        IROp::Nop => "NOP"@,
    }
}

/// Display name and operand shape of an instruction's operation.
pub fn get_irinfo(ir: &IR) -> (r: IRInfo)
    ensures
        r.op == ir.op,
        r.ty == spec_ir_ty(ir.op),
        r.name@ == spec_ir_name(ir.op),
{
    match ir.op {
        IROp::Imm => IRInfo::new(IROp::Imm, "MOV", IRType::RegImm),
        IROp::Mov => IRInfo::new(IROp::Mov, "MOV", IRType::RegReg),
        IROp::Add => IRInfo::new(IROp::Add, "+", IRType::RegReg),
        IROp::AddImm => IRInfo::new(IROp::AddImm, "ADD", IRType::RegImm),
        IROp::Sub => IRInfo::new(IROp::Sub, "-", IRType::RegReg),
        IROp::Mul => IRInfo::new(IROp::Mul, "*", IRType::RegReg),
        IROp::Div => IRInfo::new(IROp::Div, "/", IRType::RegReg),
        IROp::Label => IRInfo::new(IROp::Label, "", IRType::Label),
        IROp::Jmp => IRInfo::new(IROp::Jmp, "", IRType::Label),
        IROp::Unless => IRInfo::new(IROp::Unless, "UNLESS", IRType::RegLabel),
        IROp::Return => IRInfo::new(IROp::Return, "RET", IRType::Reg),
        IROp::Alloca => IRInfo::new(IROp::Alloca, "ALLOCA", IRType::RegImm),
        IROp::Load => IRInfo::new(IROp::Load, "LOAD", IRType::RegReg),
        IROp::Store => IRInfo::new(IROp::Store, "STORE", IRType::RegReg),
        IROp::Kill => IRInfo::new(IROp::Kill, "KILL", IRType::Reg),
        IROp::Nop => IRInfo::new(IROp::Nop, "NOP", IRType::NoArg),
    }
}

pub open spec fn spec_digit_char(d: int) -> char {
    if d == 0 {
        '0'
    } else if d == 1 {
        '1'
    } else if d == 2 {
        '2'
    } else if d == 3 {
        '3'
    } else if d == 4 {
        '4'
    } else if d == 5 {
        '5'
    } else if d == 6 {
        '6'
    } else if d == 7 {
        '7'
    } else if d == 8 {
        '8'
    } else {
        '9'
    }
}

/// Decimal spelling of a non-negative number.
pub open spec fn dec_str(n: int) -> Seq<char>
    decreases n,
{
    if n < 10 {
        seq![spec_digit_char(n)]
    } else {
        dec_str(n / 10).push(spec_digit_char(n % 10))
    }
}

fn digit_string(d: usize) -> (r: String)
    requires
        d <= 9,
    ensures
        r@ =~= seq![spec_digit_char(d as int)],
{
    proof {
        reveal_strlit("0");
        reveal_strlit("1");
        reveal_strlit("2");
        reveal_strlit("3");
        reveal_strlit("4");
        reveal_strlit("5");
        reveal_strlit("6");
        reveal_strlit("7");
        reveal_strlit("8");
        reveal_strlit("9");
    }
    match d {
        0 => "0".to_owned(),
        1 => "1".to_owned(),
        2 => "2".to_owned(),
        3 => "3".to_owned(),
        4 => "4".to_owned(),
        5 => "5".to_owned(),
        6 => "6".to_owned(),
        7 => "7".to_owned(),
        8 => "8".to_owned(),
        _ => "9".to_owned(),
    }
}

/// Decimal spelling of a number.
pub fn num_string(n: usize) -> (r: String)
    ensures
        r@ == dec_str(n as int),
    decreases n,
{
    if n < 10 {
        digit_string(n)
    } else {
        let s = num_string(n / 10);
        let d = digit_string(n % 10);
        let r = s.concat(d.as_str());
        proof {
            assert(r@ =~= dec_str(n as int / 10).push(spec_digit_char(n as int % 10)));
        }
        r
    }
}

/// Whether an instruction carries every operand its shape asks for,
/// so that it can be rendered as text.
pub open spec fn ir_dump_wf(ir: IRView) -> bool {
    &&& ir.lhs is Some
    &&& (match spec_ir_ty(ir.op) {
        IRType::RegReg | IRType::RegImm | IRType::RegLabel => ir.rhs is Some,
        _ => true,
    })
}

pub open spec fn irs_dump_wf(irs: Seq<IRView>) -> bool {
    forall|i: int| 0 <= i < irs.len() ==> ir_dump_wf(#[trigger] irs[i])
}

/// One instruction's line in the readable dump.
pub open spec fn spec_dump_line(ir: IRView) -> Seq<char> {
    let name = spec_ir_name(ir.op);
    let l = ir.lhs->0;
    let r = ir.rhs->0;
    match spec_ir_ty(ir.op) {
        IRType::Label => ".L"@ + dec_str(l) + "=>"@,
        IRType::Reg => name + " r"@ + dec_str(l),
        IRType::RegReg => name + " r"@ + dec_str(l) + ", r"@ + dec_str(r),
        IRType::RegImm => name + " r"@ + dec_str(l) + ", "@ + dec_str(r),
        IRType::RegLabel => name + " r"@ + dec_str(l) + ", L"@ + dec_str(r),
        IRType::NoArg => name,
    }
}

/// The readable dump of a whole sequence, one line per instruction.
pub open spec fn spec_dump(irs: Seq<IRView>) -> Seq<char>
    decreases irs.len(),
{
    if irs.len() == 0 {
        Seq::empty()
    } else {
        spec_dump_line(irs[0]) + "\n"@ + spec_dump(irs.drop_first())
    }
}

fn dump_line(ir: &IR) -> (r: String)
    requires
        ir_dump_wf(ir@),
    ensures
        r@ == spec_dump_line(ir@),
{
    let info = get_irinfo(ir);
    let lhs = ir.lhs.unwrap();
    match info.ty {
        IRType::Label => {
            let mut s = ".L".to_owned();
            s.append(num_string(lhs).as_str());
            s.append("=>");
            s
        },
        IRType::Reg => {
            let mut s = info.name.to_owned();
            s.append(" r");
            s.append(num_string(lhs).as_str());
            s
        },
        IRType::RegReg => {
            let mut s = info.name.to_owned();
            s.append(" r");
            s.append(num_string(lhs).as_str());
            s.append(", r");
            s.append(num_string(ir.rhs.unwrap()).as_str());
            s
        },
        IRType::RegImm => {
            let mut s = info.name.to_owned();
            s.append(" r");
            s.append(num_string(lhs).as_str());
            s.append(", ");
            s.append(num_string(ir.rhs.unwrap()).as_str());
            s
        },
        IRType::RegLabel => {
            let mut s = info.name.to_owned();
            s.append(" r");
            s.append(num_string(lhs).as_str());
            s.append(", L");
            s.append(num_string(ir.rhs.unwrap()).as_str());
            s
        },
        IRType::NoArg => info.name.to_owned(),
    }
}

/// Render an instruction sequence as readable text, for diagnostics.
pub fn dump_ir(irv: &Vec<IR>) -> (r: String)
    requires
        irs_dump_wf(irs_view(irv@)),
    ensures
        r@ == spec_dump(irs_view(irv@)),
{
    let ghost whole = irs_view(irv@);
    let mut out = String::new();
    let mut i: usize = 0;
    proof {
        assert(whole.skip(0) =~= whole);
        assert(out@ + spec_dump(whole) =~= spec_dump(whole));
    }
    while i < irv.len()
        invariant
            i <= irv@.len(),
            whole == irs_view(irv@),
            irs_dump_wf(whole),
            spec_dump(whole) == out@ + spec_dump(whole.skip(i as int)),
        decreases irv@.len() - i,
    {
        let line = dump_line(&irv[i]);
        out.append(line.as_str());
        out.append("\n");
        proof {
            reveal_strlit("\n");
            assert(whole.skip(i as int)[0] == whole[i as int]);
            assert(whole.skip(i as int).drop_first() =~= whole.skip(i as int + 1));
            assert(out@ + spec_dump(whole.skip(i as int + 1)) =~= spec_dump(whole));
        }
        i = i + 1;
    }
    proof {
        assert(spec_dump(whole.skip(i as int)) =~= Seq::<char>::empty());
        assert(out@ + Seq::<char>::empty() =~= out@);
    }
    out
}

// ---------------------------------------------------------------------
// IR generation
// ---------------------------------------------------------------------

/// Model of the generator's working state: the variable table in
/// first-use order (the offset of a variable is eight times its
/// index), the next fresh virtual register, the next fresh label, and
/// the instructions emitted so far.
pub struct GenSt {
    pub vars: Seq<Seq<char>>,
    pub regno: int,
    pub label: int,
    pub code: Seq<IRView>,
}

/// Shorthand for an instruction in the model.
pub open spec fn irv(op: IROp, lhs: Option<int>, rhs: Option<int>) -> IRView {
    IRView { op, lhs, rhs }
}

/// Index of `name` in the variable table, searched from `i` upward.
pub open spec fn var_index_from(vars: Seq<Seq<char>>, name: Seq<char>, i: int) -> Option<int>
    decreases vars.len() - i,
    when 0 <= i <= vars.len()
{
    if i >= vars.len() {
        None
    } else if vars[i] == name {
        Some(i)
    } else {
        var_index_from(vars, name, i + 1)
    }
}

/// The intermediate opcode of an arithmetic operator token.
pub open spec fn spec_arith_op(t: TokView) -> Option<IROp> {
    match t {
        TokView::Plus => Some(IROp::Add),
        TokView::Minus => Some(IROp::Sub),
        TokView::Mul => Some(IROp::Mul),
        TokView::Div => Some(IROp::Div),
        _ => None,
    }
}

/// Address computation for a variable used as a place: the variable is
/// added to the table at first use, and a fresh register is loaded
/// with frame base plus offset. Fails on a place that is not a
/// variable, or when a counter would not fit its machine word.
pub open spec fn sgen_lval(st: GenSt, n: NodeView) -> Option<(GenSt, int)> {
    match n {
        NodeView::Ident(name) => {
            if st.regno >= usize::MAX as int || st.vars.len() as int >= usize::MAX as int / 8 {
                None
            } else {
                let (vars2, off) = match var_index_from(st.vars, name, 0) {
                    Some(i) => (st.vars, 8 * i),
                    None => (st.vars.push(name), 8 * st.vars.len() as int),
                };
                let r = st.regno;
                Some(
                    (
                        GenSt {
                            vars: vars2,
                            regno: r + 1,
                            label: st.label,
                            code: st.code + seq![
                                irv(IROp::Mov, Some(r), Some(BASE_REG as int)),
                                irv(IROp::AddImm, Some(r), Some(off)),
                            ],
                        },
                        r,
                    ),
                )
            }
        },
        _ => None,
    }
}

/// Instructions that leave the value of an expression in a register:
/// the updated state and the register holding the value.
pub open spec fn sgen_expr(st: GenSt, n: NodeView) -> Option<(GenSt, int)>
    decreases n,
{
    match n {
        NodeView::Num(v) => {
            if st.regno >= usize::MAX as int || v < 0 {
                None
            } else {
                let r = st.regno;
                Some(
                    (
                        GenSt {
                            vars: st.vars,
                            regno: r + 1,
                            label: st.label,
                            code: st.code.push(irv(IROp::Imm, Some(r), Some(v))),
                        },
                        r,
                    ),
                )
            }
        },
        NodeView::Ident(_) => match sgen_lval(st, n) {
            Some((st1, a)) => {
                if st1.regno >= usize::MAX as int {
                    None
                } else {
                    let d = st1.regno;
                    Some(
                        (
                            GenSt {
                                vars: st1.vars,
                                regno: d + 1,
                                label: st1.label,
                                code: st1.code + seq![
                                    irv(IROp::Load, Some(d), Some(a)),
                                    irv(IROp::Kill, Some(a), None),
                                ],
                            },
                            d,
                        ),
                    )
                }
            },
            None => None,
        },
        NodeView::BinOp(op, ch) => {
            if ch.len() != 2 {
                None
            } else if op is Equal {
                match sgen_expr(st, ch[1]) {
                    Some((st1, v)) => match sgen_lval(st1, ch[0]) {
                        Some((st2, a)) => Some(
                            (
                                GenSt {
                                    vars: st2.vars,
                                    regno: st2.regno,
                                    label: st2.label,
                                    code: st2.code + seq![
                                        irv(IROp::Store, Some(a), Some(v)),
                                        irv(IROp::Kill, Some(v), None),
                                    ],
                                },
                                a,
                            ),
                        ),
                        None => None,
                    },
                    None => None,
                }
            } else {
                match spec_arith_op(op) {
                    Some(o) => match sgen_expr(st, ch[0]) {
                        Some((st1, l)) => match sgen_expr(st1, ch[1]) {
                            Some((st2, r)) => Some(
                                (
                                    GenSt {
                                        vars: st2.vars,
                                        regno: st2.regno,
                                        label: st2.label,
                                        code: st2.code + seq![
                                            irv(o, Some(l), Some(r)),
                                            irv(IROp::Kill, Some(r), None),
                                        ],
                                    },
                                    l,
                                ),
                            ),
                            None => None,
                        },
                        None => None,
                    },
                    None => None,
                }
            }
        },
        _ => None,
    }
}

/// Instructions of one statement.
pub open spec fn sgen_stmt(st: GenSt, n: NodeView) -> Option<GenSt>
    decreases n,
{
    match n {
        NodeView::If(ch) => {
            if ch.len() != 2 && ch.len() != 3 {
                None
            } else {
                match sgen_expr(st, ch[0]) {
                    Some((st1, r)) => {
                        if st1.label >= usize::MAX as int {
                            None
                        } else {
                            let x = st1.label;
                            let st2 = GenSt {
                                vars: st1.vars,
                                regno: st1.regno,
                                label: x + 1,
                                code: st1.code + seq![
                                    irv(IROp::Unless, Some(r), Some(x)),
                                    irv(IROp::Kill, Some(r), None),
                                ],
                            };
                            match sgen_stmt(st2, ch[1]) {
                                Some(st3) => {
                                    if ch.len() == 3 {
                                        if st3.label >= usize::MAX as int {
                                            None
                                        } else {
                                            let y = st3.label;
                                            let st4 = GenSt {
                                                vars: st3.vars,
                                                regno: st3.regno,
                                                label: y + 1,
                                                code: st3.code + seq![
                                                    irv(IROp::Jmp, Some(y), None),
                                                    irv(IROp::Label, Some(x), None),
                                                ],
                                            };
                                            match sgen_stmt(st4, ch[2]) {
                                                Some(st5) => Some(
                                                    GenSt {
                                                        vars: st5.vars,
                                                        regno: st5.regno,
                                                        label: st5.label,
                                                        code: st5.code.push(
                                                            irv(IROp::Label, Some(y), None),
                                                        ),
                                                    },
                                                ),
                                                None => None,
                                            }
                                        }
                                    } else {
                                        Some(
                                            GenSt {
                                                vars: st3.vars,
                                                regno: st3.regno,
                                                label: st3.label,
                                                code: st3.code.push(
                                                    irv(IROp::Label, Some(x), None),
                                                ),
                                            },
                                        )
                                    }
                                },
                                None => None,
                            }
                        }
                    },
                    None => None,
                }
            }
        },
        NodeView::Return(ch) => {
            if ch.len() != 1 {
                None
            } else {
                match sgen_expr(st, ch[0]) {
                    Some((st1, r)) => Some(
                        GenSt {
                            vars: st1.vars,
                            regno: st1.regno,
                            label: st1.label,
                            code: st1.code + seq![
                                irv(IROp::Return, Some(r), None),
                                irv(IROp::Kill, Some(r), None),
                            ],
                        },
                    ),
                    None => None,
                }
            }
        },
        NodeView::ExprStmt(ch) => {
            if ch.len() != 1 {
                None
            } else {
                match sgen_expr(st, ch[0]) {
                    Some((st1, r)) => Some(
                        GenSt {
                            vars: st1.vars,
                            regno: st1.regno,
                            label: st1.label,
                            code: st1.code.push(irv(IROp::Kill, Some(r), None)),
                        },
                    ),
                    None => None,
                }
            }
        },
        NodeView::CompStmt(ch) => sgen_stmts(st, ch),
        _ => None,
    }
}

/// Instructions of a run of statements, in source order.
pub open spec fn sgen_stmts(st: GenSt, ss: Seq<NodeView>) -> Option<GenSt>
    decreases ss,
{
    if ss.len() == 0 {
        Some(st)
    } else {
        match sgen_stmt(st, ss[0]) {
            Some(st1) => sgen_stmts(st1, ss.drop_first()),
            None => None,
        }
    }
}

/// The generator's starting state: the frame-reservation instruction
/// is already emitted, its size still unknown; virtual register zero
/// is the frame base, so fresh registers start at one.
pub open spec fn sgen_init() -> GenSt {
    GenSt {
        vars: Seq::empty(),
        regno: 1,
        label: 0,
        code: seq![irv(IROp::Alloca, Some(BASE_REG as int), None)],
    }
}

/// The whole intermediate sequence of a program: frame reservation
/// (patched with the final frame size once every variable is known),
/// the body, and the death of the frame base register.
pub open spec fn sgen_ir(n: NodeView) -> Option<Seq<IRView>> {
    match sgen_stmt(sgen_init(), n) {
        Some(st) => Some(
            st.code.update(
                0,
                irv(IROp::Alloca, Some(BASE_REG as int), Some(8 * st.vars.len() as int)),
            ).push(irv(IROp::Kill, Some(BASE_REG as int), None)),
        ),
        None => None,
    }
}

/// `b` begins with `a`: generation only ever appends instructions.
pub open spec fn code_extends(a: Seq<IRView>, b: Seq<IRView>) -> bool {
    a.len() <= b.len() && forall|i: int| 0 <= i < a.len() ==> a[i] == #[trigger] b[i]
}

pub proof fn lemma_sgen_expr_prefix(st: GenSt, n: NodeView)
    ensures
        sgen_lval(st, n) matches Some(p) ==> code_extends(st.code, p.0.code),
        sgen_expr(st, n) matches Some(p) ==> code_extends(st.code, p.0.code),
    decreases n,
{
    match n {
        NodeView::BinOp(op, ch) => {
            if ch.len() == 2 {
                lemma_sgen_expr_prefix(st, ch[1]);
                lemma_sgen_expr_prefix(st, ch[0]);
                if let Some((st1, _)) = sgen_expr(st, ch[1]) {
                    lemma_sgen_expr_prefix(st1, ch[0]);
                }
                if let Some((st1, _)) = sgen_expr(st, ch[0]) {
                    lemma_sgen_expr_prefix(st1, ch[1]);
                }
            }
        },
        _ => {},
    }
}

pub proof fn lemma_sgen_stmt_prefix(st: GenSt, n: NodeView)
    ensures
        sgen_stmt(st, n) matches Some(st9) ==> code_extends(st.code, st9.code),
    decreases n, 0int,
{
    match n {
        NodeView::If(ch) => {
            if ch.len() == 2 || ch.len() == 3 {
                lemma_sgen_expr_prefix(st, ch[0]);
                if let Some((st1, r)) = sgen_expr(st, ch[0]) {
                    if st1.label < usize::MAX as int {
                        let x = st1.label;
                        let st2 = GenSt {
                            vars: st1.vars,
                            regno: st1.regno,
                            label: x + 1,
                            code: st1.code + seq![
                                irv(IROp::Unless, Some(r), Some(x)),
                                irv(IROp::Kill, Some(r), None),
                            ],
                        };
                        lemma_sgen_stmt_prefix(st2, ch[1]);
                        if let Some(st3) = sgen_stmt(st2, ch[1]) {
                            if ch.len() == 3 && st3.label < usize::MAX as int {
                                let y = st3.label;
                                let st4 = GenSt {
                                    vars: st3.vars,
                                    regno: st3.regno,
                                    label: y + 1,
                                    code: st3.code + seq![
                                        irv(IROp::Jmp, Some(y), None),
                                        irv(IROp::Label, Some(x), None),
                                    ],
                                };
                                lemma_sgen_stmt_prefix(st4, ch[2]);
                            }
                        }
                    }
                }
            }
        },
        NodeView::Return(ch) => {
            if ch.len() == 1 {
                lemma_sgen_expr_prefix(st, ch[0]);
            }
        },
        NodeView::ExprStmt(ch) => {
            if ch.len() == 1 {
                lemma_sgen_expr_prefix(st, ch[0]);
            }
        },
        NodeView::CompStmt(ch) => {
            lemma_sgen_stmts_prefix(st, ch);
        },
        _ => {},
    }
}

pub proof fn lemma_sgen_stmts_prefix(st: GenSt, ss: Seq<NodeView>)
    ensures
        sgen_stmts(st, ss) matches Some(st9) ==> code_extends(st.code, st9.code),
    decreases ss, 1int,
{
    if ss.len() > 0 {
        lemma_sgen_stmt_prefix(st, ss[0]);
        if let Some(st1) = sgen_stmt(st, ss[0]) {
            lemma_sgen_stmts_prefix(st1, ss.drop_first());
        }
    }
}

/// The generator's working state: the variable table in first-use
/// order, the next fresh virtual register, and the next fresh label.
/// Each compilation owns one, created afresh by `gen_ir`.
pub struct GenContext {
    pub vars: Vec<String>,
    pub regno: usize,
    pub label: usize,
}

/// The model of a variable table.
pub open spec fn vars_view(s: Seq<String>) -> Seq<Seq<char>> {
    s.map_values(|x: String| x@)
}

/// The model of the generator's state together with the code built so
/// far.
pub open spec fn gst(ctx: GenContext, code: Seq<IR>) -> GenSt {
    GenSt {
        vars: vars_view(ctx.vars@),
        regno: ctx.regno as int,
        label: ctx.label as int,
        code: irs_view(code),
    }
}

impl GenContext {
    /// A fresh state: no variables, fresh registers from one (zero is
    /// the frame base), fresh labels from zero.
    pub fn new() -> (r: Self)
        ensures
            vars_view(r.vars@) =~= Seq::<Seq<char>>::empty(),
            r.regno == 1,
            r.label == 0,
    {
        GenContext { vars: Vec::new(), regno: 1, label: 0 }
    }
}

/// Index of `name` in the variable table, if present.
fn find_var(vars: &Vec<String>, name: &String) -> (r: Option<usize>)
    ensures
        match r {
            Some(i) => var_index_from(vars_view(vars@), name@, 0) == Some(i as int) && i
                < vars@.len(),
            None => var_index_from(vars_view(vars@), name@, 0) is None,
        },
{
    let ghost vv = vars_view(vars@);
    let mut i: usize = 0;
    while i < vars.len()
        invariant
            i <= vars@.len(),
            vv == vars_view(vars@),
            var_index_from(vv, name@, 0) == var_index_from(vv, name@, i as int),
        decreases vars@.len() - i,
    {
        if vars[i] == *name {
            return Some(i);
        }
        i = i + 1;
    }
    None
}

/// Emit the address computation for a variable used as a place; the
/// variable is added to the table at first use. The returned register
/// holds frame base plus the variable's offset.
fn gen_lval(ctx: &mut GenContext, code: &mut Vec<IR>, node: &Node) -> (r: Result<
    usize,
    CompileError,
>)
    ensures
        match r {
            Ok(reg) => sgen_lval(gst(*old(ctx), old(code)@), node@) == Some(
                (gst(*final(ctx), final(code)@), reg as int),
            ),
            Err(err) => err == CompileError::Semantic && sgen_lval(
                gst(*old(ctx), old(code)@),
                node@,
            ) is None,
        },
        8 * old(ctx).vars@.len() <= usize::MAX ==> 8 * final(ctx).vars@.len() <= usize::MAX,
{
    let ghost st0 = gst(*ctx, code@);
    let name = match &node.ty {
        NodeType::Ident(n) => n,
        _ => {
            return Err(CompileError::Semantic);
        },
    };
    if ctx.regno >= usize::MAX || ctx.vars.len() >= usize::MAX / 8 {
        return Err(CompileError::Semantic);
    }
    let off: usize = match find_var(&ctx.vars, name) {
        Some(i) => i * 8,
        None => {
            let o = ctx.vars.len() * 8;
            let owned = name.clone();
            ctx.vars.push(owned);
            proof {
                assert(vars_view(ctx.vars@) =~= st0.vars.push(name@));
            }
            o
        },
    };
    let r = ctx.regno;
    ctx.regno = r + 1;
    code.push(IR::new(IROp::Mov, Some(r), Some(BASE_REG)));
    code.push(IR::new(IROp::AddImm, Some(r), Some(off)));
    proof {
        assert(irs_view(code@) =~= st0.code + seq![
            irv(IROp::Mov, Some(r as int), Some(BASE_REG as int)),
            irv(IROp::AddImm, Some(r as int), Some(off as int)),
        ]);
    }
    Ok(r)
}

pub proof fn lemma_nodes_view_props(s: Seq<Node>)
    ensures
        nodes_view(s).len() == s.len(),
        forall|i: int| 0 <= i < s.len() ==> nodes_view(s)[i] == node_view(#[trigger] s[i]),
    decreases s.len(),
{
    if s.len() > 0 {
        lemma_nodes_view_props(s.drop_first());
        assert forall|i: int| 0 <= i < s.len() implies nodes_view(s)[i] == node_view(
            #[trigger] s[i],
        ) by {
            if i > 0 {
                assert(nodes_view(s)[i] == nodes_view(s.drop_first())[i - 1]);
                assert(s.drop_first()[i - 1] == s[i]);
            }
        }
    }
}

/// Emit the instructions that leave the value of an expression in a
/// register, returned on success.
fn gen_expr(ctx: &mut GenContext, code: &mut Vec<IR>, node: &Node) -> (r: Result<
    usize,
    CompileError,
>)
    ensures
        match r {
            Ok(reg) => sgen_expr(gst(*old(ctx), old(code)@), node@) == Some(
                (gst(*final(ctx), final(code)@), reg as int),
            ),
            Err(err) => err == CompileError::Semantic && sgen_expr(
                gst(*old(ctx), old(code)@),
                node@,
            ) is None,
        },
        8 * old(ctx).vars@.len() <= usize::MAX ==> 8 * final(ctx).vars@.len() <= usize::MAX,
    decreases *node,
{
    let ghost st0 = gst(*ctx, code@);
    match &node.ty {
        NodeType::Num(val) => {
            if ctx.regno >= usize::MAX || *val < 0 {
                return Err(CompileError::Semantic);
            }
            let r = ctx.regno;
            ctx.regno = r + 1;
            code.push(IR::new(IROp::Imm, Some(r), Some(*val as usize)));
            proof {
                assert(irs_view(code@) =~= st0.code.push(
                    irv(IROp::Imm, Some(r as int), Some(*val as int)),
                ));
            }
            Ok(r)
        },
        NodeType::Ident(_) => {
            let a = match gen_lval(ctx, code, node) {
                Ok(a) => a,
                Err(err) => {
                    return Err(err);
                },
            };
            if ctx.regno >= usize::MAX {
                return Err(CompileError::Semantic);
            }
            let ghost st1 = gst(*ctx, code@);
            let d = ctx.regno;
            ctx.regno = d + 1;
            code.push(IR::new(IROp::Load, Some(d), Some(a)));
            code.push(IR::new(IROp::Kill, Some(a), None));
            proof {
                assert(irs_view(code@) =~= st1.code + seq![
                    irv(IROp::Load, Some(d as int), Some(a as int)),
                    irv(IROp::Kill, Some(a as int), None),
                ]);
            }
            Ok(d)
        },
        NodeType::BinOp(op, lhs, rhs) => {
            proof {
                assert(node@ == NodeView::BinOp(op@, seq![node_view(**lhs), node_view(**rhs)]));
            }
            match op {
                TokenType::Equal => {
                    let v = match gen_expr(ctx, code, &**rhs) {
                        Ok(v) => v,
                        Err(err) => {
                            return Err(err);
                        },
                    };
                    let a = match gen_lval(ctx, code, &**lhs) {
                        Ok(a) => a,
                        Err(err) => {
                            return Err(err);
                        },
                    };
                    let ghost st2 = gst(*ctx, code@);
                    code.push(IR::new(IROp::Store, Some(a), Some(v)));
                    code.push(IR::new(IROp::Kill, Some(v), None));
                    proof {
                        assert(irs_view(code@) =~= st2.code + seq![
                            irv(IROp::Store, Some(a as int), Some(v as int)),
                            irv(IROp::Kill, Some(v as int), None),
                        ]);
                    }
                    Ok(a)
                },
                _ => {
                    let o = match op {
                        TokenType::Plus => IROp::Add,
                        TokenType::Minus => IROp::Sub,
                        TokenType::Mul => IROp::Mul,
                        TokenType::Div => IROp::Div,
                        _ => {
                            return Err(CompileError::Semantic);
                        },
                    };
                    let l = match gen_expr(ctx, code, &**lhs) {
                        Ok(l) => l,
                        Err(err) => {
                            return Err(err);
                        },
                    };
                    let rr = match gen_expr(ctx, code, &**rhs) {
                        Ok(rr) => rr,
                        Err(err) => {
                            return Err(err);
                        },
                    };
                    let ghost st2 = gst(*ctx, code@);
                    code.push(IR::new(o, Some(l), Some(rr)));
                    code.push(IR::new(IROp::Kill, Some(rr), None));
                    proof {
                        assert(irs_view(code@) =~= st2.code + seq![
                            irv(o, Some(l as int), Some(rr as int)),
                            irv(IROp::Kill, Some(rr as int), None),
                        ]);
                    }
                    Ok(l)
                },
            }
        },
        _ => Err(CompileError::Semantic),
    }
}

/// Emit the instructions of one statement.
#[verifier::rlimit(80)]
fn gen_stmt(ctx: &mut GenContext, code: &mut Vec<IR>, node: &Node) -> (r: Result<
    (),
    CompileError,
>)
    ensures
        match r {
            Ok(()) => sgen_stmt(gst(*old(ctx), old(code)@), node@) == Some(
                gst(*final(ctx), final(code)@),
            ),
            Err(err) => err == CompileError::Semantic && sgen_stmt(
                gst(*old(ctx), old(code)@),
                node@,
            ) is None,
        },
        8 * old(ctx).vars@.len() <= usize::MAX ==> 8 * final(ctx).vars@.len() <= usize::MAX,
    decreases *node,
{
    let ghost st0 = gst(*ctx, code@);
    match &node.ty {
        NodeType::If(cond, then, els_may) => {
            let r = match gen_expr(ctx, code, &**cond) {
                Ok(r) => r,
                Err(err) => {
                    return Err(err);
                },
            };
            if ctx.label >= usize::MAX {
                return Err(CompileError::Semantic);
            }
            let ghost st1 = gst(*ctx, code@);
            let x = ctx.label;
            ctx.label = x + 1;
            code.push(IR::new(IROp::Unless, Some(r), Some(x)));
            code.push(IR::new(IROp::Kill, Some(r), None));
            proof {
                assert(irs_view(code@) =~= st1.code + seq![
                    irv(IROp::Unless, Some(r as int), Some(x as int)),
                    irv(IROp::Kill, Some(r as int), None),
                ]);
            }
            match gen_stmt(ctx, code, &**then) {
                Ok(()) => {},
                Err(err) => {
                    return Err(err);
                },
            }
            match els_may {
                Some(els) => {
                    if ctx.label >= usize::MAX {
                        return Err(CompileError::Semantic);
                    }
                    let ghost st3 = gst(*ctx, code@);
                    let y = ctx.label;
                    ctx.label = y + 1;
                    code.push(IR::new(IROp::Jmp, Some(y), None));
                    code.push(IR::new(IROp::Label, Some(x), None));
                    proof {
                        assert(irs_view(code@) =~= st3.code + seq![
                            irv(IROp::Jmp, Some(y as int), None),
                            irv(IROp::Label, Some(x as int), None),
                        ]);
                    }
                    match gen_stmt(ctx, code, &**els) {
                        Ok(()) => {},
                        Err(err) => {
                            return Err(err);
                        },
                    }
                    let ghost st5 = gst(*ctx, code@);
                    code.push(IR::new(IROp::Label, Some(y), None));
                    proof {
                        assert(irs_view(code@) =~= st5.code.push(
                            irv(IROp::Label, Some(y as int), None),
                        ));
                    }
                    Ok(())
                },
                None => {
                    let ghost st3 = gst(*ctx, code@);
                    code.push(IR::new(IROp::Label, Some(x), None));
                    proof {
                        assert(irs_view(code@) =~= st3.code.push(
                            irv(IROp::Label, Some(x as int), None),
                        ));
                    }
                    Ok(())
                },
            }
        },
        NodeType::Return(e) => {
            let r = match gen_expr(ctx, code, &**e) {
                Ok(r) => r,
                Err(err) => {
                    return Err(err);
                },
            };
            let ghost st1 = gst(*ctx, code@);
            code.push(IR::new(IROp::Return, Some(r), None));
            code.push(IR::new(IROp::Kill, Some(r), None));
            proof {
                assert(irs_view(code@) =~= st1.code + seq![
                    irv(IROp::Return, Some(r as int), None),
                    irv(IROp::Kill, Some(r as int), None),
                ]);
            }
            Ok(())
        },
        NodeType::ExprStmt(e) => {
            let r = match gen_expr(ctx, code, &**e) {
                Ok(r) => r,
                Err(err) => {
                    return Err(err);
                },
            };
            let ghost st1 = gst(*ctx, code@);
            code.push(IR::new(IROp::Kill, Some(r), None));
            proof {
                assert(irs_view(code@) =~= st1.code.push(irv(IROp::Kill, Some(r as int), None)));
            }
            Ok(())
        },
        NodeType::CompStmt(stmts) => {
            let ghost ssv = nodes_view(stmts@);
            proof {
                lemma_nodes_view_props(stmts@);
                assert(ssv.skip(0) =~= ssv);
            }
            let mut i: usize = 0;
            #[verifier::loop_isolation(false)]
            while i < stmts.len()
                invariant
                    i <= stmts@.len(),
                    ssv == nodes_view(stmts@),
                    ssv.len() == stmts@.len(),
                    forall|k: int|
                        0 <= k < stmts@.len() ==> ssv[k] == node_view(#[trigger] stmts@[k]),
                    sgen_stmts(st0, ssv) == sgen_stmts(gst(*ctx, code@), ssv.skip(i as int)),
                    8 * st0.vars.len() <= usize::MAX ==> 8 * ctx.vars@.len() <= usize::MAX,
                decreases stmts@.len() - i,
            {
                let ghost stc = gst(*ctx, code@);
                proof {
                    assert(ssv.skip(i as int)[0] == ssv[i as int]);
                    assert(ssv.skip(i as int).drop_first() =~= ssv.skip(i as int + 1));
                    assert(decreases_to!(*node => node.ty));
                    assert(decreases_to!(node.ty => node.ty->CompStmt_0));
                    assert(decreases_to!(node.ty->CompStmt_0 => node.ty->CompStmt_0@));
                    assert(decreases_to!(node.ty->CompStmt_0@ => node.ty->CompStmt_0@[i as int]));
                    assert(node.ty->CompStmt_0@[i as int] == stmts@[i as int]);
                }
                match gen_stmt(ctx, code, &stmts[i]) {
                    Ok(()) => {},
                    Err(err) => {
                        proof {
                            assert(sgen_stmt(stc, ssv[i as int]) is None);
                            assert(sgen_stmts(stc, ssv.skip(i as int)) is None);
                            assert(sgen_stmts(st0, ssv) is None);
                        }
                        return Err(err);
                    },
                }
                i = i + 1;
            }
            proof {
                assert(sgen_stmts(gst(*ctx, code@), ssv.skip(i as int)) == Some(
                    gst(*ctx, code@),
                ));
            }
            Ok(())
        },
        _ => Err(CompileError::Semantic),
    }
}

/// Lower a syntax tree to the intermediate sequence: frame
/// reservation, the body, and the death of the frame base register.
/// Each call owns a fresh generation state, so the same tree always
/// yields the same sequence.
pub fn gen_ir(node: &Node) -> (r: Result<Vec<IR>, CompileError>)
    ensures
        match r {
            Ok(out) => sgen_ir(node@) == Some(irs_view(out@)),
            Err(err) => err == CompileError::Semantic && sgen_ir(node@) is None,
        },
{
    let mut ctx = GenContext::new();
    let mut code: Vec<IR> = Vec::new();
    code.push(IR::new(IROp::Alloca, Some(BASE_REG), None));
    proof {
        assert(gst(ctx, code@).vars =~= sgen_init().vars);
        assert(gst(ctx, code@).code =~= sgen_init().code);
        assert(gst(ctx, code@) == sgen_init());
    }
    match gen_stmt(&mut ctx, &mut code, node) {
        Ok(()) => {},
        Err(err) => {
            return Err(err);
        },
    }
    let ghost st = gst(ctx, code@);
    proof {
        lemma_sgen_stmt_prefix(sgen_init(), node@);
        assert(st.code.len() >= 1);
    }
    let bpoff = ctx.vars.len() * 8;
    code[0] = IR::new(IROp::Alloca, Some(BASE_REG), Some(bpoff));
    code.push(IR::new(IROp::Kill, Some(BASE_REG), None));
    proof {
        assert(irs_view(code@) =~= st.code.update(
            0,
            irv(IROp::Alloca, Some(BASE_REG as int), Some(8 * st.vars.len() as int)),
        ).push(irv(IROp::Kill, Some(BASE_REG as int), None)));
    }
    Ok(code)
}

} // verus!
