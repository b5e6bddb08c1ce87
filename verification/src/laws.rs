use crate::codegen::spec_gen_x86;
use crate::ir::{
    code_extends, irv, lemma_sgen_expr_prefix, lemma_sgen_stmt_prefix, lemma_sgen_stmts_prefix,
    sgen_expr, sgen_init, sgen_ir, sgen_lval, sgen_stmt, sgen_stmts, spec_ir_ty, GenSt, IROp,
    IRType, IRView,
};
use crate::parse::NodeView;
use crate::regalloc::{first_free, spec_alloc, spec_alloc_regs, spec_kill, AllocSt};
use vstd::prelude::*;

verus! {

/// Whether an instruction reads or writes virtual register `q`: the
/// operand slots that its shape declares as registers.
pub open spec fn uses_reg(ir: IRView, q: int) -> bool {
    match spec_ir_ty(ir.op) {
        IRType::Reg | IRType::RegImm | IRType::RegLabel => ir.lhs == Some(q),
        IRType::RegReg => ir.lhs == Some(q) || ir.rhs == Some(q),
        IRType::Label | IRType::NoArg => false,
    }
}

/// Whether an instruction ends the lifetime of register `q`.
pub open spec fn is_kill(ir: IRView, q: int) -> bool {
    ir.op == IROp::Kill && ir.lhs == Some(q)
}

/// Whether an instruction defines jump target `x`.
pub open spec fn is_label_def(ir: IRView, x: int) -> bool {
    ir.op == IROp::Label && ir.lhs == Some(x)
}

/// Within `c[lo..hi]`, every register read or written is the frame
/// base or lies in `[r0, r1)`.
pub open spec fn seg_uses_in(c: Seq<IRView>, lo: int, hi: int, r0: int, r1: int) -> bool {
    forall|k: int, q: int|
        #![trigger uses_reg(c[k], q)]
        lo <= k < hi && k < c.len() && uses_reg(c[k], q) ==> q == 0 || r0 <= q < r1
}

/// Within `c[lo..hi]`, every killed register lies in `[r0, r1)`.
pub open spec fn seg_kills_in(c: Seq<IRView>, lo: int, hi: int, r0: int, r1: int) -> bool {
    forall|k: int, q: int|
        #![trigger is_kill(c[k], q)]
        lo <= k < hi && k < c.len() && is_kill(c[k], q) ==> r0 <= q < r1
}

/// Within `c[lo..hi]`, register `r` is never killed.
pub open spec fn seg_kills_avoid(c: Seq<IRView>, lo: int, hi: int, r: int) -> bool {
    forall|k: int, q: int|
        #![trigger is_kill(c[k], q)]
        lo <= k < hi && k < c.len() && is_kill(c[k], q) ==> q != r
}

/// Within `c[lo..hi]`, no register is read or written after the
/// instruction that kills it.
pub open spec fn seg_no_use_after_kill(c: Seq<IRView>, lo: int, hi: int) -> bool {
    forall|k1: int, k2: int, q: int|
        #![trigger is_kill(c[k1], q), uses_reg(c[k2], q)]
        lo <= k1 < k2 < hi && k2 < c.len() && is_kill(c[k1], q) ==> !uses_reg(c[k2], q)
}

/// Within `c[lo..hi]`, no jump target is defined.
pub open spec fn seg_no_label(c: Seq<IRView>, lo: int, hi: int) -> bool {
    forall|k: int| lo <= k < hi && k < c.len() ==> (#[trigger] c[k]).op != IROp::Label
}

/// Within `c[lo..hi]`, every defined jump target lies in `[l0, l1)`.
pub open spec fn seg_label_defs_in(c: Seq<IRView>, lo: int, hi: int, l0: int, l1: int) -> bool {
    forall|k: int, x: int|
        #![trigger is_label_def(c[k], x)]
        lo <= k < hi && k < c.len() && is_label_def(c[k], x) ==> l0 <= x < l1
}

/// Within `c[lo..hi]`, no jump target is defined twice.
pub open spec fn seg_label_defs_unique(c: Seq<IRView>, lo: int, hi: int) -> bool {
    forall|k1: int, k2: int, x: int|
        #![trigger is_label_def(c[k1], x), is_label_def(c[k2], x)]
        lo <= k1 < k2 < hi && k2 < c.len() && is_label_def(c[k1], x) ==> !is_label_def(c[k2], x)
}

/// Segment facts carry from a sequence to any extension of it.
pub proof fn lemma_seg_transfer(
    c1: Seq<IRView>,
    c2: Seq<IRView>,
    lo: int,
    hi: int,
    r0: int,
    r1: int,
    res: int,
    l0: int,
    l1: int,
)
    requires
        code_extends(c1, c2),
        0 <= lo,
        hi <= c1.len(),
    ensures
        seg_uses_in(c1, lo, hi, r0, r1) ==> seg_uses_in(c2, lo, hi, r0, r1),
        seg_kills_in(c1, lo, hi, r0, r1) ==> seg_kills_in(c2, lo, hi, r0, r1),
        seg_kills_avoid(c1, lo, hi, res) ==> seg_kills_avoid(c2, lo, hi, res),
        seg_no_use_after_kill(c1, lo, hi) ==> seg_no_use_after_kill(c2, lo, hi),
        seg_no_label(c1, lo, hi) ==> seg_no_label(c2, lo, hi),
        seg_label_defs_in(c1, lo, hi, l0, l1) ==> seg_label_defs_in(c2, lo, hi, l0, l1),
        seg_label_defs_unique(c1, lo, hi) ==> seg_label_defs_unique(c2, lo, hi),
{
    assert forall|k: int| lo <= k < hi implies #[trigger] c2[k] == c1[k] by {}
    if seg_uses_in(c1, lo, hi, r0, r1) {
        assert forall|k: int, q: int|
            lo <= k < hi && k < c2.len() && #[trigger] uses_reg(c2[k], q) implies (q == 0 || r0
            <= q < r1) by {
            assert(uses_reg(c1[k], q));
        }
    }
    if seg_kills_in(c1, lo, hi, r0, r1) {
        assert forall|k: int, q: int|
            lo <= k < hi && k < c2.len() && #[trigger] is_kill(c2[k], q) implies (r0 <= q < r1) by {
            assert(is_kill(c1[k], q));
        }
    }
    if seg_kills_avoid(c1, lo, hi, res) {
        assert forall|k: int, q: int|
            lo <= k < hi && k < c2.len() && #[trigger] is_kill(c2[k], q) implies q != res by {
            assert(is_kill(c1[k], q));
        }
    }
    if seg_no_use_after_kill(c1, lo, hi) {
        assert forall|k1: int, k2: int, q: int|
            lo <= k1 < k2 < hi && k2 < c2.len() && #[trigger] is_kill(c2[k1], q) implies !(
        #[trigger] uses_reg(c2[k2], q)) by {
            assert(is_kill(c1[k1], q));
            assert(!uses_reg(c1[k2], q));
        }
    }
    if seg_no_label(c1, lo, hi) {
        assert forall|k: int| lo <= k < hi && k < c2.len() implies (#[trigger] c2[k]).op
            != IROp::Label by {
            assert(c2[k] == c1[k]);
        }
    }
    if seg_label_defs_in(c1, lo, hi, l0, l1) {
        assert forall|k: int, x: int|
            lo <= k < hi && k < c2.len() && #[trigger] is_label_def(c2[k], x) implies (l0 <= x
            < l1) by {
            assert(is_label_def(c1[k], x));
        }
    }
    if seg_label_defs_unique(c1, lo, hi) {
        assert forall|k1: int, k2: int, x: int|
            lo <= k1 < k2 < hi && k2 < c2.len() && #[trigger] is_label_def(c2[k1], x) implies !(
        #[trigger] is_label_def(c2[k2], x)) by {
            assert(is_label_def(c1[k1], x));
            assert(!is_label_def(c1[k2], x));
        }
    }
}

/// Adjacent segments whose register ranges are ordered compose: what
/// the left segment kills is fresh there and never touched by the
/// right segment.
pub proof fn lemma_seg_compose(
    c: Seq<IRView>,
    lo: int,
    mid: int,
    hi: int,
    a0: int,
    a1: int,
    b0: int,
    b1: int,
)
    requires
        lo <= mid <= hi,
        1 <= a0 <= b0,
        a1 <= b0,
        a1 <= b1,
        a0 <= a1,
        b0 <= b1,
        seg_uses_in(c, lo, mid, a0, a1),
        seg_uses_in(c, mid, hi, b0, b1),
        seg_kills_in(c, lo, mid, a0, a1),
        seg_kills_in(c, mid, hi, b0, b1),
        seg_no_use_after_kill(c, lo, mid),
        seg_no_use_after_kill(c, mid, hi),
    ensures
        seg_uses_in(c, lo, hi, a0, b1),
        seg_kills_in(c, lo, hi, a0, b1),
        seg_no_use_after_kill(c, lo, hi),
{
    assert forall|k: int, q: int|
        lo <= k < hi && k < c.len() && #[trigger] uses_reg(c[k], q) implies (q == 0 || a0 <= q
        < b1) by {}
    assert forall|k: int, q: int|
        lo <= k < hi && k < c.len() && #[trigger] is_kill(c[k], q) implies (a0 <= q < b1) by {}
    assert forall|k1: int, k2: int, q: int|
        lo <= k1 < k2 < hi && k2 < c.len() && #[trigger] is_kill(c[k1], q) implies !(
    #[trigger] uses_reg(c[k2], q)) by {
        if k1 < mid && k2 >= mid {
            assert(a0 <= q < a1);
            if uses_reg(c[k2], q) {
                assert(q == 0 || b0 <= q < b1);
            }
        }
    }
}

/// What generation of an expression guarantees of the instructions it
/// appends: the result is a fresh register, every register touched is
/// the frame base or fresh, only fresh registers other than the
/// result die, nothing is touched after it dies, and no jump target
/// is defined.
pub open spec fn expr_seg_ok(st: GenSt, st1: GenSt, res: int) -> bool {
    let lo = st.code.len() as int;
    let hi = st1.code.len() as int;
    &&& st.regno <= res < st1.regno
    &&& st.label == st1.label
    &&& code_extends(st.code, st1.code)
    &&& seg_uses_in(st1.code, lo, hi, st.regno, st1.regno)
    &&& seg_kills_in(st1.code, lo, hi, st.regno, st1.regno)
    &&& seg_kills_avoid(st1.code, lo, hi, res)
    &&& seg_no_use_after_kill(st1.code, lo, hi)
    &&& seg_no_label(st1.code, lo, hi)
}

/// Every register an expression's code touches is the frame base or
/// one created for it; only registers created for it, other than its
/// result, die in it; none is touched after it dies.
#[verifier::rlimit(100)]
pub proof fn lemma_sgen_expr_seg(st: GenSt, n: NodeView)
    requires
        st.regno >= 1,
    ensures
        sgen_expr(st, n) matches Some(p) ==> expr_seg_ok(st, p.0, p.1),
    decreases n,
{
    match n {
        NodeView::Num(v) => {
            if let Some((st1, r)) = sgen_expr(st, n) {
                let lo = st.code.len() as int;
                let hi = st1.code.len() as int;
                assert(hi == lo + 1);
                assert(st1.code[lo].op == IROp::Imm && st1.code[lo].lhs == Some(r));
                assert forall|k: int, q: int|
                    lo <= k < hi && k < st1.code.len() && #[trigger] uses_reg(st1.code[k], q)
                    implies (q == 0 || st.regno <= q < st1.regno) by {
                    assert(k == lo);
                }
                assert forall|k: int, q: int|
                    lo <= k < hi && k < st1.code.len() implies !#[trigger] is_kill(
                    st1.code[k],
                    q,
                ) by {
                    assert(k == lo);
                }
                assert(seg_no_use_after_kill(st1.code, lo, hi));
            }
        },
        NodeView::Ident(_) => {
            lemma_sgen_lval_seg(st, n);
            if let Some((stl, a)) = sgen_lval(st, n) {
                if let Some((st1, d)) = sgen_expr(st, n) {
                    let lo = st.code.len() as int;
                    let m = stl.code.len() as int;
                    let hi = st1.code.len() as int;
                    assert(hi == m + 2);
                    assert(d == stl.regno);
                    lemma_seg_transfer(stl.code, st1.code, lo, m, st.regno, stl.regno, a, 0, 0);
                    assert(st1.code[m].op == IROp::Load && st1.code[m].lhs == Some(d)
                        && st1.code[m].rhs == Some(a));
                    assert(st1.code[m + 1].op == IROp::Kill && st1.code[m + 1].lhs == Some(a));
                    assert forall|k: int, q: int|
                        lo <= k < hi && k < st1.code.len() && #[trigger] uses_reg(st1.code[k], q)
                        implies (q == 0 || st.regno <= q < st1.regno) by {
                        if k >= m {
                            assert(k == m || k == m + 1);
                        }
                    }
                    assert forall|k: int, q: int|
                        lo <= k < hi && k < st1.code.len() && #[trigger] is_kill(st1.code[k], q)
                        implies (st.regno <= q < st1.regno && q != d) by {
                        if k >= m {
                            assert(k == m || k == m + 1);
                        }
                    }
                    assert forall|k1: int, k2: int, q: int|
                        lo <= k1 < k2 < hi && k2 < st1.code.len() && #[trigger] is_kill(
                        st1.code[k1],
                        q,
                    ) implies !#[trigger] uses_reg(st1.code[k2], q) by {
                        if k1 < m {
                            assert(st.regno <= q < stl.regno && q != a);
                            if k2 >= m {
                                assert(k2 == m || k2 == m + 1);
                            }
                        } else {
                            assert(k1 == m || k1 == m + 1);
                            assert(k1 == m + 1);
                            assert(false);
                        }
                    }
                    assert(seg_no_label(st1.code, lo, hi));
                }
            }
        },
        NodeView::BinOp(op, ch) => {
            if ch.len() == 2 {
                if op is Equal {
                    lemma_sgen_expr_seg(st, ch[1]);
                    if let Some((sta, v)) = sgen_expr(st, ch[1]) {
                        lemma_sgen_lval_seg(sta, ch[0]);
                        if let Some((stb, a)) = sgen_lval(sta, ch[0]) {
                            if let Some((st1, res)) = sgen_expr(st, n) {
                                let lo = st.code.len() as int;
                                let m1 = sta.code.len() as int;
                                let m2 = stb.code.len() as int;
                                let hi = st1.code.len() as int;
                                assert(res == a);
                                assert(hi == m2 + 2);
                                lemma_seg_transfer(
                                    sta.code,
                                    stb.code,
                                    lo,
                                    m1,
                                    st.regno,
                                    sta.regno,
                                    v,
                                    0,
                                    0,
                                );
                                lemma_seg_transfer(
                                    stb.code,
                                    st1.code,
                                    lo,
                                    m2,
                                    st.regno,
                                    stb.regno,
                                    v,
                                    0,
                                    0,
                                );
                                lemma_seg_transfer(
                                    stb.code,
                                    st1.code,
                                    lo,
                                    m1,
                                    st.regno,
                                    sta.regno,
                                    v,
                                    0,
                                    0,
                                );
                                lemma_seg_transfer(
                                    stb.code,
                                    st1.code,
                                    m1,
                                    m2,
                                    sta.regno,
                                    stb.regno,
                                    a,
                                    0,
                                    0,
                                );
                                assert(st1.code[m2].op == IROp::Store && st1.code[m2].lhs == Some(
                                    a,
                                ) && st1.code[m2].rhs == Some(v));
                                assert(st1.code[m2 + 1].op == IROp::Kill && st1.code[m2 + 1].lhs
                                    == Some(v));
                                lemma_seg_compose(
                                    st1.code,
                                    lo,
                                    m1,
                                    m2,
                                    st.regno,
                                    sta.regno,
                                    sta.regno,
                                    stb.regno,
                                );
                                assert forall|k: int, q: int|
                                    lo <= k < hi && k < st1.code.len() && #[trigger] uses_reg(
                                        st1.code[k],
                                        q,
                                    ) implies (q == 0 || st.regno <= q < st1.regno) by {
                                    if k >= m2 {
                                        assert(k == m2 || k == m2 + 1);
                                    }
                                }
                                assert forall|k: int, q: int|
                                    lo <= k < hi && k < st1.code.len() && #[trigger] is_kill(
                                        st1.code[k],
                                        q,
                                    ) implies (st.regno <= q < st1.regno && q != res) by {
                                    if k >= m2 {
                                        assert(k == m2 || k == m2 + 1);
                                    } else if k >= m1 {
                                        assert(sta.regno <= q < stb.regno);
                                    } else {
                                        assert(st.regno <= q < sta.regno);
                                        assert(a >= sta.regno);
                                    }
                                }
                                assert forall|k1: int, k2: int, q: int|
                                    lo <= k1 < k2 < hi && k2 < st1.code.len() && #[trigger] is_kill(
                                        st1.code[k1],
                                        q,
                                    ) implies !#[trigger] uses_reg(st1.code[k2], q) by {
                                    if k1 < m2 && k2 < m2 {
                                        assert(seg_no_use_after_kill(st1.code, lo, m2));
                                    } else if k1 < m2 {
                                        assert(k2 == m2 || k2 == m2 + 1);
                                        if k1 < m1 {
                                            assert(st.regno <= q < sta.regno && q != v);
                                            assert(a >= sta.regno);
                                        } else {
                                            assert(sta.regno <= q < stb.regno && q != a);
                                            assert(v < sta.regno);
                                        }
                                    } else {
                                        assert(k1 == m2 || k1 == m2 + 1);
                                        assert(k1 == m2 + 1);
                                        assert(false);
                                    }
                                }
                                assert(seg_no_label(st1.code, lo, hi));
                            }
                        }
                    }
                } else {
                    lemma_sgen_expr_seg(st, ch[0]);
                    if let Some((sta, l)) = sgen_expr(st, ch[0]) {
                        lemma_sgen_expr_seg(sta, ch[1]);
                        if let Some((stb, rr)) = sgen_expr(sta, ch[1]) {
                            if let Some((st1, res)) = sgen_expr(st, n) {
                                let lo = st.code.len() as int;
                                let m1 = sta.code.len() as int;
                                let m2 = stb.code.len() as int;
                                let hi = st1.code.len() as int;
                                assert(res == l);
                                assert(hi == m2 + 2);
                                lemma_seg_transfer(
                                    sta.code,
                                    stb.code,
                                    lo,
                                    m1,
                                    st.regno,
                                    sta.regno,
                                    l,
                                    0,
                                    0,
                                );
                                lemma_seg_transfer(
                                    stb.code,
                                    st1.code,
                                    lo,
                                    m1,
                                    st.regno,
                                    sta.regno,
                                    l,
                                    0,
                                    0,
                                );
                                lemma_seg_transfer(
                                    stb.code,
                                    st1.code,
                                    m1,
                                    m2,
                                    sta.regno,
                                    stb.regno,
                                    rr,
                                    0,
                                    0,
                                );
                                assert(spec_ir_ty(st1.code[m2].op) == IRType::RegReg
                                    && st1.code[m2].op != IROp::Kill && st1.code[m2].op
                                    != IROp::Label && st1.code[m2].lhs == Some(l)
                                    && st1.code[m2].rhs == Some(rr));
                                assert(st1.code[m2 + 1].op == IROp::Kill && st1.code[m2 + 1].lhs
                                    == Some(rr));
                                lemma_seg_compose(
                                    st1.code,
                                    lo,
                                    m1,
                                    m2,
                                    st.regno,
                                    sta.regno,
                                    sta.regno,
                                    stb.regno,
                                );
                                assert forall|k: int, q: int|
                                    lo <= k < hi && k < st1.code.len() && #[trigger] uses_reg(
                                        st1.code[k],
                                        q,
                                    ) implies (q == 0 || st.regno <= q < st1.regno) by {
                                    if k >= m2 {
                                        assert(k == m2 || k == m2 + 1);
                                    }
                                }
                                assert forall|k: int, q: int|
                                    lo <= k < hi && k < st1.code.len() && #[trigger] is_kill(
                                        st1.code[k],
                                        q,
                                    ) implies (st.regno <= q < st1.regno && q != res) by {
                                    if k >= m2 {
                                        assert(k == m2 || k == m2 + 1);
                                        assert(rr >= sta.regno && res < sta.regno);
                                    } else if k >= m1 {
                                        assert(sta.regno <= q < stb.regno);
                                        assert(res < sta.regno);
                                    } else {
                                        assert(st.regno <= q < sta.regno && q != l);
                                    }
                                }
                                assert forall|k1: int, k2: int, q: int|
                                    lo <= k1 < k2 < hi && k2 < st1.code.len() && #[trigger] is_kill(
                                        st1.code[k1],
                                        q,
                                    ) implies !#[trigger] uses_reg(st1.code[k2], q) by {
                                    if k1 < m2 && k2 < m2 {
                                        assert(seg_no_use_after_kill(st1.code, lo, m2));
                                    } else if k1 < m2 {
                                        assert(k2 == m2 || k2 == m2 + 1);
                                        if k1 < m1 {
                                            assert(st.regno <= q < sta.regno && q != l);
                                            assert(rr >= sta.regno);
                                        } else {
                                            assert(sta.regno <= q < stb.regno && q != rr);
                                            assert(l < sta.regno);
                                        }
                                    } else {
                                        assert(k1 == m2 || k1 == m2 + 1);
                                        assert(k1 == m2 + 1);
                                        assert(false);
                                    }
                                }
                                assert(seg_no_label(st1.code, lo, hi));
                            }
                        }
                    }
                }
            }
        },
        _ => {},
    }
}

pub proof fn lemma_extends_trans(a: Seq<IRView>, b: Seq<IRView>, c: Seq<IRView>)
    requires
        code_extends(a, b),
        code_extends(b, c),
    ensures
        code_extends(a, c),
{
    assert forall|i: int| 0 <= i < a.len() implies a[i] == #[trigger] c[i] by {
        assert(b[i] == a[i]);
    }
}

/// The conditional case of the statement guarantee.
#[verifier::rlimit(100)]
pub proof fn lemma_sgen_if_seg(st: GenSt, n: NodeView)
    requires
        st.regno >= 1,
        n is If,
        n->If_0.len() == 2 || n->If_0.len() == 3,
    ensures
        sgen_stmt(st, n) matches Some(st9) ==> stmt_seg_ok(st, st9),
    decreases n, 0int,
{
    let ch = n->If_0;
    lemma_sgen_expr_seg(st, ch[0]);
    if let Some(st9) = sgen_stmt(st, n) {
        let (sta, r) = sgen_expr(st, ch[0]).unwrap();
        let x = sta.label;
        let st2 = GenSt {
            vars: sta.vars,
            regno: sta.regno,
            label: x + 1,
            code: sta.code + seq![
                irv(IROp::Unless, Some(r), Some(x)),
                irv(IROp::Kill, Some(r), None),
            ],
        };
        lemma_sgen_stmt_seg(st2, ch[1]);
        let st3 = sgen_stmt(st2, ch[1]).unwrap();
        let lo = st.code.len() as int;
        let m1 = sta.code.len() as int;
        let m2 = st3.code.len() as int;
        assert(code_extends(sta.code, st2.code));
        assert(x == st.label);
        if ch.len() == 2 {
            // one branch: condition, branch over it, the body, the join target
            assert(st9.code == st3.code.push(irv(IROp::Label, Some(x), None)));
            let hi = st9.code.len() as int;
            assert(hi == m2 + 1);
            assert(code_extends(st3.code, st9.code));
            lemma_extends_trans(sta.code, st2.code, st3.code);
            lemma_extends_trans(sta.code, st3.code, st9.code);
            lemma_extends_trans(st2.code, st3.code, st9.code);
            lemma_seg_transfer(sta.code, st9.code, lo, m1, st.regno, sta.regno, r, 0, 0);
            lemma_seg_transfer(
                st3.code,
                st9.code,
                m1 + 2,
                m2,
                st2.regno,
                st3.regno,
                0,
                st2.label,
                st3.label,
            );
            assert(st9.code[m1].op == IROp::Unless && st9.code[m1].lhs == Some(r));
            assert(st9.code[m1 + 1].op == IROp::Kill && st9.code[m1 + 1].lhs == Some(r));
            assert(st9.code[m2].op == IROp::Label && st9.code[m2].lhs == Some(x));
            // the condition's code with the branch and kill after it
            assert forall|k: int, q: int|
                lo <= k < m1 + 2 && k < st9.code.len() && #[trigger] uses_reg(st9.code[k], q)
                implies (q == 0 || st.regno <= q < sta.regno) by {
                if k >= m1 {
                    assert(k == m1 || k == m1 + 1);
                }
            }
            assert forall|k: int, q: int|
                lo <= k < m1 + 2 && k < st9.code.len() && #[trigger] is_kill(st9.code[k], q)
                implies (st.regno <= q < sta.regno) by {
                if k >= m1 {
                    assert(k == m1 || k == m1 + 1);
                }
            }
            assert forall|k1: int, k2: int, q: int|
                lo <= k1 < k2 < m1 + 2 && k2 < st9.code.len() && #[trigger] is_kill(
                    st9.code[k1],
                    q,
                ) implies !#[trigger] uses_reg(st9.code[k2], q) by {
                if k1 < m1 {
                    assert(st.regno <= q < sta.regno && q != r);
                    if k2 >= m1 {
                        assert(k2 == m1 || k2 == m1 + 1);
                    }
                } else {
                    assert(k1 == m1 || k1 == m1 + 1);
                    assert(!is_kill(st9.code[m1], q));
                    assert(k1 == m1 + 1 && k2 >= m1 + 2);
                    assert(false);
                }
            }
            lemma_seg_compose(
                st9.code,
                lo,
                m1 + 2,
                m2,
                st.regno,
                sta.regno,
                st2.regno,
                st3.regno,
            );
            // the join target ends the statement
            assert forall|k: int, q: int|
                lo <= k < hi && k < st9.code.len() && #[trigger] uses_reg(st9.code[k], q) implies (
            q == 0 || st.regno <= q < st9.regno) by {
                if k == m2 {
                    assert(!uses_reg(st9.code[k], q));
                }
            }
            assert forall|k: int, q: int|
                lo <= k < hi && k < st9.code.len() && #[trigger] is_kill(st9.code[k], q) implies (
            st.regno <= q < st9.regno) by {
                if k == m2 {
                    assert(!is_kill(st9.code[k], q));
                }
            }
            assert forall|k1: int, k2: int, q: int|
                lo <= k1 < k2 < hi && k2 < st9.code.len() && #[trigger] is_kill(st9.code[k1], q)
                implies !#[trigger] uses_reg(st9.code[k2], q) by {
                assert(!is_kill(st9.code[m2], q));
                if k2 == m2 {
                    assert(!uses_reg(st9.code[k2], q));
                }
            }
            // jump targets: the body's lie past x, the join defines x once
            assert forall|k: int, y: int|
                lo <= k < hi && k < st9.code.len() && #[trigger] is_label_def(st9.code[k], y)
                implies (st.label <= y < st9.label && (k < m2 ==> x + 1 <= y)) by {
                if k < m1 {
                    assert(st9.code[k].op != IROp::Label);
                } else if k < m1 + 2 {
                    assert(k == m1 || k == m1 + 1);
                } else if k < m2 {
                    assert(st2.label <= y < st3.label);
                } else {
                    assert(k == m2);
                }
            }
            assert forall|k1: int, k2: int, y: int|
                lo <= k1 < k2 < hi && k2 < st9.code.len() && #[trigger] is_label_def(
                    st9.code[k1],
                    y,
                ) implies !#[trigger] is_label_def(st9.code[k2], y) by {
                if k1 < m1 + 2 {
                    if k1 < m1 {
                        assert(st9.code[k1].op != IROp::Label);
                    } else {
                        assert(k1 == m1 || k1 == m1 + 1);
                    }
                    assert(false);
                } else if k1 < m2 {
                    assert(st2.label <= y < st3.label);
                    if k2 < m2 {
                        assert(!is_label_def(st9.code[k2], y));
                    } else {
                        assert(k2 == m2);
                        assert(is_label_def(st9.code[k2], y) ==> y == x);
                    }
                } else {
                    assert(k1 == m2 && k2 > m2 && k2 < hi);
                    assert(false);
                }
            }
        } else {
            // two branches: condition, branch over the first body, the
            // first body, a jump past the second, the else target, the
            // second body, the join target
            let y = st3.label;
            let st4 = GenSt {
                vars: st3.vars,
                regno: st3.regno,
                label: y + 1,
                code: st3.code + seq![
                    irv(IROp::Jmp, Some(y), None),
                    irv(IROp::Label, Some(x), None),
                ],
            };
            lemma_sgen_stmt_seg(st4, ch[2]);
            let st5 = sgen_stmt(st4, ch[2]).unwrap();
            let m3 = st5.code.len() as int;
            assert(st9.code == st5.code.push(irv(IROp::Label, Some(y), None)));
            let hi = st9.code.len() as int;
            assert(hi == m3 + 1);
            assert(code_extends(st3.code, st4.code));
            assert(code_extends(st5.code, st9.code));
            lemma_extends_trans(sta.code, st2.code, st3.code);
            lemma_extends_trans(st2.code, st3.code, st4.code);
            lemma_extends_trans(st2.code, st4.code, st5.code);
            lemma_extends_trans(st2.code, st5.code, st9.code);
            lemma_extends_trans(sta.code, st2.code, st9.code);
            lemma_extends_trans(st3.code, st4.code, st5.code);
            lemma_extends_trans(st3.code, st5.code, st9.code);
            lemma_extends_trans(st4.code, st5.code, st9.code);
            lemma_seg_transfer(sta.code, st9.code, lo, m1, st.regno, sta.regno, r, 0, 0);
            lemma_seg_transfer(
                st3.code,
                st9.code,
                m1 + 2,
                m2,
                st2.regno,
                st3.regno,
                0,
                st2.label,
                st3.label,
            );
            lemma_seg_transfer(
                st5.code,
                st9.code,
                m2 + 2,
                m3,
                st4.regno,
                st5.regno,
                0,
                st4.label,
                st5.label,
            );
            assert(st9.code[m1].op == IROp::Unless && st9.code[m1].lhs == Some(r));
            assert(st9.code[m1 + 1].op == IROp::Kill && st9.code[m1 + 1].lhs == Some(r));
            assert(st9.code[m2].op == IROp::Jmp && st9.code[m2].lhs == Some(y));
            assert(st9.code[m2 + 1].op == IROp::Label && st9.code[m2 + 1].lhs == Some(x));
            assert(st9.code[m3].op == IROp::Label && st9.code[m3].lhs == Some(y));
            // the condition's code with the branch and kill after it
            assert forall|k: int, q: int|
                lo <= k < m1 + 2 && k < st9.code.len() && #[trigger] uses_reg(st9.code[k], q)
                implies (q == 0 || st.regno <= q < sta.regno) by {
                if k >= m1 {
                    assert(k == m1 || k == m1 + 1);
                }
            }
            assert forall|k: int, q: int|
                lo <= k < m1 + 2 && k < st9.code.len() && #[trigger] is_kill(st9.code[k], q)
                implies (st.regno <= q < sta.regno) by {
                if k >= m1 {
                    assert(k == m1 || k == m1 + 1);
                }
            }
            assert forall|k1: int, k2: int, q: int|
                lo <= k1 < k2 < m1 + 2 && k2 < st9.code.len() && #[trigger] is_kill(
                    st9.code[k1],
                    q,
                ) implies !#[trigger] uses_reg(st9.code[k2], q) by {
                if k1 < m1 {
                    assert(st.regno <= q < sta.regno && q != r);
                    if k2 >= m1 {
                        assert(k2 == m1 || k2 == m1 + 1);
                    }
                } else {
                    assert(k1 == m1 || k1 == m1 + 1);
                    assert(!is_kill(st9.code[m1], q));
                    assert(k1 == m1 + 1 && k2 >= m1 + 2);
                    assert(false);
                }
            }
            lemma_seg_compose(
                st9.code,
                lo,
                m1 + 2,
                m2,
                st.regno,
                sta.regno,
                st2.regno,
                st3.regno,
            );
            // the jump and the else target carry no registers
            assert forall|k: int, q: int|
                lo <= k < m2 + 2 && k < st9.code.len() && #[trigger] uses_reg(st9.code[k], q)
                implies (q == 0 || st.regno <= q < st3.regno) by {
                if k >= m2 {
                    assert(k == m2 || k == m2 + 1);
                }
            }
            assert forall|k: int, q: int|
                lo <= k < m2 + 2 && k < st9.code.len() && #[trigger] is_kill(st9.code[k], q)
                implies (st.regno <= q < st3.regno) by {
                if k >= m2 {
                    assert(k == m2 || k == m2 + 1);
                }
            }
            assert forall|k1: int, k2: int, q: int|
                lo <= k1 < k2 < m2 + 2 && k2 < st9.code.len() && #[trigger] is_kill(
                    st9.code[k1],
                    q,
                ) implies !#[trigger] uses_reg(st9.code[k2], q) by {
                if k1 < m2 && k2 < m2 {
                    assert(seg_no_use_after_kill(st9.code, lo, m2));
                } else if k1 < m2 {
                    assert(k2 == m2 || k2 == m2 + 1);
                } else {
                    assert(k1 == m2 || k1 == m2 + 1);
                    assert(false);
                }
            }
            lemma_seg_compose(
                st9.code,
                lo,
                m2 + 2,
                m3,
                st.regno,
                st3.regno,
                st4.regno,
                st5.regno,
            );
            // the join target ends the statement
            assert forall|k: int, q: int|
                lo <= k < hi && k < st9.code.len() && #[trigger] uses_reg(st9.code[k], q) implies (
            q == 0 || st.regno <= q < st9.regno) by {
                if k == m3 {
                    assert(!uses_reg(st9.code[k], q));
                }
            }
            assert forall|k: int, q: int|
                lo <= k < hi && k < st9.code.len() && #[trigger] is_kill(st9.code[k], q) implies (
            st.regno <= q < st9.regno) by {
                if k == m3 {
                    assert(!is_kill(st9.code[k], q));
                }
            }
            assert forall|k1: int, k2: int, q: int|
                lo <= k1 < k2 < hi && k2 < st9.code.len() && #[trigger] is_kill(st9.code[k1], q)
                implies !#[trigger] uses_reg(st9.code[k2], q) by {
                assert(!is_kill(st9.code[m3], q));
                if k2 == m3 {
                    assert(!uses_reg(st9.code[k2], q));
                }
            }
            // jump targets: x from the else target, y from the join,
            // the bodies' targets between and after them
            assert forall|k: int, z: int|
                lo <= k < hi && k < st9.code.len() && #[trigger] is_label_def(st9.code[k], z)
                implies (st.label <= z < st9.label && (k < m2 ==> x + 1 <= z < y) && (k == m2 + 1
                ==> z == x) && (m2 + 2 <= k < m3 ==> y + 1 <= z) && (k == m3 ==> z == y)) by {
                if k < m1 {
                    assert(st9.code[k].op != IROp::Label);
                } else if k < m1 + 2 {
                    assert(k == m1 || k == m1 + 1);
                } else if k < m2 {
                    assert(st2.label <= z < st3.label);
                } else if k < m2 + 2 {
                    assert(k == m2 || k == m2 + 1);
                } else if k < m3 {
                    assert(st4.label <= z < st5.label);
                } else {
                    assert(k == m3);
                }
            }
            assert forall|k1: int, k2: int, z: int|
                lo <= k1 < k2 < hi && k2 < st9.code.len() && #[trigger] is_label_def(
                    st9.code[k1],
                    z,
                ) implies !#[trigger] is_label_def(st9.code[k2], z) by {
                if is_label_def(st9.code[k2], z) {
                    if k1 < m2 {
                        assert(x + 1 <= z < y);
                        if k2 < m2 {
                            assert(seg_label_defs_unique(st9.code, m1 + 2, m2));
                            assert(false);
                        } else if k2 == m2 + 1 {
                            assert(z == x);
                            assert(false);
                        } else if k2 < m3 {
                            assert(y + 1 <= z);
                            assert(false);
                        } else {
                            assert(z == y);
                            assert(false);
                        }
                    } else if k1 == m2 + 1 {
                        assert(z == x);
                        if m2 + 2 <= k2 < m3 {
                            assert(y + 1 <= z);
                            assert(false);
                        } else {
                            assert(k2 == m3 && z == y);
                            assert(false);
                        }
                    } else if k1 < m3 {
                        assert(y + 1 <= z);
                        if k2 < m3 {
                            assert(seg_label_defs_unique(st9.code, m2 + 2, m3));
                            assert(false);
                        } else {
                            assert(k2 == m3 && z == y);
                            assert(false);
                        }
                    } else {
                        assert(k1 == m3 && k2 > m3 && k2 < hi);
                        assert(false);
                    }
                }
            }
        }
    }
}

/// Jump-target ranges of adjacent segments compose when they are
/// ordered.
pub proof fn lemma_seg_compose_labels(
    c: Seq<IRView>,
    lo: int,
    mid: int,
    hi: int,
    l0: int,
    l1: int,
    l2: int,
)
    requires
        lo <= mid <= hi,
        l0 <= l1 <= l2,
        seg_label_defs_in(c, lo, mid, l0, l1),
        seg_label_defs_in(c, mid, hi, l1, l2),
        seg_label_defs_unique(c, lo, mid),
        seg_label_defs_unique(c, mid, hi),
    ensures
        seg_label_defs_in(c, lo, hi, l0, l2),
        seg_label_defs_unique(c, lo, hi),
{
    assert forall|k: int, x: int|
        lo <= k < hi && k < c.len() && #[trigger] is_label_def(c[k], x) implies (l0 <= x < l2) by {}
    assert forall|k1: int, k2: int, x: int|
        lo <= k1 < k2 < hi && k2 < c.len() && #[trigger] is_label_def(c[k1], x) implies !(
    #[trigger] is_label_def(c[k2], x)) by {
        if k1 < mid && k2 >= mid {
            assert(l0 <= x < l1);
            if is_label_def(c[k2], x) {
                assert(l1 <= x < l2);
            }
        }
    }
}

/// What generation of a statement guarantees of the instructions it
/// appends: every register touched is the frame base or fresh, only
/// fresh registers die, nothing is touched after it dies, and the
/// jump targets it defines are fresh and pairwise distinct.
pub open spec fn stmt_seg_ok(st: GenSt, st1: GenSt) -> bool {
    let lo = st.code.len() as int;
    let hi = st1.code.len() as int;
    &&& st.regno <= st1.regno
    &&& st.label <= st1.label
    &&& code_extends(st.code, st1.code)
    &&& seg_uses_in(st1.code, lo, hi, st.regno, st1.regno)
    &&& seg_kills_in(st1.code, lo, hi, st.regno, st1.regno)
    &&& seg_no_use_after_kill(st1.code, lo, hi)
    &&& seg_label_defs_in(st1.code, lo, hi, st.label, st1.label)
    &&& seg_label_defs_unique(st1.code, lo, hi)
}

#[verifier::rlimit(100)]
pub proof fn lemma_sgen_stmt_seg(st: GenSt, n: NodeView)
    requires
        st.regno >= 1,
    ensures
        sgen_stmt(st, n) matches Some(st9) ==> stmt_seg_ok(st, st9),
    decreases n, 1int,
{
    match n {
        NodeView::Return(ch) => {
            if ch.len() == 1 {
                lemma_sgen_expr_seg(st, ch[0]);
                if let Some((sta, r)) = sgen_expr(st, ch[0]) {
                    if let Some(st1) = sgen_stmt(st, n) {
                        let lo = st.code.len() as int;
                        let m = sta.code.len() as int;
                        let hi = st1.code.len() as int;
                        assert(hi == m + 2);
                        lemma_seg_transfer(sta.code, st1.code, lo, m, st.regno, sta.regno, r, 0, 0);
                        assert(st1.code[m].op == IROp::Return && st1.code[m].lhs == Some(r));
                        assert(st1.code[m + 1].op == IROp::Kill && st1.code[m + 1].lhs == Some(r));
                        assert forall|k: int, q: int|
                            lo <= k < hi && k < st1.code.len() && #[trigger] uses_reg(
                                st1.code[k],
                                q,
                            ) implies (q == 0 || st.regno <= q < st1.regno) by {
                            if k >= m {
                                assert(k == m || k == m + 1);
                            }
                        }
                        assert forall|k: int, q: int|
                            lo <= k < hi && k < st1.code.len() && #[trigger] is_kill(
                                st1.code[k],
                                q,
                            ) implies (st.regno <= q < st1.regno) by {
                            if k >= m {
                                assert(k == m || k == m + 1);
                            }
                        }
                        assert forall|k1: int, k2: int, q: int|
                            lo <= k1 < k2 < hi && k2 < st1.code.len() && #[trigger] is_kill(
                                st1.code[k1],
                                q,
                            ) implies !#[trigger] uses_reg(st1.code[k2], q) by {
                            if k1 < m {
                                assert(st.regno <= q < sta.regno && q != r);
                                if k2 >= m {
                                    assert(k2 == m || k2 == m + 1);
                                }
                            } else {
                                assert(k1 == m + 1);
                                assert(false);
                            }
                        }
                        assert forall|k: int, x: int|
                            lo <= k < hi && k < st1.code.len() implies !#[trigger] is_label_def(
                            st1.code[k],
                            x,
                        ) by {
                            if k >= m {
                                assert(k == m || k == m + 1);
                            } else {
                                assert(st1.code[k].op != IROp::Label);
                            }
                        }
                    }
                }
            }
        },
        NodeView::ExprStmt(ch) => {
            if ch.len() == 1 {
                lemma_sgen_expr_seg(st, ch[0]);
                if let Some((sta, r)) = sgen_expr(st, ch[0]) {
                    if let Some(st1) = sgen_stmt(st, n) {
                        let lo = st.code.len() as int;
                        let m = sta.code.len() as int;
                        let hi = st1.code.len() as int;
                        assert(hi == m + 1);
                        lemma_seg_transfer(sta.code, st1.code, lo, m, st.regno, sta.regno, r, 0, 0);
                        assert(st1.code[m].op == IROp::Kill && st1.code[m].lhs == Some(r));
                        assert forall|k: int, q: int|
                            lo <= k < hi && k < st1.code.len() && #[trigger] uses_reg(
                                st1.code[k],
                                q,
                            ) implies (q == 0 || st.regno <= q < st1.regno) by {
                            if k >= m {
                                assert(k == m);
                            }
                        }
                        assert forall|k: int, q: int|
                            lo <= k < hi && k < st1.code.len() && #[trigger] is_kill(
                                st1.code[k],
                                q,
                            ) implies (st.regno <= q < st1.regno) by {
                            if k >= m {
                                assert(k == m);
                            }
                        }
                        assert forall|k1: int, k2: int, q: int|
                            lo <= k1 < k2 < hi && k2 < st1.code.len() && #[trigger] is_kill(
                                st1.code[k1],
                                q,
                            ) implies !#[trigger] uses_reg(st1.code[k2], q) by {
                            if k1 < m {
                                assert(st.regno <= q < sta.regno && q != r);
                                if k2 >= m {
                                    assert(k2 == m);
                                }
                            } else {
                                assert(false);
                            }
                        }
                        assert forall|k: int, x: int|
                            lo <= k < hi && k < st1.code.len() implies !#[trigger] is_label_def(
                            st1.code[k],
                            x,
                        ) by {
                            if k >= m {
                                assert(k == m);
                            } else {
                                assert(st1.code[k].op != IROp::Label);
                            }
                        }
                    }
                }
            }
        },
        NodeView::If(ch) => {
            if ch.len() == 2 || ch.len() == 3 {
                lemma_sgen_if_seg(st, n);
            }
        },
        NodeView::CompStmt(ch) => {
            lemma_sgen_stmts_seg(st, ch);
        },
        _ => {},
    }
}

pub proof fn lemma_sgen_stmts_seg(st: GenSt, ss: Seq<NodeView>)
    requires
        st.regno >= 1,
    ensures
        sgen_stmts(st, ss) matches Some(st9) ==> stmt_seg_ok(st, st9),
    decreases ss, 2int,
{
    if ss.len() == 0 {
        if let Some(st9) = sgen_stmts(st, ss) {
            assert(st9 == st);
        }
    } else {
        lemma_sgen_stmt_seg(st, ss[0]);
        if let Some(sta) = sgen_stmt(st, ss[0]) {
            lemma_sgen_stmts_seg(sta, ss.drop_first());
            if let Some(st9) = sgen_stmts(sta, ss.drop_first()) {
                let lo = st.code.len() as int;
                let m = sta.code.len() as int;
                let hi = st9.code.len() as int;
                lemma_seg_transfer(
                    sta.code,
                    st9.code,
                    lo,
                    m,
                    st.regno,
                    sta.regno,
                    0,
                    st.label,
                    sta.label,
                );
                lemma_seg_compose(
                    st9.code,
                    lo,
                    m,
                    hi,
                    st.regno,
                    sta.regno,
                    sta.regno,
                    st9.regno,
                );
                lemma_seg_compose_labels(
                    st9.code,
                    lo,
                    m,
                    hi,
                    st.label,
                    sta.label,
                    st9.label,
                );
            }
        }
    }
}

pub proof fn lemma_sgen_lval_seg(st: GenSt, n: NodeView)
    requires
        st.regno >= 1,
    ensures
        sgen_lval(st, n) matches Some(p) ==> expr_seg_ok(st, p.0, p.1),
{
    if let Some((st1, r)) = sgen_lval(st, n) {
        let lo = st.code.len() as int;
        let hi = st1.code.len() as int;
        assert(hi == lo + 2);
        assert(st1.code[lo].op == IROp::Mov && st1.code[lo].lhs == Some(r) && st1.code[lo].rhs
            == Some(0int));
        assert(st1.code[lo + 1].op == IROp::AddImm && st1.code[lo + 1].lhs == Some(r));
        assert forall|k: int, q: int|
            lo <= k < hi && k < st1.code.len() && #[trigger] uses_reg(st1.code[k], q) implies (q
            == 0 || st.regno <= q < st1.regno) by {
            assert(k == lo || k == lo + 1);
        }
        assert forall|k: int, q: int|
            lo <= k < hi && k < st1.code.len() implies !#[trigger] is_kill(st1.code[k], q) by {
            assert(k == lo || k == lo + 1);
        }
        assert(seg_kills_in(st1.code, lo, hi, st.regno, st1.regno));
        assert(seg_kills_avoid(st1.code, lo, hi, r));
        assert(seg_no_use_after_kill(st1.code, lo, hi));
        assert(seg_no_label(st1.code, lo, hi));
    }
}

/// Once an instruction kills a register, no later instruction in the
/// sequence reads or writes it.
pub open spec fn kill_discipline(code: Seq<IRView>) -> bool {
    forall|i: int, j: int, q: int|
        #![trigger is_kill(code[i], q), uses_reg(code[j], q)]
        0 <= i < j < code.len() && is_kill(code[i], q) ==> !uses_reg(code[j], q)
}

/// No jump target is defined by two instructions of the sequence.
pub open spec fn labels_distinct(code: Seq<IRView>) -> bool {
    forall|i: int, j: int, x: int|
        #![trigger is_label_def(code[i], x), is_label_def(code[j], x)]
        0 <= i < j < code.len() && is_label_def(code[i], x) ==> !is_label_def(code[j], x)
}

/// Register liveness discipline of generated sequences: for every
/// kill the generator emits, the killed register has no use afterward
/// in program order.
pub proof fn lemma_gen_ir_kill_discipline(n: NodeView, code: Seq<IRView>)
    requires
        sgen_ir(n) == Some(code),
    ensures
        kill_discipline(code),
{
    let st0 = sgen_init();
    lemma_sgen_stmt_seg(st0, n);
    let st = sgen_stmt(st0, n).unwrap();
    let m = st.code.len() as int;
    assert(m >= 1);
    assert(code.len() == m + 1);
    assert forall|k: int| 1 <= k < m implies #[trigger] code[k] == st.code[k] by {}
    assert(code[0].op == IROp::Alloca);
    assert(code[m].op == IROp::Kill && code[m].lhs == Some(0int));
    assert forall|i: int, j: int, q: int|
        0 <= i < j < code.len() && #[trigger] is_kill(code[i], q) implies !#[trigger] uses_reg(
        code[j],
        q,
    ) by {
        if i == 0 {
            assert(false);
        } else if i < m {
            assert(is_kill(st.code[i], q));
            assert(1 <= q < st.regno);
            if j < m {
                assert(!uses_reg(st.code[j], q));
            } else {
                assert(j == m);
                assert(uses_reg(code[j], q) ==> q == 0);
            }
        } else {
            assert(i == m && j > m);
            assert(false);
        }
    }
}

/// Jump targets of generated sequences are distinct: however deeply
/// conditionals nest, no label is defined twice.
pub proof fn lemma_gen_ir_labels_distinct(n: NodeView, code: Seq<IRView>)
    requires
        sgen_ir(n) == Some(code),
    ensures
        labels_distinct(code),
{
    let st0 = sgen_init();
    lemma_sgen_stmt_seg(st0, n);
    let st = sgen_stmt(st0, n).unwrap();
    let m = st.code.len() as int;
    assert(m >= 1);
    assert(code.len() == m + 1);
    assert forall|k: int| 1 <= k < m implies #[trigger] code[k] == st.code[k] by {}
    assert(code[0].op == IROp::Alloca);
    assert(code[m].op == IROp::Kill);
    assert forall|i: int, j: int, x: int|
        0 <= i < j < code.len() && #[trigger] is_label_def(code[i], x) implies !(
    #[trigger] is_label_def(code[j], x)) by {
        if i == 0 || i == m {
            assert(false);
        } else {
            assert(is_label_def(st.code[i], x));
            if j < m {
                assert(!is_label_def(st.code[j], x));
            } else {
                assert(j == m);
                assert(code[j].op != IROp::Label);
            }
        }
    }
}

// ---------------------------------------------------------------------
// Laws of the allocator state
// ---------------------------------------------------------------------

/// Every virtual register of the set is bound: mapped to a slot of
/// the file that is marked in use.
pub open spec fn live_bound(st: AllocSt, live: Set<int>) -> bool {
    forall|v: int|
        #[trigger] live.contains(v) ==> 0 <= v < st.map.len() && st.map[v] is Some && 0 <= (
        st.map[v]->0) < st.used.len() && st.used[st.map[v]->0]
}

/// No two virtual registers of the set share a physical slot.
pub open spec fn bindings_injective(st: AllocSt, live: Set<int>) -> bool {
    forall|v1: int, v2: int|
        #![trigger live.contains(v1), live.contains(v2)]
        live.contains(v1) && live.contains(v2) && v1 != v2 ==> st.map[v1] != st.map[v2]
}

pub proof fn lemma_first_free_spec(used: Seq<bool>, i: int)
    requires
        0 <= i <= used.len(),
    ensures
        first_free(used, i) matches Some(s) ==> i <= s < used.len() && !used[s] && (forall|k: int|
            i <= k < s ==> used[k]),
        first_free(used, i) is None ==> forall|k: int| i <= k < used.len() ==> used[k],
    decreases used.len() - i,
{
    if i < used.len() && used[i] {
        lemma_first_free_spec(used, i + 1);
    }
}

/// Binding a fresh virtual register keeps slots exclusive: the first
/// free slot belongs to no bound register, so at no point do two
/// live virtual registers share one, and the new register is bound.
pub proof fn lemma_alloc_fresh_exclusive(st: AllocSt, live: Set<int>, v: int)
    requires
        live_bound(st, live),
        bindings_injective(st, live),
        0 <= v < st.map.len(),
        st.map[v] is None,
        spec_alloc(st, v) is Ok,
    ensures
        live_bound(spec_alloc(st, v)->Ok_0.0, live.insert(v)),
        bindings_injective(spec_alloc(st, v)->Ok_0.0, live.insert(v)),
        forall|w: int|
            #[trigger] live.contains(w) ==> st.map[w] != Some(spec_alloc(st, v)->Ok_0.1),
{
    lemma_first_free_spec(st.used, 0);
    let (st1, s) = spec_alloc(st, v)->Ok_0;
    assert(!st.used[s]);
    assert forall|w: int| #[trigger] live.contains(w) implies st.map[w] != Some(s) by {
        assert(st.used[st.map[w]->0]);
    }
    assert forall|w: int| #[trigger] live.insert(v).contains(w) implies (0 <= w < st1.map.len()
        && st1.map[w] is Some && 0 <= st1.map[w]->0 < st1.used.len() && st1.used[st1.map[w]->0]) by {
        if w != v {
            assert(live.contains(w));
            assert(st1.map[w] == st.map[w]);
            assert(st.used[st.map[w]->0]);
        }
    }
}

/// Freeing the slot of one live register leaves every other live
/// register bound, on its own slot.
pub proof fn lemma_kill_keeps_others(st: AllocSt, live: Set<int>, v: int)
    requires
        live_bound(st, live),
        bindings_injective(st, live),
        live.contains(v),
        spec_kill(st, st.map[v]->0) is Ok,
    ensures
        live_bound(spec_kill(st, st.map[v]->0)->Ok_0, live.remove(v)),
        bindings_injective(spec_kill(st, st.map[v]->0)->Ok_0, live.remove(v)),
        !spec_kill(st, st.map[v]->0)->Ok_0.used[st.map[v]->0],
{
    let st1 = spec_kill(st, st.map[v]->0)->Ok_0;
    assert forall|w: int| #[trigger] live.remove(v).contains(w) implies (0 <= w < st1.map.len()
        && st1.map[w] is Some && 0 <= st1.map[w]->0 < st1.used.len() && st1.used[st1.map[w]->0]) by {
        assert(live.contains(w) && w != v);
        assert(st.map[w] != st.map[v]);
        assert(st.used[st.map[w]->0]);
    }
}

/// After a kill has freed a slot, the next fresh register finds a
/// free slot again: binding cannot exhaust the file, and it takes the
/// freed slot itself when no earlier slot is free.
pub proof fn lemma_reuse_after_kill(st: AllocSt, s: int, v: int)
    requires
        spec_kill(st, s) is Ok,
        0 <= v < st.map.len(),
        st.map[v] is None,
    ensures
        spec_alloc(spec_kill(st, s)->Ok_0, v) is Ok,
        spec_alloc(spec_kill(st, s)->Ok_0, v)->Ok_0.1 <= s,
        (forall|k: int| 0 <= k < s ==> st.used[k]) ==> spec_alloc(spec_kill(st, s)->Ok_0, v)->Ok_0.1
            == s,
{
    let st1 = spec_kill(st, s)->Ok_0;
    lemma_first_free_spec(st1.used, 0);
    assert(!st1.used[s]);
    if first_free(st1.used, 0) is None {
        assert(st1.used[s]);
        assert(false);
    }
    let f = first_free(st1.used, 0)->0;
    if f > s {
        assert(st1.used[s]);
        assert(false);
    }
    if forall|k: int| 0 <= k < s ==> st.used[k] {
        if f < s {
            assert(st.used[f]);
            assert(st1.used[f] == st.used[f]);
            assert(false);
        }
    }
}

/// Exhaustion is exact: binding a fresh register fails, with the
/// resource error, exactly when every slot of the file is in use.
pub proof fn lemma_exhaustion_boundary(st: AllocSt, v: int)
    requires
        0 <= v < st.map.len(),
        st.map[v] is None,
    ensures
        spec_alloc(st, v) == Err::<(AllocSt, int), crate::CompileError>(
            crate::CompileError::Resource,
        ) <==> (forall|k: int| 0 <= k < st.used.len() ==> st.used[k]),
{
    lemma_first_free_spec(st.used, 0);
    if forall|k: int| 0 <= k < st.used.len() ==> st.used[k] {
        if first_free(st.used, 0) is Some {
            let s = first_free(st.used, 0)->0;
            assert(st.used[s]);
            assert(false);
        }
    }
}

// ---------------------------------------------------------------------
// The whole pipeline
// ---------------------------------------------------------------------

/// The text that compiling a tree yields: generation, allocation,
/// emission.
pub open spec fn spec_pipeline(n: NodeView) -> Option<Seq<Seq<char>>> {
    match sgen_ir(n) {
        Some(irs) => match spec_alloc_regs(irs) {
            Ok(out) => spec_gen_x86(out),
            Err(_) => None,
        },
        None => None,
    }
}

/// Re-emission is idempotent: the pipeline is a function of the tree
/// alone, so two runs over the same tree, each with its own fresh
/// generator and allocator state, yield textually identical assembly.
pub proof fn lemma_reemission_idempotent(n: NodeView, out1: Seq<Seq<char>>, out2: Seq<Seq<char>>)
    requires
        spec_pipeline(n) == Some(out1),
        spec_pipeline(n) == Some(out2),
    ensures
        out1 == out2,
{
}

/// One allocation step never changes the size of the register file.
pub proof fn lemma_alloc_ir_file_size(st: AllocSt, ir: IRView)
    ensures
        crate::regalloc::spec_alloc_ir(st, ir) matches Ok(p) ==> p.0.used.len() == st.used.len(),
{
    if let Ok(p) = crate::regalloc::spec_alloc_ir(st, ir) {
        match spec_ir_ty(ir.op) {
            IRType::Reg | IRType::RegImm | IRType::RegLabel => {
                assert(ir.lhs is Some);
                assert(spec_alloc(st, ir.lhs->0) is Ok);
                let q = spec_alloc(st, ir.lhs->0)->Ok_0;
                if st.map[ir.lhs->0] is Some {
                    assert(q.0 == st);
                } else {
                    lemma_first_free_spec(st.used, 0);
                    assert(first_free(st.used, 0) is Some);
                    assert(q.0.used == st.used.update(first_free(st.used, 0)->0, true));
                    assert(q.0.used.len() == st.used.len());
                }
                assert(p.0.used.len() == q.0.used.len());
            },
            IRType::RegReg => {
                assert(ir.lhs is Some && ir.rhs is Some);
                assert(spec_alloc(st, ir.lhs->0) is Ok);
                let q = spec_alloc(st, ir.lhs->0)->Ok_0;
                if st.map[ir.lhs->0] is Some {
                    assert(q.0 == st);
                } else {
                    lemma_first_free_spec(st.used, 0);
                    assert(first_free(st.used, 0) is Some);
                    assert(q.0.used == st.used.update(first_free(st.used, 0)->0, true));
                    assert(q.0.used.len() == st.used.len());
                }
                assert(spec_alloc(q.0, ir.rhs->0) is Ok);
                let q2 = spec_alloc(q.0, ir.rhs->0)->Ok_0;
                if q.0.map[ir.rhs->0] is Some {
                    assert(q2.0 == q.0);
                } else {
                    lemma_first_free_spec(q.0.used, 0);
                    assert(first_free(q.0.used, 0) is Some);
                    assert(q2.0.used == q.0.used.update(first_free(q.0.used, 0)->0, true));
                    assert(q2.0.used.len() == q.0.used.len());
                }
                assert(p.0.used.len() == q2.0.used.len());
            },
            IRType::Label | IRType::NoArg => {
                assert(p.0.used.len() == st.used.len());
            },
        }
    }
}

/// The allocation pass never changes the size of the register file.
pub proof fn lemma_alloc_file_size(st: AllocSt, irs: Seq<IRView>)
    ensures
        crate::regalloc::spec_alloc_all(st, irs) matches Ok(p) ==> p.0.used.len()
            == st.used.len(),
    decreases irs.len(),
{
    if irs.len() > 0 {
        lemma_alloc_ir_file_size(st, irs[0]);
        if let Ok((st1, _)) = crate::regalloc::spec_alloc_ir(st, irs[0]) {
            lemma_alloc_file_size(st1, irs.drop_first());
        }
    }
}

/// At every point, the number of live virtual registers, and so of
/// slots bound to one, is at most the size of the register file.
pub proof fn lemma_bound_count(st: AllocSt, live: Set<int>)
    requires
        live.finite(),
        live_bound(st, live),
        bindings_injective(st, live),
    ensures
        live.len() <= st.used.len(),
{
    let f = |v: int| st.map[v]->0;
    let slots = live.map(f);
    assert(vstd::relations::injective_on(f, live)) by {
        assert forall|v1: int, v2: int|
            live.contains(v1) && live.contains(v2) && #[trigger] f(v1) == #[trigger] f(v2)
            implies v1 == v2 by {
            if v1 != v2 {
                assert(st.map[v1] != st.map[v2]);
                assert(st.map[v1] is Some && st.map[v2] is Some);
            }
        }
    }
    vstd::set_lib::lemma_map_size(live, slots, f);
    let rng = vstd::set_lib::set_int_range(0, st.used.len() as int);
    assert forall|s: int| slots.contains(s) implies rng.contains(s) by {
        let v = choose|v: int| live.contains(v) && f(v) == s;
    }
    assert(slots.subset_of(rng));
    vstd::set_lib::lemma_int_range(0, st.used.len() as int);
    vstd::set_lib::lemma_len_subset(slots, rng);
}

/// The instructions of a run of independent single-register
/// statements: each loads a value into its own register and kills it
/// at once.
pub open spec fn indep_pairs(regs: Seq<int>, vals: Seq<int>) -> Seq<IRView>
    decreases regs.len(),
{
    if regs.len() == 0 {
        Seq::empty()
    } else {
        seq![
            irv(IROp::Imm, Some(regs[0]), Some(vals[0])),
            irv(IROp::Kill, Some(regs[0]), None),
        ] + indep_pairs(regs.drop_first(), vals.drop_first())
    }
}

/// A run of independent single-register statements never exhausts the
/// file, however long it is: each statement's register dies at once,
/// so the slot it was bound to is free again for the next. The file
/// state comes back to what it was.
pub proof fn lemma_indep_pairs_never_exhaust(st: AllocSt, regs: Seq<int>, vals: Seq<int>)
    requires
        first_free(st.used, 0) is Some,
        forall|i: int| 0 <= i < regs.len() ==> 0 <= #[trigger] regs[i] < st.map.len(),
        forall|i: int| 0 <= i < regs.len() ==> st.map[#[trigger] regs[i]] is None,
        forall|i: int, j: int|
            #![trigger regs[i], regs[j]]
            0 <= i < j < regs.len() ==> regs[i] != regs[j],
    ensures
        crate::regalloc::spec_alloc_all(st, indep_pairs(regs, vals)) matches Ok(p) && p.0.used
            == st.used,
    decreases regs.len(),
{
    let code = indep_pairs(regs, vals);
    if regs.len() == 0 {
        assert(code =~= Seq::<IRView>::empty());
    } else {
        let r = regs[0];
        lemma_first_free_spec(st.used, 0);
        let s = first_free(st.used, 0)->0;
        assert(code[0] == irv(IROp::Imm, Some(r), Some(vals[0])));
        let step1 = crate::regalloc::spec_alloc_ir(st, code[0]);
        assert(spec_alloc(st, r) is Ok);
        let st1 = spec_alloc(st, r)->Ok_0.0;
        assert(st1.used == st.used.update(s, true));
        assert(st1.map == st.map.update(r, Some(s)));
        assert(step1 is Ok && step1->Ok_0.0 == st1);
        let rest1 = code.drop_first();
        assert(rest1[0] == irv(IROp::Kill, Some(r), None));
        let step2 = crate::regalloc::spec_alloc_ir(st1, rest1[0]);
        assert(st1.map[r] == Some(s) && 0 <= s < st1.used.len() && st1.used[s]);
        assert(spec_alloc(st1, r) == Ok::<(AllocSt, int), crate::CompileError>((st1, s)));
        assert(spec_kill(st1, s) is Ok);
        let st2 = spec_kill(st1, s)->Ok_0;
        assert(step2 is Ok && step2->Ok_0.0 == st2);
        assert(st2.used =~= st.used);
        let rest2 = rest1.drop_first();
        assert(rest2 =~= indep_pairs(regs.drop_first(), vals.drop_first()));
        assert forall|i: int| 0 <= i < regs.drop_first().len() implies st2.map[#[trigger] regs.drop_first()[i]] is None by {
            assert(regs.drop_first()[i] == regs[i + 1]);
            assert(regs[i + 1] != r);
            assert(st2.map == st.map.update(r, Some(s)));
        }
        assert forall|i: int| 0 <= i < regs.drop_first().len() implies 0 <= #[trigger] regs.drop_first()[i] < st2.map.len() by {
            assert(regs.drop_first()[i] == regs[i + 1]);
        }
        assert forall|i: int, j: int|
            #![trigger regs.drop_first()[i], regs.drop_first()[j]]
            0 <= i < j < regs.drop_first().len() implies regs.drop_first()[i] != regs.drop_first()[j] by {
            assert(regs.drop_first()[i] == regs[i + 1]);
            assert(regs.drop_first()[j] == regs[j + 1]);
        }
        lemma_indep_pairs_never_exhaust(st2, regs.drop_first(), vals.drop_first());
        let tail_res = crate::regalloc::spec_alloc_all(st2, rest2);
        assert(tail_res is Ok && tail_res->Ok_0.0.used == st2.used);
        assert(crate::regalloc::spec_alloc_all(st2, rest1.drop_first()) == tail_res);
        assert(code.len() != 0);
        assert(rest1.len() != 0);
        assert(crate::regalloc::spec_alloc_all(st1, rest1) matches Ok(p1) && p1.0.used
            == st2.used);
        assert(crate::regalloc::spec_alloc_all(st, code) matches Ok(p) && p.0.used == st2.used);
        assert(st2.used == st.used);
    }
}

/// Every operand slot an instruction's shape declares is filled, with
/// a value that is not negative.
pub open spec fn operands_wf(ir: IRView) -> bool {
    match spec_ir_ty(ir.op) {
        IRType::Reg | IRType::Label => ir.lhs matches Some(l) && l >= 0,
        IRType::RegReg | IRType::RegLabel => (ir.lhs matches Some(l) && l >= 0) && (ir.rhs
            matches Some(r) && r >= 0),
        IRType::RegImm => (ir.lhs matches Some(l) && l >= 0) && (ir.rhs matches Some(r) && r
            >= 0),
        IRType::NoArg => true,
    }
}

/// Within `c[lo..hi]`, every instruction carries its operands.
pub open spec fn seg_wf(c: Seq<IRView>, lo: int, hi: int) -> bool {
    forall|k: int| lo <= k < hi && k < c.len() ==> operands_wf(#[trigger] c[k])
}

pub proof fn lemma_seg_wf_transfer(c1: Seq<IRView>, c2: Seq<IRView>, lo: int, hi: int)
    requires
        code_extends(c1, c2),
        0 <= lo,
        hi <= c1.len(),
        seg_wf(c1, lo, hi),
    ensures
        seg_wf(c2, lo, hi),
{
    assert forall|k: int| lo <= k < hi && k < c2.len() implies operands_wf(#[trigger] c2[k]) by {
        assert(c2[k] == c1[k]);
    }
}

pub proof fn lemma_var_index_nonneg(vars: Seq<Seq<char>>, name: Seq<char>, i: int)
    requires
        0 <= i <= vars.len(),
    ensures
        crate::ir::var_index_from(vars, name, i) matches Some(j) ==> i <= j < vars.len(),
    decreases vars.len() - i,
{
    if i < vars.len() && !(vars[i] == name) {
        lemma_var_index_nonneg(vars, name, i + 1);
    }
}

/// Expressions only emit instructions whose operands are all filled.
pub proof fn lemma_sgen_expr_wf(st: GenSt, n: NodeView)
    requires
        st.regno >= 1,
    ensures
        sgen_lval(st, n) matches Some(p) ==> seg_wf(p.0.code, st.code.len() as int, p.0.code.len() as int) && p.0.regno >= 1,
        sgen_expr(st, n) matches Some(p) ==> seg_wf(p.0.code, st.code.len() as int, p.0.code.len() as int) && p.0.regno >= 1,
    decreases n,
{
    if let Some((st1, a)) = sgen_lval(st, n) {
        let name = n->Ident_0;
        lemma_var_index_nonneg(st.vars, name, 0);
        assert forall|k: int|
            st.code.len() <= k < st1.code.len() && k < st1.code.len() implies operands_wf(
            #[trigger] st1.code[k]) by {
            assert(k == st.code.len() || k == st.code.len() + 1);
        }
    }
    match n {
        NodeView::Num(v) => {
            if let Some((st1, r)) = sgen_expr(st, n) {
                assert forall|k: int|
                    st.code.len() <= k < st1.code.len() && k < st1.code.len() implies operands_wf(
                #[trigger] st1.code[k]) by {
                    assert(k == st.code.len());
                }
            }
        },
        NodeView::Ident(_) => {
            if let Some((stl, a)) = sgen_lval(st, n) {
                if let Some((st1, d)) = sgen_expr(st, n) {
                    let m = stl.code.len() as int;
                    lemma_seg_wf_transfer(stl.code, st1.code, st.code.len() as int, m);
                    assert forall|k: int|
                        st.code.len() <= k < st1.code.len() && k < st1.code.len() implies
                        operands_wf(#[trigger] st1.code[k]) by {
                        if k >= m {
                            assert(k == m || k == m + 1);
                        }
                    }
                }
            }
        },
        NodeView::BinOp(op, ch) => {
            if ch.len() == 2 {
                if op is Equal {
                    lemma_sgen_expr_wf(st, ch[1]);
                    if let Some((sta, v)) = sgen_expr(st, ch[1]) {
                        lemma_sgen_expr_wf(sta, ch[0]);
                        if let Some((stb, a)) = sgen_lval(sta, ch[0]) {
                            if let Some((st1, res)) = sgen_expr(st, n) {
                                let m1 = sta.code.len() as int;
                                let m2 = stb.code.len() as int;
                                lemma_sgen_expr_prefix(st, ch[1]);
                                lemma_sgen_expr_seg(st, ch[1]);
                                lemma_sgen_lval_seg(sta, ch[0]);
                                lemma_seg_wf_transfer(sta.code, stb.code, st.code.len() as int, m1);
                                lemma_seg_wf_transfer(stb.code, st1.code, st.code.len() as int, m2);
                                assert forall|k: int|
                                    st.code.len() <= k < st1.code.len() && k < st1.code.len()
                                    implies operands_wf(#[trigger] st1.code[k]) by {
                                    if k >= m2 {
                                        assert(k == m2 || k == m2 + 1);
                                        assert(a >= 1 && v >= 1);
                                    }
                                }
                            }
                        }
                    }
                } else {
                    lemma_sgen_expr_wf(st, ch[0]);
                    if let Some((sta, l)) = sgen_expr(st, ch[0]) {
                        lemma_sgen_expr_wf(sta, ch[1]);
                        if let Some((stb, rr)) = sgen_expr(sta, ch[1]) {
                            if let Some((st1, res)) = sgen_expr(st, n) {
                                let m1 = sta.code.len() as int;
                                let m2 = stb.code.len() as int;
                                lemma_sgen_expr_prefix(st, ch[0]);
                                lemma_sgen_expr_prefix(sta, ch[1]);
                                lemma_sgen_expr_seg(st, ch[0]);
                                lemma_sgen_expr_seg(sta, ch[1]);
                                lemma_seg_wf_transfer(sta.code, stb.code, st.code.len() as int, m1);
                                lemma_seg_wf_transfer(stb.code, st1.code, st.code.len() as int, m2);
                                let o = crate::ir::spec_arith_op(op)->0;
                                assert(spec_ir_ty(o) == IRType::RegReg);
                                assert forall|k: int|
                                    st.code.len() <= k < st1.code.len() && k < st1.code.len()
                                    implies operands_wf(#[trigger] st1.code[k]) by {
                                    if k >= m2 {
                                        assert(k == m2 || k == m2 + 1);
                                        assert(l >= 1 && rr >= 1);
                                    }
                                }
                            }
                        }
                    }
                }
            }
        },
        _ => {},
    }
}

/// Statements only emit instructions whose operands are all filled.
pub proof fn lemma_sgen_stmt_wf(st: GenSt, n: NodeView)
    requires
        st.regno >= 1,
        st.label >= 0,
    ensures
        sgen_stmt(st, n) matches Some(st9) ==> seg_wf(st9.code, st.code.len() as int, st9.code.len() as int) && st9.regno >= 1 && st9.label >= st.label,
    decreases n, 1int,
{
    match n {
        NodeView::If(ch) => {
            if ch.len() == 2 || ch.len() == 3 {
                lemma_sgen_expr_wf(st, ch[0]);
                lemma_sgen_expr_prefix(st, ch[0]);
                if let Some(st9) = sgen_stmt(st, n) {
                    let (sta, r) = sgen_expr(st, ch[0]).unwrap();
                    let x = sta.label;
                    lemma_sgen_expr_seg(st, ch[0]);
                    assert(x == st.label);
                    let st2 = GenSt {
                        vars: sta.vars,
                        regno: sta.regno,
                        label: x + 1,
                        code: sta.code + seq![
                            irv(IROp::Unless, Some(r), Some(x)),
                            irv(IROp::Kill, Some(r), None),
                        ],
                    };
                    lemma_sgen_stmt_wf(st2, ch[1]);
                    lemma_sgen_stmt_prefix(st2, ch[1]);
                    let st3 = sgen_stmt(st2, ch[1]).unwrap();
                    let lo = st.code.len() as int;
                    let m1 = sta.code.len() as int;
                    let m2 = st3.code.len() as int;
                    assert(code_extends(sta.code, st2.code));
                    if ch.len() == 2 {
                        assert(st9.code == st3.code.push(irv(IROp::Label, Some(x), None)));
                        lemma_extends_trans(sta.code, st2.code, st3.code);
                        assert(code_extends(st3.code, st9.code));
                        lemma_extends_trans(sta.code, st3.code, st9.code);
                        lemma_seg_wf_transfer(sta.code, st9.code, lo, m1);
                        lemma_extends_trans(st2.code, st3.code, st9.code);
                        lemma_seg_wf_transfer(st3.code, st9.code, m1 + 2, m2);
                        assert forall|k: int|
                            lo <= k < st9.code.len() && k < st9.code.len() implies operands_wf(
                        #[trigger] st9.code[k]) by {
                            if m1 <= k < m1 + 2 {
                                assert(k == m1 || k == m1 + 1);
                                assert(r >= 1 && x >= 0);
                            } else if k >= m2 {
                                assert(k == m2);
                            }
                        }
                    } else {
                        let y = st3.label;
                        assert(y >= 0);
                        let st4 = GenSt {
                            vars: st3.vars,
                            regno: st3.regno,
                            label: y + 1,
                            code: st3.code + seq![
                                irv(IROp::Jmp, Some(y), None),
                                irv(IROp::Label, Some(x), None),
                            ],
                        };
                        lemma_sgen_stmt_wf(st4, ch[2]);
                        lemma_sgen_stmt_prefix(st4, ch[2]);
                        let st5 = sgen_stmt(st4, ch[2]).unwrap();
                        let m3 = st5.code.len() as int;
                        assert(st9.code == st5.code.push(irv(IROp::Label, Some(y), None)));
                        assert(code_extends(st3.code, st4.code));
                        assert(code_extends(st5.code, st9.code));
                        lemma_extends_trans(sta.code, st2.code, st3.code);
                        lemma_extends_trans(st2.code, st3.code, st4.code);
                        lemma_extends_trans(st2.code, st4.code, st5.code);
                        lemma_extends_trans(st2.code, st5.code, st9.code);
                        lemma_extends_trans(sta.code, st2.code, st9.code);
                        lemma_extends_trans(st3.code, st4.code, st5.code);
                        lemma_extends_trans(st3.code, st5.code, st9.code);
                        lemma_extends_trans(st4.code, st5.code, st9.code);
                        lemma_seg_wf_transfer(sta.code, st9.code, lo, m1);
                        lemma_seg_wf_transfer(st3.code, st9.code, m1 + 2, m2);
                        lemma_seg_wf_transfer(st5.code, st9.code, m2 + 2, m3);
                        assert forall|k: int|
                            lo <= k < st9.code.len() && k < st9.code.len() implies operands_wf(
                        #[trigger] st9.code[k]) by {
                            if m1 <= k < m1 + 2 {
                                assert(k == m1 || k == m1 + 1);
                                assert(r >= 1 && x >= 0);
                            } else if m2 <= k < m2 + 2 {
                                assert(k == m2 || k == m2 + 1);
                            } else if k >= m3 {
                                assert(k == m3);
                            }
                        }
                    }
                }
            }
        },
        NodeView::Return(ch) => {
            if ch.len() == 1 {
                lemma_sgen_expr_wf(st, ch[0]);
                lemma_sgen_expr_prefix(st, ch[0]);
                lemma_sgen_expr_seg(st, ch[0]);
                if let Some(st9) = sgen_stmt(st, n) {
                    let (sta, r) = sgen_expr(st, ch[0]).unwrap();
                    let m = sta.code.len() as int;
                    lemma_seg_wf_transfer(sta.code, st9.code, st.code.len() as int, m);
                    assert forall|k: int|
                        st.code.len() <= k < st9.code.len() && k < st9.code.len() implies
                        operands_wf(#[trigger] st9.code[k]) by {
                        if k >= m {
                            assert(k == m || k == m + 1);
                            assert(r >= 1);
                        }
                    }
                }
            }
        },
        NodeView::ExprStmt(ch) => {
            if ch.len() == 1 {
                lemma_sgen_expr_wf(st, ch[0]);
                lemma_sgen_expr_prefix(st, ch[0]);
                lemma_sgen_expr_seg(st, ch[0]);
                if let Some(st9) = sgen_stmt(st, n) {
                    let (sta, r) = sgen_expr(st, ch[0]).unwrap();
                    let m = sta.code.len() as int;
                    lemma_seg_wf_transfer(sta.code, st9.code, st.code.len() as int, m);
                    assert forall|k: int|
                        st.code.len() <= k < st9.code.len() && k < st9.code.len() implies
                        operands_wf(#[trigger] st9.code[k]) by {
                        if k >= m {
                            assert(k == m);
                            assert(r >= 1);
                        }
                    }
                }
            }
        },
        NodeView::CompStmt(ch) => {
            lemma_sgen_stmts_wf(st, ch);
        },
        _ => {},
    }
}

pub proof fn lemma_sgen_stmts_wf(st: GenSt, ss: Seq<NodeView>)
    requires
        st.regno >= 1,
        st.label >= 0,
    ensures
        sgen_stmts(st, ss) matches Some(st9) ==> seg_wf(st9.code, st.code.len() as int, st9.code.len() as int) && st9.regno >= 1 && st9.label >= st.label,
    decreases ss, 2int,
{
    if ss.len() > 0 {
        lemma_sgen_stmt_wf(st, ss[0]);
        lemma_sgen_stmt_prefix(st, ss[0]);
        if let Some(sta) = sgen_stmt(st, ss[0]) {
            lemma_sgen_stmts_wf(sta, ss.drop_first());
            lemma_sgen_stmts_prefix(sta, ss.drop_first());
            if let Some(st9) = sgen_stmts(sta, ss.drop_first()) {
                let lo = st.code.len() as int;
                let m = sta.code.len() as int;
                lemma_seg_wf_transfer(sta.code, st9.code, lo, m);
                assert forall|k: int|
                    lo <= k < st9.code.len() && k < st9.code.len() implies operands_wf(
                #[trigger] st9.code[k]) by {}
            }
        }
    }
}

/// A generated sequence carries every operand its instructions need.
pub proof fn lemma_gen_ir_wf(n: NodeView, code: Seq<IRView>)
    requires
        sgen_ir(n) == Some(code),
    ensures
        forall|k: int| 0 <= k < code.len() ==> operands_wf(#[trigger] code[k]),
{
    let st0 = sgen_init();
    lemma_sgen_stmt_wf(st0, n);
    lemma_sgen_stmt_prefix(st0, n);
    let st = sgen_stmt(st0, n).unwrap();
    let m = st.code.len() as int;
    assert(code.len() == m + 1);
    assert forall|k: int| 1 <= k < m implies #[trigger] code[k] == st.code[k] by {}
    assert(operands_wf(code[0]));
    assert(operands_wf(code[m]));
    assert forall|k: int| 0 <= k < code.len() implies operands_wf(#[trigger] code[k]) by {
        if 1 <= k < m {
            assert(operands_wf(st.code[k]));
        }
    }
}

/// One allocation step leaves an instruction the emitter accepts:
/// register operands become slots of the file, other operands stand.
pub proof fn lemma_alloc_ir_emits(st: AllocSt, ir: IRView)
    requires
        operands_wf(ir),
        st.used.len() == crate::REGS_N,
    ensures
        crate::regalloc::spec_alloc_ir(st, ir) matches Ok(p) ==> crate::codegen::emit_ir(p.1)
            is Some,
{
    if let Ok(p) = crate::regalloc::spec_alloc_ir(st, ir) {
        match spec_ir_ty(ir.op) {
            IRType::Reg | IRType::RegImm | IRType::RegLabel => {
                assert(spec_alloc(st, ir.lhs->0) is Ok);
                let q = spec_alloc(st, ir.lhs->0)->Ok_0;
                if st.map[ir.lhs->0] is Some {
                    assert(0 <= q.1 < st.used.len());
                } else {
                    lemma_first_free_spec(st.used, 0);
                    assert(0 <= q.1 < st.used.len());
                }
                assert(crate::codegen::emit_ir(p.1) is Some);
            },
            IRType::RegReg => {
                assert(spec_alloc(st, ir.lhs->0) is Ok);
                let q = spec_alloc(st, ir.lhs->0)->Ok_0;
                if st.map[ir.lhs->0] is Some {
                    assert(0 <= q.1 < st.used.len());
                } else {
                    lemma_first_free_spec(st.used, 0);
                    assert(0 <= q.1 < st.used.len());
                }
                lemma_alloc_ir_file_size(st, ir);
                assert(spec_alloc(q.0, ir.rhs->0) is Ok);
                let q2 = spec_alloc(q.0, ir.rhs->0)->Ok_0;
                if q.0.map[ir.rhs->0] is Some {
                    assert(0 <= q2.1 < q.0.used.len());
                } else {
                    lemma_first_free_spec(q.0.used, 0);
                    assert(0 <= q2.1 < q.0.used.len());
                }
                assert(q.0.used.len() == st.used.len());
                assert(crate::codegen::emit_ir(p.1) is Some);
            },
            IRType::Label | IRType::NoArg => {
                assert(crate::codegen::emit_ir(p.1) is Some);
            },
        }
    }
}

/// An allocated sequence is wholly emittable when every input
/// instruction carried its operands.
pub proof fn lemma_alloc_all_emits(st: AllocSt, irs: Seq<IRView>)
    requires
        forall|k: int| 0 <= k < irs.len() ==> operands_wf(#[trigger] irs[k]),
        st.used.len() == crate::REGS_N,
    ensures
        crate::regalloc::spec_alloc_all(st, irs) matches Ok(p) ==> forall|k: int|
            0 <= k < p.1.len() ==> crate::codegen::emit_ir(#[trigger] p.1[k]) is Some,
    decreases irs.len(),
{
    if irs.len() > 0 {
        lemma_alloc_ir_emits(st, irs[0]);
        lemma_alloc_ir_file_size(st, irs[0]);
        if let Ok((st1, ir1)) = crate::regalloc::spec_alloc_ir(st, irs[0]) {
            assert forall|k: int|
                0 <= k < irs.drop_first().len() implies operands_wf(
                #[trigger] irs.drop_first()[k]) by {
                assert(irs.drop_first()[k] == irs[k + 1]);
            }
            lemma_alloc_all_emits(st1, irs.drop_first());
            if let Ok((st2, rest)) = crate::regalloc::spec_alloc_all(st1, irs.drop_first()) {
                let out = seq![ir1] + rest;
                assert forall|k: int|
                    0 <= k < out.len() implies crate::codegen::emit_ir(#[trigger] out[k])
                    is Some by {
                    if k > 0 {
                        assert(out[k] == rest[k - 1]);
                    }
                }
            }
        }
    }
}

/// A sequence each of whose instructions is emittable emits as a
/// whole.
pub proof fn lemma_emit_seq_total(irs: Seq<IRView>)
    requires
        forall|k: int| 0 <= k < irs.len() ==> crate::codegen::emit_ir(#[trigger] irs[k]) is Some,
    ensures
        crate::codegen::emit_seq(irs) is Some,
    decreases irs.len(),
{
    if irs.len() > 0 {
        assert forall|k: int|
            0 <= k < irs.drop_first().len() implies crate::codegen::emit_ir(
            #[trigger] irs.drop_first()[k]) is Some by {
            assert(irs.drop_first()[k] == irs[k + 1]);
        }
        lemma_emit_seq_total(irs.drop_first());
    }
}

/// Once a tree generates and its registers allocate, emission cannot
/// fail: the pipeline owes assembly text for it.
pub proof fn lemma_pipeline_emits(n: NodeView, irs: Seq<IRView>, out: Seq<IRView>)
    requires
        sgen_ir(n) == Some(irs),
        spec_alloc_regs(irs) == Ok::<Seq<IRView>, crate::CompileError>(out),
    ensures
        spec_gen_x86(out) is Some,
        spec_pipeline(n) is Some,
{
    lemma_gen_ir_wf(n, irs);
    let st0 = crate::regalloc::alloc_init(irs.len() as int);
    lemma_alloc_all_emits(st0, irs);
    lemma_emit_seq_total(out);
}

} // verus!
