use crate::token::{tokens_view, Token, TokenType, TokView};
use crate::CompileError;
use vstd::prelude::*;

verus! {

/// Kind of a syntax-tree node.
#[derive(Debug)]
pub enum NodeType {
    /// Number literal
    Num(i32),
    /// Identifier
    Ident(String),
    /// Binary operation: operator, left-hand, right-hand
    BinOp(TokenType, Box<Node>, Box<Node>),
    /// Conditional: condition, then-branch, optional else-branch
    If(Box<Node>, Box<Node>, Option<Box<Node>>),
    /// Return statement
    Return(Box<Node>),
    /// Expression statement
    ExprStmt(Box<Node>),
    /// Compound statement
    CompStmt(Vec<Node>),
}

/// One syntax-tree node.
#[derive(Debug)]
pub struct Node {
    pub ty: NodeType,
}

/// Mathematical model of a syntax tree. Children are carried as a
/// sequence: two for a binary operation, two or three for a
/// conditional (condition, then-branch, and the else-branch if any),
/// one for a return or expression statement.
pub enum NodeView {
    Num(int),
    Ident(Seq<char>),
    BinOp(TokView, Seq<NodeView>),
    If(Seq<NodeView>),
    Return(Seq<NodeView>),
    ExprStmt(Seq<NodeView>),
    CompStmt(Seq<NodeView>),
}

pub open spec fn nodes_view(v: Seq<Node>) -> Seq<NodeView>
    decreases v,
{
    if v.len() == 0 {
        Seq::empty()
    } else {
        seq![node_view(v[0])] + nodes_view(v.drop_first())
    }
}

pub open spec fn node_view(n: Node) -> NodeView
    decreases n,
{
    match n.ty {
        NodeType::Num(v) => NodeView::Num(v as int),
        NodeType::Ident(s) => NodeView::Ident(s@),
        NodeType::BinOp(op, l, r) => NodeView::BinOp(op@, seq![node_view(*l), node_view(*r)]),
        NodeType::If(c, t, e) => NodeView::If(
            match e {
                Some(b) => seq![node_view(*c), node_view(*t), node_view(*b)],
                None => seq![node_view(*c), node_view(*t)],
            },
        ),
        NodeType::Return(b) => NodeView::Return(seq![node_view(*b)]),
        NodeType::ExprStmt(b) => NodeView::ExprStmt(seq![node_view(*b)]),
        NodeType::CompStmt(v) => NodeView::CompStmt(nodes_view(v@)),
    }
}

impl View for Node {
    type V = NodeView;

    open spec fn view(&self) -> NodeView {
        node_view(*self)
    }
}

pub proof fn lemma_nodes_view_push(s: Seq<Node>, n: Node)
    ensures
        nodes_view(s.push(n)) =~= nodes_view(s) + seq![node_view(n)],
    decreases s.len(),
{
    if s.len() == 0 {
        assert(s.push(n).len() == 1);
        assert(s.push(n).drop_first() =~= Seq::<Node>::empty());
        assert(s.push(n)[0] == n);
        assert(nodes_view(s) =~= Seq::<NodeView>::empty());
        assert(nodes_view(s.push(n)) == seq![node_view(n)] + nodes_view(Seq::<Node>::empty()));
        assert(nodes_view(s.push(n)) =~= nodes_view(s) + seq![node_view(n)]);
    } else {
        assert(s.push(n).drop_first() =~= s.drop_first().push(n));
        assert(s.push(n)[0] == s[0]);
        lemma_nodes_view_push(s.drop_first(), n);
        assert(nodes_view(s.push(n)) == seq![node_view(s[0])] + nodes_view(s.drop_first().push(n)));
        assert(seq![node_view(s[0])] + (nodes_view(s.drop_first()) + seq![node_view(n)]) =~= (
        seq![node_view(s[0])] + nodes_view(s.drop_first())) + seq![node_view(n)]);
    }
}

/// Outcome of parsing one grammar production: the node parsed and the
/// position just past it, or a syntax failure.
pub enum PRes {
    Parsed(NodeView, int),
    Fail,
}

/// The position a recursive descent resumes from: `e` where `e` lies
/// properly past `pos`, clamped otherwise so that descent always
/// advances. A successful parse always consumes at least one token, so
/// the clamp changes nothing on the paths that are actually taken.
pub open spec fn adv(pos: int, e: int, len: int) -> int {
    if pos < e && e <= len {
        e
    } else if pos + 1 <= len {
        pos + 1
    } else {
        len
    }
}

/// As `adv`, for descents that may legitimately stand still.
pub open spec fn adv_ge(pos: int, e: int, len: int) -> int {
    if pos <= e && e <= len {
        e
    } else {
        pos
    }
}

/// term := Num | Ident | "(" assign ")"
pub open spec fn sp_term(t: Seq<TokView>, pos: int) -> PRes
    decreases t.len() - pos, 0int,
    when 0 <= pos <= t.len()
{
    if pos >= t.len() {
        PRes::Fail
    } else {
        match t[pos] {
            TokView::Num(v) => PRes::Parsed(NodeView::Num(v), pos + 1),
            TokView::Ident(s) => PRes::Parsed(NodeView::Ident(s), pos + 1),
            TokView::LeftParen => match sp_assign(t, pos + 1) {
                PRes::Parsed(n, e) => if 0 <= e < t.len() && t[e] is RightParen {
                    PRes::Parsed(n, e + 1)
                } else {
                    PRes::Fail
                },
                PRes::Fail => PRes::Fail,
            },
            _ => PRes::Fail,
        }
    }
}

/// The remaining factors of a product: `lhs` extended left to right
/// while a "*" or "/" follows.
pub open spec fn sp_mul_rest(t: Seq<TokView>, lhs: NodeView, pos: int) -> PRes
    decreases t.len() - pos, 1int,
    when 0 <= pos <= t.len()
{
    if pos < t.len() && (t[pos] is Mul || t[pos] is Div) {
        match sp_term(t, pos + 1) {
            PRes::Parsed(r, e) => sp_mul_rest(
                t,
                NodeView::BinOp(t[pos], seq![lhs, r]),
                adv(pos, e, t.len() as int),
            ),
            PRes::Fail => PRes::Fail,
        }
    } else {
        PRes::Parsed(lhs, pos)
    }
}

/// mul := term (("*" | "/") term)*
pub open spec fn sp_mul(t: Seq<TokView>, pos: int) -> PRes
    decreases t.len() - pos, 2int,
    when 0 <= pos <= t.len()
{
    match sp_term(t, pos) {
        PRes::Parsed(lhs, e) => sp_mul_rest(t, lhs, adv(pos, e, t.len() as int)),
        PRes::Fail => PRes::Fail,
    }
}

/// The remaining addends of a sum: `lhs` extended left to right while
/// a "+" or "-" follows.
pub open spec fn sp_expr_rest(t: Seq<TokView>, lhs: NodeView, pos: int) -> PRes
    decreases t.len() - pos, 3int,
    when 0 <= pos <= t.len()
{
    if pos < t.len() && (t[pos] is Plus || t[pos] is Minus) {
        match sp_mul(t, pos + 1) {
            PRes::Parsed(r, e) => sp_expr_rest(
                t,
                NodeView::BinOp(t[pos], seq![lhs, r]),
                adv(pos, e, t.len() as int),
            ),
            PRes::Fail => PRes::Fail,
        }
    } else {
        PRes::Parsed(lhs, pos)
    }
}

/// expr := mul (("+" | "-") mul)*
pub open spec fn sp_expr(t: Seq<TokView>, pos: int) -> PRes
    decreases t.len() - pos, 4int,
    when 0 <= pos <= t.len()
{
    match sp_mul(t, pos) {
        PRes::Parsed(lhs, e) => sp_expr_rest(t, lhs, adv(pos, e, t.len() as int)),
        PRes::Fail => PRes::Fail,
    }
}

/// assign := expr ("=" expr)?
pub open spec fn sp_assign(t: Seq<TokView>, pos: int) -> PRes
    decreases t.len() - pos, 5int,
    when 0 <= pos <= t.len()
{
    match sp_expr(t, pos) {
        PRes::Parsed(lhs, e) => if 0 <= e < t.len() && t[e] is Equal {
            match sp_expr(t, adv_ge(pos, e + 1, t.len() as int)) {
                PRes::Parsed(r, e2) => PRes::Parsed(
                    NodeView::BinOp(TokView::Equal, seq![lhs, r]),
                    e2,
                ),
                PRes::Fail => PRes::Fail,
            }
        } else {
            PRes::Parsed(lhs, e)
        },
        PRes::Fail => PRes::Fail,
    }
}

/// stmt := "if" "(" assign ")" stmt ("else" stmt)?
///       | "return" assign ";"
///       | assign ";"
pub open spec fn sp_stmt(t: Seq<TokView>, pos: int) -> PRes
    decreases t.len() - pos, 6int,
    when 0 <= pos <= t.len()
{
    if pos >= t.len() {
        PRes::Fail
    } else {
        match t[pos] {
            TokView::If => {
                if pos + 1 < t.len() && t[pos + 1] is LeftParen {
                    match sp_assign(t, pos + 2) {
                        PRes::Parsed(c, e) => if 0 <= e < t.len() && t[e] is RightParen {
                            match sp_stmt(t, adv(pos, e + 1, t.len() as int)) {
                                PRes::Parsed(th, e2) => if 0 <= e2 < t.len() && t[e2] is Else {
                                    match sp_stmt(t, adv(pos, e2 + 1, t.len() as int)) {
                                        PRes::Parsed(el, e3) => PRes::Parsed(
                                            NodeView::If(seq![c, th, el]),
                                            e3,
                                        ),
                                        PRes::Fail => PRes::Fail,
                                    }
                                } else {
                                    PRes::Parsed(NodeView::If(seq![c, th]), e2)
                                },
                                PRes::Fail => PRes::Fail,
                            }
                        } else {
                            PRes::Fail
                        },
                        PRes::Fail => PRes::Fail,
                    }
                } else {
                    PRes::Fail
                }
            },
            TokView::Return => match sp_assign(t, pos + 1) {
                PRes::Parsed(n, e) => if 0 <= e < t.len() && t[e] is Semicolon {
                    PRes::Parsed(NodeView::Return(seq![n]), e + 1)
                } else {
                    PRes::Fail
                },
                PRes::Fail => PRes::Fail,
            },
            _ => match sp_assign(t, pos) {
                PRes::Parsed(n, e) => if 0 <= e < t.len() && t[e] is Semicolon {
                    PRes::Parsed(NodeView::ExprStmt(seq![n]), e + 1)
                } else {
                    PRes::Fail
                },
                PRes::Fail => PRes::Fail,
            },
        }
    }
}

/// program := stmt* to the end of the tokens, gathered into a
/// compound statement.
pub open spec fn sp_prog(t: Seq<TokView>, pos: int) -> PRes
    decreases t.len() - pos, 7int,
    when 0 <= pos <= t.len()
{
    if pos >= t.len() {
        PRes::Parsed(NodeView::CompStmt(Seq::empty()), pos)
    } else {
        match sp_stmt(t, pos) {
            PRes::Parsed(s, e) => match sp_prog(t, adv(pos, e, t.len() as int)) {
                PRes::Parsed(rest, e2) => match rest {
                    NodeView::CompStmt(ss) => PRes::Parsed(
                        NodeView::CompStmt(seq![s] + ss),
                        e2,
                    ),
                    _ => PRes::Fail,
                },
                PRes::Fail => PRes::Fail,
            },
            PRes::Fail => PRes::Fail,
        }
    }
}

/// The syntax tree of a whole token stream, or `None` on a syntax
/// error.
pub open spec fn spec_parse(t: Seq<TokView>) -> Option<NodeView> {
    match sp_prog(t, 0) {
        PRes::Parsed(n, e) => Some(n),
        PRes::Fail => None,
    }
}

/// A compound statement already gathered, prefixed onto the outcome of
/// parsing the remaining statements.
pub open spec fn prog_prepend(pre: Seq<NodeView>, r: PRes) -> PRes {
    match r {
        PRes::Parsed(rest, e) => match rest {
            NodeView::CompStmt(ss) => PRes::Parsed(NodeView::CompStmt(pre + ss), e),
            _ => PRes::Fail,
        },
        PRes::Fail => PRes::Fail,
    }
}

/// Whether two token kinds are the same token, identifiers by their
/// spelling and numbers by their value.
#[verifier::rlimit(30)]
fn token_ty_eq(a: &TokenType, b: &TokenType) -> (r: bool)
    ensures
        r == (a@ == b@),
{
    match a {
        TokenType::Num(x) => match b {
            TokenType::Num(y) => *x == *y,
            _ => false,
        },
        TokenType::Ident(s) => match b {
            TokenType::Ident(t) => *s == *t,
            _ => false,
        },
        TokenType::Plus => matches!(b, TokenType::Plus),
        TokenType::Minus => matches!(b, TokenType::Minus),
        TokenType::Mul => matches!(b, TokenType::Mul),
        TokenType::Div => matches!(b, TokenType::Div),
        TokenType::Return => matches!(b, TokenType::Return),
        TokenType::If => matches!(b, TokenType::If),
        TokenType::Else => matches!(b, TokenType::Else),
        TokenType::Semicolon => matches!(b, TokenType::Semicolon),
        TokenType::Equal => matches!(b, TokenType::Equal),
        TokenType::LeftParen => matches!(b, TokenType::LeftParen),
        TokenType::RightParen => matches!(b, TokenType::RightParen),
    }
}

/// Step past the token at `pos` when it is there and is `ty`.
fn consume(tokens: &Vec<Token>, ty: TokenType, pos: &mut usize) -> (r: bool)
    requires
        *old(pos) <= tokens@.len(),
    ensures
        r ==> *old(pos) < tokens@.len() && tokens_view(tokens@)[*old(pos) as int] == ty@ && *final(pos) == *old(pos) + 1,
        !r ==> *final(pos) == *old(pos) && (*old(pos) < tokens@.len() ==> tokens_view(
            tokens@,
        )[*old(pos) as int] != ty@),
{
    if *pos >= tokens.len() {
        return false;
    }
    let t = &tokens[*pos];
    if token_ty_eq(&t.ty, &ty) {
        *pos = *pos + 1;
        true
    } else {
        false
    }
}

/// Step past the token at `pos`, which must be `ty`, or fail.
fn expect(tokens: &Vec<Token>, ty: TokenType, pos: &mut usize) -> (r: Result<(), CompileError>)
    requires
        *old(pos) <= tokens@.len(),
    ensures
        r is Ok ==> *old(pos) < tokens@.len() && tokens_view(tokens@)[*old(pos) as int] == ty@
            && *final(pos) == *old(pos) + 1,
        r matches Err(err) ==> err == CompileError::Syntax && *final(pos) == *old(pos) && (*old(pos) < tokens@.len() ==> tokens_view(tokens@)[*old(pos) as int] != ty@),
{
    if consume(tokens, ty, pos) {
        Ok(())
    } else {
        Err(CompileError::Syntax)
    }
}

impl Node {
    /// Wrap a node kind as a node.
    pub fn new(op: NodeType) -> (r: Self)
        ensures
            r == (Node { ty: op }),
    {
        Self { ty: op }
    }

    fn term(tokens: &Vec<Token>, pos: &mut usize) -> (r: Result<Node, CompileError>)
        requires
            *old(pos) <= tokens@.len(),
        ensures
            r matches Ok(n) ==> sp_term(tokens_view(tokens@), *old(pos) as int) == PRes::Parsed(
                n@,
                *final(pos) as int,
            ) && *old(pos) < *final(pos) <= tokens@.len(),
            r matches Err(err) ==> err == CompileError::Syntax && sp_term(
                tokens_view(tokens@),
                *old(pos) as int,
            ) is Fail,
        decreases tokens@.len() - *pos, 0int,
    {
        let ghost tv = tokens_view(tokens@);
        if *pos >= tokens.len() {
            return Err(CompileError::Syntax);
        }
        let p0 = *pos;
        *pos = p0 + 1;
        match &tokens[p0].ty {
            TokenType::Num(v) => Ok(Node::new(NodeType::Num(*v))),
            TokenType::Ident(name) => Ok(Node::new(NodeType::Ident(name.clone()))),
            TokenType::LeftParen => {
                let node = match Self::assign(tokens, pos) {
                    Ok(n) => n,
                    Err(err) => {
                        return Err(err);
                    },
                };
                match expect(tokens, TokenType::RightParen, pos) {
                    Ok(()) => Ok(node),
                    Err(err) => Err(err),
                }
            },
            _ => Err(CompileError::Syntax),
        }
    }

    fn mul_rest(tokens: &Vec<Token>, lhs: Node, pos: &mut usize) -> (r: Result<
        Node,
        CompileError,
    >)
        requires
            *old(pos) <= tokens@.len(),
        ensures
            r matches Ok(n) ==> sp_mul_rest(tokens_view(tokens@), lhs@, *old(pos) as int)
                == PRes::Parsed(n@, *final(pos) as int) && *old(pos) <= *final(pos)
                <= tokens@.len(),
            r matches Err(err) ==> err == CompileError::Syntax && sp_mul_rest(
                tokens_view(tokens@),
                lhs@,
                *old(pos) as int,
            ) is Fail,
        decreases tokens@.len() - *pos, 1int,
    {
        let ghost tv = tokens_view(tokens@);
        let ghost p0 = *pos as int;
        if *pos >= tokens.len() {
            return Ok(lhs);
        }
        let op = match &tokens[*pos].ty {
            TokenType::Mul => TokenType::Mul,
            TokenType::Div => TokenType::Div,
            _ => {
                return Ok(lhs);
            },
        };
        *pos = *pos + 1;
        let rhs = match Self::term(tokens, pos) {
            Ok(n) => n,
            Err(err) => {
                return Err(err);
            },
        };
        let new_lhs = Node::new(NodeType::BinOp(op, Box::new(lhs), Box::new(rhs)));
        proof {
            assert(new_lhs@ == NodeView::BinOp(tv[p0], seq![lhs@, rhs@]));
            assert(adv(p0, *pos as int, tv.len() as int) == *pos as int);
        }
        Self::mul_rest(tokens, new_lhs, pos)
    }

    fn mul(tokens: &Vec<Token>, pos: &mut usize) -> (r: Result<Node, CompileError>)
        requires
            *old(pos) <= tokens@.len(),
        ensures
            r matches Ok(n) ==> sp_mul(tokens_view(tokens@), *old(pos) as int) == PRes::Parsed(
                n@,
                *final(pos) as int,
            ) && *old(pos) < *final(pos) <= tokens@.len(),
            r matches Err(err) ==> err == CompileError::Syntax && sp_mul(
                tokens_view(tokens@),
                *old(pos) as int,
            ) is Fail,
        decreases tokens@.len() - *pos, 2int,
    {
        let ghost tv = tokens_view(tokens@);
        let ghost p0 = *pos as int;
        let lhs = match Self::term(tokens, pos) {
            Ok(n) => n,
            Err(err) => {
                return Err(err);
            },
        };
        proof {
            assert(adv(p0, *pos as int, tv.len() as int) == *pos as int);
        }
        Self::mul_rest(tokens, lhs, pos)
    }

    fn expr_rest(tokens: &Vec<Token>, lhs: Node, pos: &mut usize) -> (r: Result<
        Node,
        CompileError,
    >)
        requires
            *old(pos) <= tokens@.len(),
        ensures
            r matches Ok(n) ==> sp_expr_rest(tokens_view(tokens@), lhs@, *old(pos) as int)
                == PRes::Parsed(n@, *final(pos) as int) && *old(pos) <= *final(pos)
                <= tokens@.len(),
            r matches Err(err) ==> err == CompileError::Syntax && sp_expr_rest(
                tokens_view(tokens@),
                lhs@,
                *old(pos) as int,
            ) is Fail,
        decreases tokens@.len() - *pos, 3int,
    {
        let ghost tv = tokens_view(tokens@);
        let ghost p0 = *pos as int;
        if *pos >= tokens.len() {
            return Ok(lhs);
        }
        let op = match &tokens[*pos].ty {
            TokenType::Plus => TokenType::Plus,
            TokenType::Minus => TokenType::Minus,
            _ => {
                return Ok(lhs);
            },
        };
        *pos = *pos + 1;
        let rhs = match Self::mul(tokens, pos) {
            Ok(n) => n,
            Err(err) => {
                return Err(err);
            },
        };
        let new_lhs = Node::new(NodeType::BinOp(op, Box::new(lhs), Box::new(rhs)));
        proof {
            assert(new_lhs@ == NodeView::BinOp(tv[p0], seq![lhs@, rhs@]));
            assert(adv(p0, *pos as int, tv.len() as int) == *pos as int);
        }
        Self::expr_rest(tokens, new_lhs, pos)
    }

    fn expr(tokens: &Vec<Token>, pos: &mut usize) -> (r: Result<Node, CompileError>)
        requires
            *old(pos) <= tokens@.len(),
        ensures
            r matches Ok(n) ==> sp_expr(tokens_view(tokens@), *old(pos) as int) == PRes::Parsed(
                n@,
                *final(pos) as int,
            ) && *old(pos) < *final(pos) <= tokens@.len(),
            r matches Err(err) ==> err == CompileError::Syntax && sp_expr(
                tokens_view(tokens@),
                *old(pos) as int,
            ) is Fail,
        decreases tokens@.len() - *pos, 4int,
    {
        let ghost tv = tokens_view(tokens@);
        let ghost p0 = *pos as int;
        let lhs = match Self::mul(tokens, pos) {
            Ok(n) => n,
            Err(err) => {
                return Err(err);
            },
        };
        proof {
            assert(adv(p0, *pos as int, tv.len() as int) == *pos as int);
        }
        Self::expr_rest(tokens, lhs, pos)
    }

    fn assign(tokens: &Vec<Token>, pos: &mut usize) -> (r: Result<Node, CompileError>)
        requires
            *old(pos) <= tokens@.len(),
        ensures
            r matches Ok(n) ==> sp_assign(tokens_view(tokens@), *old(pos) as int) == PRes::Parsed(
                n@,
                *final(pos) as int,
            ) && *old(pos) < *final(pos) <= tokens@.len(),
            r matches Err(err) ==> err == CompileError::Syntax && sp_assign(
                tokens_view(tokens@),
                *old(pos) as int,
            ) is Fail,
        decreases tokens@.len() - *pos, 5int,
    {
        let ghost tv = tokens_view(tokens@);
        let ghost p0 = *pos as int;
        let lhs = match Self::expr(tokens, pos) {
            Ok(n) => n,
            Err(err) => {
                return Err(err);
            },
        };
        let ghost e = *pos as int;
        if consume(tokens, TokenType::Equal, pos) {
            proof {
                assert(adv_ge(p0, e + 1, tv.len() as int) == e + 1);
            }
            let rhs = match Self::expr(tokens, pos) {
                Ok(n) => n,
                Err(err) => {
                    return Err(err);
                },
            };
            Ok(Node::new(NodeType::BinOp(TokenType::Equal, Box::new(lhs), Box::new(rhs))))
        } else {
            Ok(lhs)
        }
    }

    #[verifier::rlimit(50)]
    fn stmt(tokens: &Vec<Token>, pos: &mut usize) -> (r: Result<Node, CompileError>)
        requires
            *old(pos) <= tokens@.len(),
        ensures
            r matches Ok(n) ==> sp_stmt(tokens_view(tokens@), *old(pos) as int) == PRes::Parsed(
                n@,
                *final(pos) as int,
            ) && *old(pos) < *final(pos) <= tokens@.len(),
            r matches Err(err) ==> err == CompileError::Syntax && sp_stmt(
                tokens_view(tokens@),
                *old(pos) as int,
            ) is Fail,
        decreases tokens@.len() - *pos, 6int,
    {
        let ghost tv = tokens_view(tokens@);
        let ghost p0 = *pos as int;
        if *pos >= tokens.len() {
            return Err(CompileError::Syntax);
        }
        match &tokens[*pos].ty {
            TokenType::If => {
                *pos = *pos + 1;
                if !consume(tokens, TokenType::LeftParen, pos) {
                    return Err(CompileError::Syntax);
                }
                let cond = match Self::assign(tokens, pos) {
                    Ok(n) => n,
                    Err(err) => {
                        return Err(err);
                    },
                };
                let ghost e = *pos as int;
                match expect(tokens, TokenType::RightParen, pos) {
                    Ok(()) => {},
                    Err(err) => {
                        return Err(err);
                    },
                }
                proof {
                    assert(adv(p0, e + 1, tv.len() as int) == e + 1);
                }
                let then = match Self::stmt(tokens, pos) {
                    Ok(n) => n,
                    Err(err) => {
                        return Err(err);
                    },
                };
                let ghost e2 = *pos as int;
                if consume(tokens, TokenType::Else, pos) {
                    proof {
                        assert(adv(p0, e2 + 1, tv.len() as int) == e2 + 1);
                    }
                    let els = match Self::stmt(tokens, pos) {
                        Ok(n) => n,
                        Err(err) => {
                            return Err(err);
                        },
                    };
                    Ok(
                        Node::new(
                            NodeType::If(Box::new(cond), Box::new(then), Some(Box::new(els))),
                        ),
                    )
                } else {
                    Ok(Node::new(NodeType::If(Box::new(cond), Box::new(then), None)))
                }
            },
            TokenType::Return => {
                *pos = *pos + 1;
                let e = match Self::assign(tokens, pos) {
                    Ok(n) => n,
                    Err(err) => {
                        return Err(err);
                    },
                };
                match expect(tokens, TokenType::Semicolon, pos) {
                    Ok(()) => Ok(Node::new(NodeType::Return(Box::new(e)))),
                    Err(err) => Err(err),
                }
            },
            _ => {
                let e = match Self::assign(tokens, pos) {
                    Ok(n) => n,
                    Err(err) => {
                        return Err(err);
                    },
                };
                match expect(tokens, TokenType::Semicolon, pos) {
                    Ok(()) => Ok(Node::new(NodeType::ExprStmt(Box::new(e)))),
                    Err(err) => Err(err),
                }
            },
        }
    }

    /// Parse a whole token stream into the compound statement holding
    /// the program's statements. Succeeds exactly when the model
    /// parser does, and then returns exactly the tree it gives.
    pub fn parse(tokens: &Vec<Token>) -> (r: Result<Node, CompileError>)
        ensures
            r matches Ok(n) ==> spec_parse(tokens_view(tokens@)) == Some(n@),
            r matches Err(err) ==> err == CompileError::Syntax && spec_parse(
                tokens_view(tokens@),
            ) is None,
    {
        let ghost tv = tokens_view(tokens@);
        let mut pos: usize = 0;
        let mut stmts: Vec<Node> = Vec::new();
        while pos < tokens.len()
            invariant
                pos <= tokens@.len(),
                tv == tokens_view(tokens@),
                sp_prog(tv, 0) == prog_prepend(nodes_view(stmts@), sp_prog(tv, pos as int)),
            decreases tokens@.len() - pos,
        {
            let ghost p0 = pos as int;
            let ghost pre = nodes_view(stmts@);
            let s = match Self::stmt(tokens, &mut pos) {
                Ok(n) => n,
                Err(err) => {
                    return Err(err);
                },
            };
            proof {
                assert(adv(p0, pos as int, tv.len() as int) == pos as int);
                lemma_nodes_view_push(stmts@, s);
                match sp_prog(tv, pos as int) {
                    PRes::Parsed(rest, e2) => {
                        match rest {
                            NodeView::CompStmt(ss) => {
                                assert(pre + (seq![s@] + ss) =~= (pre + seq![s@]) + ss);
                            },
                            _ => {},
                        }
                    },
                    PRes::Fail => {},
                }
            }
            stmts.push(s);
        }
        proof {
            assert(sp_prog(tv, pos as int) == PRes::Parsed(
                NodeView::CompStmt(Seq::<NodeView>::empty()),
                pos as int,
            ));
            assert(nodes_view(stmts@) + Seq::<NodeView>::empty() =~= nodes_view(stmts@));
        }
        Ok(Node::new(NodeType::CompStmt(stmts)))
    }
}

} // verus!
