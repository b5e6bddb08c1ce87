use crate::CompileError;
use vstd::prelude::*;
use vstd::string::StrSliceExecFns;

verus! {

/// Kind of a lexical token.
#[derive(Debug, Clone)]
pub enum TokenType {
    /// Number literal
    Num(i32),
    /// Identifier
    Ident(String),
    Plus,
    Minus,
    Mul,
    Div,
    Return,
    If,
    Else,
    Semicolon,
    Equal,
    LeftParen,
    RightParen,
}

/// One lexical token, together with the source text it was scanned
/// from (kept whole for diagnostics).
#[derive(Debug, Clone)]
pub struct Token {
    pub ty: TokenType,
    pub input: String,
}

/// Mathematical model of a token kind: numbers as unbounded integers,
/// identifiers as character sequences.
pub enum TokView {
    Num(int),
    Ident(Seq<char>),
    Plus,
    Minus,
    Mul,
    Div,
    Return,
    If,
    Else,
    Semicolon,
    Equal,
    LeftParen,
    RightParen,
}

impl View for TokenType {
    type V = TokView;

    open spec fn view(&self) -> TokView {
        match self {
            TokenType::Num(v) => TokView::Num(*v as int),
            TokenType::Ident(s) => TokView::Ident(s@),
            TokenType::Plus => TokView::Plus,
            TokenType::Minus => TokView::Minus,
            TokenType::Mul => TokView::Mul,
            TokenType::Div => TokView::Div,
            TokenType::Return => TokView::Return,
            TokenType::If => TokView::If,
            TokenType::Else => TokView::Else,
            TokenType::Semicolon => TokView::Semicolon,
            TokenType::Equal => TokView::Equal,
            TokenType::LeftParen => TokView::LeftParen,
            TokenType::RightParen => TokView::RightParen,
        }
    }
}

impl View for Token {
    type V = TokView;

    open spec fn view(&self) -> TokView {
        self.ty@
    }
}

/// The model of a token sequence.
pub open spec fn tokens_view(ts: Seq<Token>) -> Seq<TokView> {
    ts.map_values(|t: Token| t@)
}

pub open spec fn is_space_char(c: char) -> bool {
    c == ' ' || c == '\t' || c == '\n' || c == '\r'
}

pub open spec fn is_digit_char(c: char) -> bool {
    '0' <= c && c <= '9'
}

pub open spec fn is_alpha_char(c: char) -> bool {
    ('a' <= c && c <= 'z') || ('A' <= c && c <= 'Z')
}

/// Characters that may continue an identifier once one has started.
pub open spec fn is_ident_char(c: char) -> bool {
    is_alpha_char(c) || is_digit_char(c)
}

pub open spec fn is_punct_char(c: char) -> bool {
    c == '+' || c == '-' || c == '*' || c == '/' || c == ';' || c == '=' || c == '(' || c == ')'
}

/// The token that a single punctuation character scans to.
pub open spec fn punct_view(c: char) -> TokView {
    if c == '+' {
        TokView::Plus
    } else if c == '-' {
        TokView::Minus
    } else if c == '*' {
        TokView::Mul
    } else if c == '/' {
        TokView::Div
    } else if c == ';' {
        TokView::Semicolon
    } else if c == '=' {
        TokView::Equal
    } else if c == '(' {
        TokView::LeftParen
    } else {
        TokView::RightParen
    }
}

/// The token that an identifier-shaped word scans to: the two keywords,
/// or an identifier.
pub open spec fn word_view(w: Seq<char>) -> TokView {
    if w == "return"@ {
        TokView::Return
    } else if w == "if"@ {
        TokView::If
    } else if w == "else"@ {
        TokView::Else
    } else {
        TokView::Ident(w)
    }
}

/// End of the maximal run of identifier characters starting at `pos`.
pub open spec fn ident_end(s: Seq<char>, pos: int) -> int
    decreases s.len() - pos,
    when 0 <= pos <= s.len()
{
    if pos < s.len() && is_ident_char(s[pos]) {
        ident_end(s, pos + 1)
    } else {
        pos
    }
}

/// End of the maximal run of decimal digits starting at `pos`.
pub open spec fn digits_end(s: Seq<char>, pos: int) -> int
    decreases s.len() - pos,
    when 0 <= pos <= s.len()
{
    if pos < s.len() && is_digit_char(s[pos]) {
        digits_end(s, pos + 1)
    } else {
        pos
    }
}

pub proof fn lemma_ident_end_bounds(s: Seq<char>, pos: int)
    requires
        0 <= pos <= s.len(),
    ensures
        pos <= ident_end(s, pos) <= s.len(),
    decreases s.len() - pos,
{
    if pos < s.len() && is_ident_char(s[pos]) {
        lemma_ident_end_bounds(s, pos + 1);
    }
}

pub proof fn lemma_digits_end_bounds(s: Seq<char>, pos: int)
    requires
        0 <= pos <= s.len(),
    ensures
        pos <= digits_end(s, pos) <= s.len(),
    decreases s.len() - pos,
{
    if pos < s.len() && is_digit_char(s[pos]) {
        lemma_digits_end_bounds(s, pos + 1);
    }
}

pub open spec fn digit_val(c: char) -> int {
    c as int - '0' as int
}

/// Value of a run of decimal digits, most significant first.
pub open spec fn digits_val(s: Seq<char>) -> int
    decreases s.len(),
{
    if s.len() == 0 {
        0
    } else {
        10 * digits_val(s.drop_last()) + digit_val(s.last())
    }
}

/// Tokens scanned from `s` starting at `pos`, or `None` when a
/// character is encountered that no token may start with, or a number
/// literal does not fit the literal type.
pub open spec fn spec_scan(s: Seq<char>, pos: int) -> Option<Seq<TokView>>
    decreases s.len() - pos,
    when 0 <= pos <= s.len()
{
    if pos >= s.len() {
        Some(Seq::empty())
    } else {
        let c = s[pos];
        if is_space_char(c) {
            spec_scan(s, pos + 1)
        } else if is_punct_char(c) {
            match spec_scan(s, pos + 1) {
                Some(rest) => Some(seq![punct_view(c)] + rest),
                None => None,
            }
        } else if is_alpha_char(c) {
            let e = ident_end(s, pos);
            proof {
                lemma_ident_end_bounds(s, pos + 1);
            }
            match spec_scan(s, e) {
                Some(rest) => Some(seq![word_view(s.subrange(pos, e))] + rest),
                None => None,
            }
        } else if is_digit_char(c) {
            let e = digits_end(s, pos);
            proof {
                lemma_digits_end_bounds(s, pos + 1);
            }
            if digits_val(s.subrange(pos, e)) > i32::MAX as int {
                None
            } else {
                match spec_scan(s, e) {
                    Some(rest) => Some(seq![TokView::Num(digits_val(s.subrange(pos, e)))] + rest),
                    None => None,
                }
            }
        } else {
            None
        }
    }
}

/// `rest` with `pre` scanned in front of it; an error stays an error.
pub open spec fn scan_prepend(pre: Seq<TokView>, rest: Option<Seq<TokView>>) -> Option<
    Seq<TokView>,
> {
    match rest {
        Some(r) => Some(pre + r),
        None => None,
    }
}

fn is_space(c: char) -> (r: bool)
    ensures
        r == is_space_char(c),
{
    c == ' ' || c == '\t' || c == '\n' || c == '\r'
}

fn is_digit(c: char) -> (r: bool)
    ensures
        r == is_digit_char(c),
{
    '0' <= c && c <= '9'
}

fn is_alpha(c: char) -> (r: bool)
    ensures
        r == is_alpha_char(c),
{
    ('a' <= c && c <= 'z') || ('A' <= c && c <= 'Z')
}

fn is_ident(c: char) -> (r: bool)
    ensures
        r == is_ident_char(c),
{
    is_alpha(c) || is_digit(c)
}

fn digit_of(c: char) -> (d: i32)
    requires
        is_digit_char(c),
    ensures
        d == digit_val(c),
        0 <= d <= 9,
{
    match c {
        '0' => 0,
        '1' => 1,
        '2' => 2,
        '3' => 3,
        '4' => 4,
        '5' => 5,
        '6' => 6,
        '7' => 7,
        '8' => 8,
        _ => 9,
    }
}

/// The token a punctuation character scans to, or `None` for any other
/// character.
fn punct_token(c: char) -> (r: Option<TokenType>)
    ensures
        r is Some <==> is_punct_char(c),
        r matches Some(t) ==> t@ == punct_view(c),
{
    match c {
        '+' => Some(TokenType::Plus),
        '-' => Some(TokenType::Minus),
        '*' => Some(TokenType::Mul),
        '/' => Some(TokenType::Div),
        ';' => Some(TokenType::Semicolon),
        '=' => Some(TokenType::Equal),
        '(' => Some(TokenType::LeftParen),
        ')' => Some(TokenType::RightParen),
        _ => None,
    }
}

/// The token an identifier-shaped word scans to: a keyword where the
/// word spells one, an identifier otherwise.
fn word_token(w: String) -> (t: TokenType)
    ensures
        t@ == word_view(w@),
{
    if w == "return".to_owned() {
        TokenType::Return
    } else if w == "if".to_owned() {
        TokenType::If
    } else if w == "else".to_owned() {
        TokenType::Else
    } else {
        TokenType::Ident(w)
    }
}

proof fn lemma_digits_val_nonneg(s: Seq<char>)
    requires
        forall|k: int| 0 <= k < s.len() ==> is_digit_char(s[k]),
    ensures
        digits_val(s) >= 0,
    decreases s.len(),
{
    if s.len() > 0 {
        lemma_digits_val_nonneg(s.drop_last());
    }
}

/// A longer run of digits never has a smaller value.
proof fn lemma_digits_val_extend_ge(s: Seq<char>, pos: int, k: int, e: int)
    requires
        0 <= pos <= k <= e <= s.len(),
        forall|j: int| pos <= j < e ==> is_digit_char(s[j]),
    ensures
        digits_val(s.subrange(pos, e)) >= digits_val(s.subrange(pos, k)),
    decreases e - k,
{
    if k < e {
        let shorter = s.subrange(pos, k);
        let longer = s.subrange(pos, k + 1);
        assert(longer.drop_last() =~= shorter);
        assert(forall|j: int| 0 <= j < shorter.len() ==> is_digit_char(shorter[j]));
        lemma_digits_val_nonneg(shorter);
        assert(digits_val(longer) == 10 * digits_val(shorter) + digit_val(s[k]));
        lemma_digits_val_extend_ge(s, pos, k + 1, e);
    }
}

/// Value of the digit run `s[pos..e]`, or a lexical error when the run
/// does not fit the number-literal type.
fn strtol(s: &str, pos: usize, e: usize) -> (r: Result<i32, CompileError>)
    requires
        pos < e <= s@.len(),
        forall|j: int| pos <= j < e ==> is_digit_char(s@[j]),
    ensures
        match r {
            Ok(v) => 0 <= v && v as int == digits_val(s@.subrange(pos as int, e as int)) && v
                <= i32::MAX,
            Err(err) => err == CompileError::Lexical && digits_val(
                s@.subrange(pos as int, e as int),
            ) > i32::MAX as int,
        },
{
    let ghost full = s@.subrange(pos as int, e as int);
    let mut v: i32 = 0;
    let mut k: usize = pos;
    while k < e
        invariant
            pos <= k <= e <= s@.len(),
            forall|j: int| pos <= j < e ==> is_digit_char(s@[j]),
            0 <= v,
            v as int == digits_val(s@.subrange(pos as int, k as int)),
            full == s@.subrange(pos as int, e as int),
        decreases e - k,
    {
        let c = s.get_char(k);
        let d = digit_of(c);
        if v > (i32::MAX - d) / 10 {
            proof {
                assert(10 * v + d > i32::MAX) by (nonlinear_arith)
                    requires
                        0 <= d <= 9,
                        v > (i32::MAX - d) / 10,
                ;
                let cur = s@.subrange(pos as int, k as int);
                let next = s@.subrange(pos as int, k + 1);
                assert(next.drop_last() =~= cur);
                assert(digits_val(next) == 10 * digits_val(cur) + digit_val(s@[k as int]));
                lemma_digits_val_extend_ge(s@, pos as int, k + 1, e as int);
            }
            return Err(CompileError::Lexical);
        }
        proof {
            assert(10 * v + d <= i32::MAX) by (nonlinear_arith)
                requires
                    0 <= d <= 9,
                    0 <= v,
                    v <= (i32::MAX - d) / 10,
            ;
            let cur = s@.subrange(pos as int, k as int);
            let next = s@.subrange(pos as int, k + 1);
            assert(next.drop_last() =~= cur);
            assert(digits_val(next) == 10 * digits_val(cur) + digit_val(s@[k as int]));
        }
        v = v * 10 + d;
        k = k + 1;
    }
    Ok(v)
}

/// Scan `p` into a token stream. Succeeds exactly when the model
/// scanner does, and then returns exactly the tokens it gives.
pub fn scan(p: String) -> (r: Result<Vec<Token>, CompileError>)
    ensures
        match r {
            Ok(toks) => {
                &&& spec_scan(p@, 0) == Some(tokens_view(toks@))
                &&& forall|i: int|
                    0 <= i < toks@.len() ==> (#[trigger] toks@[i].ty matches TokenType::Num(v)
                        ==> v >= 0)
                &&& forall|i: int| 0 <= i < toks@.len() ==> (#[trigger] toks@[i].input)@ == p@
            },
            Err(err) => err == CompileError::Lexical && spec_scan(p@, 0) is None,
        },
{
    let org = p.clone();
    let s: &str = p.as_str();
    let n: usize = s.unicode_len();
    let mut tokens: Vec<Token> = Vec::new();
    let mut pos: usize = 0;
    while pos < n
        invariant
            pos <= n,
            n == p@.len(),
            s@ == p@,
            org@ == p@,
            spec_scan(p@, 0) == scan_prepend(tokens_view(tokens@), spec_scan(p@, pos as int)),
            forall|i: int|
                0 <= i < tokens@.len() ==> (#[trigger] tokens@[i].ty matches TokenType::Num(v)
                    ==> v >= 0),
            forall|i: int| 0 <= i < tokens@.len() ==> (#[trigger] tokens@[i].input)@ == p@,
        decreases n - pos,
    {
        let ghost toks_before = tokens_view(tokens@);
        let c = s.get_char(pos);
        if is_space(c) {
            pos = pos + 1;
        } else if let Some(tt) = punct_token(c) {
            let ghost tv = tt@;
            tokens.push(Token { ty: tt, input: org.clone() });
            pos = pos + 1;
            proof {
                assert(tokens_view(tokens@) =~= toks_before + seq![tv]);
                match spec_scan(p@, pos as int) {
                    Some(rest) => {
                        assert(toks_before + (seq![tv] + rest) =~= (toks_before + seq![tv])
                            + rest);
                    },
                    None => {},
                }
            }
        } else if is_alpha(c) {
            let mut e: usize = pos;
            while e < n && is_ident(s.get_char(e))
                invariant
                    pos <= e <= n,
                    n == p@.len(),
                    s@ == p@,
                    ident_end(p@, pos as int) == ident_end(p@, e as int),
                decreases n - e,
            {
                e = e + 1;
            }
            proof {
                assert(ident_end(p@, e as int) == e);
                assert(ident_end(p@, pos as int) == ident_end(p@, pos + 1));
                lemma_ident_end_bounds(p@, pos + 1);
            }
            let word = s.substring_char(pos, e).to_owned();
            let ghost w = word@;
            let tt = word_token(word);
            let ghost tv = tt@;
            tokens.push(Token { ty: tt, input: org.clone() });
            pos = e;
            proof {
                assert(tokens_view(tokens@) =~= toks_before + seq![tv]);
                match spec_scan(p@, pos as int) {
                    Some(rest) => {
                        assert(toks_before + (seq![tv] + rest) =~= (toks_before + seq![tv])
                            + rest);
                    },
                    None => {},
                }
            }
        } else if is_digit(c) {
            let mut e: usize = pos;
            while e < n && is_digit(s.get_char(e))
                invariant
                    pos <= e <= n,
                    n == p@.len(),
                    s@ == p@,
                    digits_end(p@, pos as int) == digits_end(p@, e as int),
                    forall|j: int| pos <= j < e ==> is_digit_char(p@[j]),
                decreases n - e,
            {
                e = e + 1;
            }
            proof {
                assert(digits_end(p@, e as int) == e);
                assert(digits_end(p@, pos as int) == digits_end(p@, pos + 1));
                lemma_digits_end_bounds(p@, pos + 1);
            }
            let v = match strtol(s, pos, e) {
                Ok(v) => v,
                Err(err) => {
                    return Err(err);
                },
            };
            let tt = TokenType::Num(v);
            let ghost tv = tt@;
            tokens.push(Token { ty: tt, input: org.clone() });
            pos = e;
            proof {
                assert(tokens_view(tokens@) =~= toks_before + seq![tv]);
                match spec_scan(p@, pos as int) {
                    Some(rest) => {
                        assert(toks_before + (seq![tv] + rest) =~= (toks_before + seq![tv])
                            + rest);
                    },
                    None => {},
                }
            }
        } else {
            return Err(CompileError::Lexical);
        }
    }
    proof {
        assert(spec_scan(p@, pos as int) == Some(Seq::<TokView>::empty()));
        assert(tokens_view(tokens@) + Seq::<TokView>::empty() =~= tokens_view(tokens@));
    }
    Ok(tokens)
}

/// Tokenize a whole source text.
pub fn tokenize(p: String) -> (r: Result<Vec<Token>, CompileError>)
    ensures
        match r {
            Ok(toks) => {
                &&& spec_scan(p@, 0) == Some(tokens_view(toks@))
                &&& forall|i: int|
                    0 <= i < toks@.len() ==> (#[trigger] toks@[i].ty matches TokenType::Num(v)
                        ==> v >= 0)
                &&& forall|i: int| 0 <= i < toks@.len() ==> (#[trigger] toks@[i].input)@ == p@
            },
            Err(err) => err == CompileError::Lexical && spec_scan(p@, 0) is None,
        },
{
    scan(p)
}

} // verus!
