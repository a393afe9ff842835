//! The shared lexical vocabulary: token kinds, lexical values, and the
//! operator semantics on runtime values.

use vstd::prelude::*;
use vstd::string::StringExecFns;
use vstd::string::StrSliceExecFns;

use crate::error::Error;
use crate::error::ErrorType;

verus! {

/// An arithmetic operation on two IEEE-754 bit patterns, performed by the
/// embedder's arithmetic closure.
#[derive(Copy, Clone, Debug, PartialEq, Eq, Structural)]
pub enum NumOp {
    Add,
    Sub,
    Mul,
    Div,
}

/// A comparison of two IEEE-754 bit patterns, performed by the embedder's
/// comparison closure.
#[derive(Copy, Clone, Debug, PartialEq, Eq, Structural)]
pub enum NumCmp {
    Eq,
    Gt,
    Ge,
    Lt,
    Le,
}

/// The embedder's arithmetic closure must accept every operation on every
/// pair of bit patterns.
pub open spec fn arith_total<A: Fn(NumOp, u64, u64) -> u64>(arith: A) -> bool {
    forall|op: NumOp, a: u64, b: u64| #[trigger] call_requires(arith, (op, a, b))
}

/// The embedder's comparison closure must accept every comparison of every
/// pair of bit patterns.
pub open spec fn cmp_total<C: Fn(NumCmp, u64, u64) -> bool>(cmp: C) -> bool {
    forall|op: NumCmp, a: u64, b: u64| #[trigger] call_requires(cmp, (op, a, b))
}

/// The kind of a token, as recognized by the lexer.
///
/// Keyword tokens exist for control flow and declarations even though the
/// grammar only uses `Var` and `Print`; the others are reserved words.
#[derive(Copy, Clone, Debug, PartialEq, Eq, Structural)]
pub enum TokenType {
    LeftParen,
    RightParen,
    LeftBrace,
    RightBrace,
    Comma,
    Dot,
    Minus,
    Plus,
    Semicolon,
    Slash,
    Star,
    Bang,
    BangEqual,
    Equal,
    EqualEqual,
    Greater,
    GreaterEqual,
    Less,
    LessEqual,
    Identifier,
    String,
    Number,
    And,
    Class,
    Else,
    False,
    Fun,
    For,
    If,
    Nil,
    Or,
    Print,
    Return,
    Super,
    This,
    True,
    Var,
    While,
    Eof,
}

/// The value family carried by tokens and produced by evaluation.
///
/// A `Float` holds the 64-bit pattern of an IEEE-754 double. The verified
/// core never interprets those bits: arithmetic, comparison, parsing and
/// rendering of numbers are supplied by the embedder as closures, so the
/// core itself stays free of floating point.
///
/// `Identifier` is a lexical payload of name tokens only; it is never a
/// legal runtime value, and every operator rejects it.
#[derive(Debug)]
pub enum Literal {
    /// The 64-bit pattern of an IEEE-754 double-precision number.
    Float(u64),
    String(String),
    Bool(bool),
    /// A name, as carried by identifier tokens.
    Identifier(String),
    Nil,
}

/// The mathematical model of a [`Literal`]: strings become character
/// sequences.
#[verifier::ext_equal]
pub enum LitView {
    Float(u64),
    Str(Seq<char>),
    Bool(bool),
    Ident(Seq<char>),
    Nil,
}

impl View for Literal {
    type V = LitView;

    open spec fn view(&self) -> LitView {
        match self {
            Literal::Float(b) => LitView::Float(*b),
            Literal::String(s) => LitView::Str(s@),
            Literal::Bool(b) => LitView::Bool(*b),
            Literal::Identifier(s) => LitView::Ident(s@),
            Literal::Nil => LitView::Nil,
        }
    }
}

impl Clone for Literal {
    fn clone(&self) -> (res: Self)
        ensures
            res@ == self@,
    {
        match self {
            Literal::Float(b) => Literal::Float(*b),
            Literal::String(s) => Literal::String(s.clone()),
            Literal::Bool(b) => Literal::Bool(*b),
            Literal::Identifier(s) => Literal::Identifier(s.clone()),
            Literal::Nil => Literal::Nil,
        }
    }
}

/// What [`Literal::sum`] returns for operands modelled by `a` and `b`.
pub open spec fn sum_post<A: Fn(NumOp, u64, u64) -> u64>(arith: A, a: LitView, b: LitView, r: Result<
    Literal,
    Error,
>) -> bool {
    match (a, b) {
        (LitView::Str(s1), LitView::Str(s2)) => r matches Ok(l) && l@ == LitView::Str(s1 + s2),
        (LitView::Float(x), LitView::Float(y)) => r matches Ok(l) && (l@ matches LitView::Float(c)
            && call_ensures(arith, (NumOp::Add, x, y), c)),
        (LitView::Bool(b1), LitView::Bool(b2)) => r matches Ok(l) && l@ == LitView::Bool(b1 || b2),
        (LitView::Str(_), LitView::Float(_)) => r matches Err(e) && err_fatal(
            e,
            "FATAL: cannot sum string and float"@,
        ),
        (LitView::Float(_), LitView::Str(_)) => r matches Err(e) && err_fatal(
            e,
            "FATAL: cannot sum float and string"@,
        ),
        _ => r matches Err(e) && err_fatal(e, "FATAL: cannot sum nil or identifier"@),
    }
}

/// What [`Literal::sub`] returns for operands modelled by `a` and `b`.
pub open spec fn sub_post<A: Fn(NumOp, u64, u64) -> u64>(arith: A, a: LitView, b: LitView, r: Result<
    Literal,
    Error,
>) -> bool {
    match (a, b) {
        (LitView::Str(_), LitView::Str(_)) => r matches Err(e) && err_fatal(
            e,
            "FATAL: cannot sub string and string"@,
        ),
        (LitView::Float(x), LitView::Float(y)) => r matches Ok(l) && (l@ matches LitView::Float(c)
            && call_ensures(arith, (NumOp::Sub, x, y), c)),
        (LitView::Str(_), LitView::Float(_)) => r matches Err(e) && err_fatal(
            e,
            "FATAL: cannot sub string and float"@,
        ),
        (LitView::Float(_), LitView::Str(_)) => r matches Err(e) && err_fatal(
            e,
            "FATAL: cannot sub float and string"@,
        ),
        (LitView::Bool(_), LitView::Bool(_)) => r matches Err(e) && err_fatal(
            e,
            "FATAL: cannot sub bool and bool"@,
        ),
        _ => r matches Err(e) && err_fatal(e, "FATAL: cannot sub nil or identifier"@),
    }
}

/// What [`Literal::mul`] returns for operands modelled by `a` and `b`.
pub open spec fn mul_post<A: Fn(NumOp, u64, u64) -> u64>(arith: A, a: LitView, b: LitView, r: Result<
    Literal,
    Error,
>) -> bool {
    match (a, b) {
        (LitView::Str(_), LitView::Str(_)) => r matches Err(e) && err_fatal(
            e,
            "FATAL: cannot mul string and string"@,
        ),
        (LitView::Float(x), LitView::Float(y)) => r matches Ok(l) && (l@ matches LitView::Float(c)
            && call_ensures(arith, (NumOp::Mul, x, y), c)),
        (LitView::Str(_), LitView::Float(_)) => r matches Err(e) && err_fatal(
            e,
            "FATAL: cannot mul string and float"@,
        ),
        (LitView::Float(_), LitView::Str(_)) => r matches Err(e) && err_fatal(
            e,
            "FATAL: cannot mul float and string"@,
        ),
        (LitView::Bool(_), LitView::Bool(_)) => r matches Err(e) && err_fatal(
            e,
            "FATAL: cannot mul bool and bool"@,
        ),
        _ => r matches Err(e) && err_fatal(e, "FATAL: cannot mul nil or identifier"@),
    }
}

/// What [`Literal::div`] returns for operands modelled by `a` and `b`.
pub open spec fn div_post<A: Fn(NumOp, u64, u64) -> u64>(arith: A, a: LitView, b: LitView, r: Result<
    Literal,
    Error,
>) -> bool {
    match (a, b) {
        (LitView::Str(_), LitView::Str(_)) => r matches Err(e) && err_fatal(
            e,
            "FATAL: cannot div string and string"@,
        ),
        (LitView::Float(x), LitView::Float(y)) => r matches Ok(l) && (l@ matches LitView::Float(c)
            && call_ensures(arith, (NumOp::Div, x, y), c)),
        (LitView::Str(_), LitView::Float(_)) => r matches Err(e) && err_fatal(
            e,
            "FATAL: cannot div string and float"@,
        ),
        (LitView::Float(_), LitView::Str(_)) => r matches Err(e) && err_fatal(
            e,
            "FATAL: cannot div float and string"@,
        ),
        (LitView::Bool(_), LitView::Bool(_)) => r matches Err(e) && err_fatal(
            e,
            "FATAL: cannot div bool and bool"@,
        ),
        _ => r matches Err(e) && err_fatal(e, "FATAL: cannot div nil or identifier"@),
    }
}

/// What [`Literal::eq`] returns for operands modelled by `a` and `b`.
pub open spec fn eq_post<C: Fn(NumCmp, u64, u64) -> bool>(cmp: C, a: LitView, b: LitView, r: Result<
    Literal,
    Error,
>) -> bool {
    match (a, b) {
        (LitView::Str(s1), LitView::Str(s2)) => r matches Ok(l) && l@ == LitView::Bool(s1 == s2),
        (LitView::Float(x), LitView::Float(y)) => r matches Ok(l) && (l@ matches LitView::Bool(c)
            && call_ensures(cmp, (NumCmp::Eq, x, y), c)),
        (LitView::Str(_), LitView::Float(_)) => r matches Err(e) && err_fatal(
            e,
            "FATAL: cannot eq string and float"@,
        ),
        (LitView::Float(_), LitView::Str(_)) => r matches Err(e) && err_fatal(
            e,
            "FATAL: cannot eq float and string"@,
        ),
        (LitView::Bool(b1), LitView::Bool(b2)) => r matches Ok(l) && l@ == LitView::Bool(b1 == b2),
        _ => r matches Err(e) && err_fatal(e, "FATAL: cannot eq nil or identifier"@),
    }
}

/// What [`Literal::gt`] returns for operands modelled by `a` and `b`.
pub open spec fn gt_post<C: Fn(NumCmp, u64, u64) -> bool>(cmp: C, a: LitView, b: LitView, r: Result<
    Literal,
    Error,
>) -> bool {
    match (a, b) {
        (LitView::Str(s1), LitView::Str(s2)) => r matches Ok(l) && l@ == LitView::Bool(
            s1.len() > s2.len(),
        ),
        (LitView::Float(x), LitView::Float(y)) => r matches Ok(l) && (l@ matches LitView::Bool(c)
            && call_ensures(cmp, (NumCmp::Gt, x, y), c)),
        (LitView::Str(_), LitView::Float(_)) => r matches Err(e) && err_fatal(
            e,
            "FATAL: cannot gt string and float"@,
        ),
        (LitView::Float(_), LitView::Str(_)) => r matches Err(e) && err_fatal(
            e,
            "FATAL: cannot gt float and string"@,
        ),
        (LitView::Bool(b1), LitView::Bool(b2)) => r matches Ok(l) && l@ == LitView::Bool(
            b1 && !b2,
        ),
        _ => r matches Err(e) && err_fatal(e, "FATAL: cannot gt nil or identifier"@),
    }
}

/// What [`Literal::egt`] returns for operands modelled by `a` and `b`.
pub open spec fn egt_post<C: Fn(NumCmp, u64, u64) -> bool>(cmp: C, a: LitView, b: LitView, r: Result<
    Literal,
    Error,
>) -> bool {
    match (a, b) {
        (LitView::Str(s1), LitView::Str(s2)) => r matches Ok(l) && l@ == LitView::Bool(
            s1.len() >= s2.len(),
        ),
        (LitView::Float(x), LitView::Float(y)) => r matches Ok(l) && (l@ matches LitView::Bool(c)
            && call_ensures(cmp, (NumCmp::Ge, x, y), c)),
        (LitView::Str(_), LitView::Float(_)) => r matches Err(e) && err_fatal(
            e,
            "FATAL: cannot egt string and float"@,
        ),
        (LitView::Float(_), LitView::Str(_)) => r matches Err(e) && err_fatal(
            e,
            "FATAL: cannot egt float and string"@,
        ),
        (LitView::Bool(b1), LitView::Bool(b2)) => r matches Ok(l) && l@ == LitView::Bool(
            b1 || !b2,
        ),
        _ => r matches Err(e) && err_fatal(e, "FATAL: cannot egt nil or identifier"@),
    }
}

/// What [`Literal::lt`] returns for operands modelled by `a` and `b`.
pub open spec fn lt_post<C: Fn(NumCmp, u64, u64) -> bool>(cmp: C, a: LitView, b: LitView, r: Result<
    Literal,
    Error,
>) -> bool {
    match (a, b) {
        (LitView::Str(s1), LitView::Str(s2)) => r matches Ok(l) && l@ == LitView::Bool(
            s1.len() < s2.len(),
        ),
        (LitView::Float(x), LitView::Float(y)) => r matches Ok(l) && (l@ matches LitView::Bool(c)
            && call_ensures(cmp, (NumCmp::Lt, x, y), c)),
        (LitView::Str(_), LitView::Float(_)) => r matches Err(e) && err_fatal(
            e,
            "FATAL: cannot lt string and float"@,
        ),
        (LitView::Float(_), LitView::Str(_)) => r matches Err(e) && err_fatal(
            e,
            "FATAL: cannot lt float and string"@,
        ),
        (LitView::Bool(b1), LitView::Bool(b2)) => r matches Ok(l) && l@ == LitView::Bool(
            !b1 && b2,
        ),
        _ => r matches Err(e) && err_fatal(e, "FATAL: cannot lt nil or identifier"@),
    }
}

/// What [`Literal::elt`] returns for operands modelled by `a` and `b`.
pub open spec fn elt_post<C: Fn(NumCmp, u64, u64) -> bool>(cmp: C, a: LitView, b: LitView, r: Result<
    Literal,
    Error,
>) -> bool {
    match (a, b) {
        (LitView::Str(s1), LitView::Str(s2)) => r matches Ok(l) && l@ == LitView::Bool(
            s1.len() <= s2.len(),
        ),
        (LitView::Float(x), LitView::Float(y)) => r matches Ok(l) && (l@ matches LitView::Bool(c)
            && call_ensures(cmp, (NumCmp::Le, x, y), c)),
        (LitView::Str(_), LitView::Float(_)) => r matches Err(e) && err_fatal(
            e,
            "FATAL: cannot elt string and float"@,
        ),
        (LitView::Float(_), LitView::Str(_)) => r matches Err(e) && err_fatal(
            e,
            "FATAL: cannot elt float and string"@,
        ),
        (LitView::Bool(b1), LitView::Bool(b2)) => r matches Ok(l) && l@ == LitView::Bool(
            !b1 || b2,
        ),
        _ => r matches Err(e) && err_fatal(e, "FATAL: cannot elt nil or identifier"@),
    }
}

impl Literal {
    /// `+`: numeric sum, string concatenation, or boolean disjunction;
    /// every other pair of operand kinds is a fatal mismatch.
    pub fn sum<A: Fn(NumOp, u64, u64) -> u64 + Copy>(v1: Literal, v2: Literal, arith: A) -> (r: Result<
        Literal,
        Error,
    >)
        requires
            arith_total(arith),
        ensures
            sum_post(arith, v1@, v2@, r),
    {
        match (v1, v2) {
            (Literal::String(s1), Literal::String(s2)) => Ok(
                Literal::String(s1.concat(s2.as_str())),
            ),
            (Literal::Float(a), Literal::Float(b)) => Ok(Literal::Float(arith(NumOp::Add, a, b))),
            (Literal::String(_), Literal::Float(_)) => Err(
                Error::fatal("FATAL: cannot sum string and float", None),
            ),
            (Literal::Float(_), Literal::String(_)) => Err(
                Error::fatal("FATAL: cannot sum float and string", None),
            ),
            (Literal::Bool(b1), Literal::Bool(b2)) => Ok(Literal::Bool(b1 || b2)),
            _ => Err(Error::fatal("FATAL: cannot sum nil or identifier", None)),
        }
    }

    /// `-`: numeric difference; every other pair of operand kinds is a
    /// fatal mismatch.
    pub fn sub<A: Fn(NumOp, u64, u64) -> u64 + Copy>(v1: Literal, v2: Literal, arith: A) -> (r: Result<
        Literal,
        Error,
    >)
        requires
            arith_total(arith),
        ensures
            sub_post(arith, v1@, v2@, r),
    {
        match (v1, v2) {
            (Literal::String(_), Literal::String(_)) => Err(
                Error::fatal("FATAL: cannot sub string and string", None),
            ),
            (Literal::Float(a), Literal::Float(b)) => Ok(Literal::Float(arith(NumOp::Sub, a, b))),
            (Literal::String(_), Literal::Float(_)) => Err(
                Error::fatal("FATAL: cannot sub string and float", None),
            ),
            (Literal::Float(_), Literal::String(_)) => Err(
                Error::fatal("FATAL: cannot sub float and string", None),
            ),
            (Literal::Bool(_), Literal::Bool(_)) => Err(
                Error::fatal("FATAL: cannot sub bool and bool", None),
            ),
            _ => Err(Error::fatal("FATAL: cannot sub nil or identifier", None)),
        }
    }

    /// `*`: numeric product; every other pair of operand kinds is a
    /// fatal mismatch.
    pub fn mul<A: Fn(NumOp, u64, u64) -> u64 + Copy>(v1: Literal, v2: Literal, arith: A) -> (r: Result<
        Literal,
        Error,
    >)
        requires
            arith_total(arith),
        ensures
            mul_post(arith, v1@, v2@, r),
    {
        match (v1, v2) {
            (Literal::String(_), Literal::String(_)) => Err(
                Error::fatal("FATAL: cannot mul string and string", None),
            ),
            (Literal::Float(a), Literal::Float(b)) => Ok(Literal::Float(arith(NumOp::Mul, a, b))),
            (Literal::String(_), Literal::Float(_)) => Err(
                Error::fatal("FATAL: cannot mul string and float", None),
            ),
            (Literal::Float(_), Literal::String(_)) => Err(
                Error::fatal("FATAL: cannot mul float and string", None),
            ),
            (Literal::Bool(_), Literal::Bool(_)) => Err(
                Error::fatal("FATAL: cannot mul bool and bool", None),
            ),
            _ => Err(Error::fatal("FATAL: cannot mul nil or identifier", None)),
        }
    }

    /// `/`: numeric quotient; every other pair of operand kinds is a fatal
    /// mismatch.
    pub fn div<A: Fn(NumOp, u64, u64) -> u64 + Copy>(v1: Literal, v2: Literal, arith: A) -> (r: Result<
        Literal,
        Error,
    >)
        requires
            arith_total(arith),
        ensures
            div_post(arith, v1@, v2@, r),
    {
        match (v1, v2) {
            (Literal::String(_), Literal::String(_)) => Err(
                Error::fatal("FATAL: cannot div string and string", None),
            ),
            (Literal::Float(a), Literal::Float(b)) => Ok(Literal::Float(arith(NumOp::Div, a, b))),
            (Literal::String(_), Literal::Float(_)) => Err(
                Error::fatal("FATAL: cannot div string and float", None),
            ),
            (Literal::Float(_), Literal::String(_)) => Err(
                Error::fatal("FATAL: cannot div float and string", None),
            ),
            (Literal::Bool(_), Literal::Bool(_)) => Err(
                Error::fatal("FATAL: cannot div bool and bool", None),
            ),
            _ => Err(Error::fatal("FATAL: cannot div nil or identifier", None)),
        }
    }

    /// `==`: equality of two values of the same kind; every other pair of
    /// operand kinds is a fatal mismatch.
    pub fn eq<C: Fn(NumCmp, u64, u64) -> bool + Copy>(v1: Literal, v2: Literal, cmp: C) -> (r: Result<
        Literal,
        Error,
    >)
        requires
            cmp_total(cmp),
        ensures
            eq_post(cmp, v1@, v2@, r),
    {
        match (v1, v2) {
            (Literal::String(s1), Literal::String(s2)) => Ok(Literal::Bool(s1 == s2)),
            (Literal::Float(a), Literal::Float(b)) => Ok(Literal::Bool(cmp(NumCmp::Eq, a, b))),
            (Literal::String(_), Literal::Float(_)) => Err(
                Error::fatal("FATAL: cannot eq string and float", None),
            ),
            (Literal::Float(_), Literal::String(_)) => Err(
                Error::fatal("FATAL: cannot eq float and string", None),
            ),
            (Literal::Bool(b1), Literal::Bool(b2)) => Ok(Literal::Bool(b1 == b2)),
            _ => Err(Error::fatal("FATAL: cannot eq nil or identifier", None)),
        }
    }

    /// `>`: numeric comparison, string comparison by length (not
    /// lexicographic order), or boolean ordinal comparison.
    pub fn gt<C: Fn(NumCmp, u64, u64) -> bool + Copy>(v1: Literal, v2: Literal, cmp: C) -> (r: Result<
        Literal,
        Error,
    >)
        requires
            cmp_total(cmp),
        ensures
            gt_post(cmp, v1@, v2@, r),
    {
        match (v1, v2) {
            (Literal::String(s1), Literal::String(s2)) => Ok(
                Literal::Bool(s1.as_str().unicode_len() > s2.as_str().unicode_len()),
            ),
            (Literal::Float(a), Literal::Float(b)) => Ok(Literal::Bool(cmp(NumCmp::Gt, a, b))),
            (Literal::String(_), Literal::Float(_)) => Err(
                Error::fatal("FATAL: cannot gt string and float", None),
            ),
            (Literal::Float(_), Literal::String(_)) => Err(
                Error::fatal("FATAL: cannot gt float and string", None),
            ),
            (Literal::Bool(b1), Literal::Bool(b2)) => Ok(Literal::Bool(b1 && !b2)),
            _ => Err(Error::fatal("FATAL: cannot gt nil or identifier", None)),
        }
    }

    /// `>=`: numeric comparison, string comparison by length, or boolean
    /// ordinal comparison.
    pub fn egt<C: Fn(NumCmp, u64, u64) -> bool + Copy>(v1: Literal, v2: Literal, cmp: C) -> (r: Result<
        Literal,
        Error,
    >)
        requires
            cmp_total(cmp),
        ensures
            egt_post(cmp, v1@, v2@, r),
    {
        match (v1, v2) {
            (Literal::String(s1), Literal::String(s2)) => Ok(
                Literal::Bool(s1.as_str().unicode_len() >= s2.as_str().unicode_len()),
            ),
            (Literal::Float(a), Literal::Float(b)) => Ok(Literal::Bool(cmp(NumCmp::Ge, a, b))),
            (Literal::String(_), Literal::Float(_)) => Err(
                Error::fatal("FATAL: cannot egt string and float", None),
            ),
            (Literal::Float(_), Literal::String(_)) => Err(
                Error::fatal("FATAL: cannot egt float and string", None),
            ),
            (Literal::Bool(b1), Literal::Bool(b2)) => Ok(Literal::Bool(b1 || !b2)),
            _ => Err(Error::fatal("FATAL: cannot egt nil or identifier", None)),
        }
    }

    /// `<`: numeric comparison, string comparison by length, or boolean
    /// ordinal comparison.
    pub fn lt<C: Fn(NumCmp, u64, u64) -> bool + Copy>(v1: Literal, v2: Literal, cmp: C) -> (r: Result<
        Literal,
        Error,
    >)
        requires
            cmp_total(cmp),
        ensures
            lt_post(cmp, v1@, v2@, r),
    {
        match (v1, v2) {
            (Literal::String(s1), Literal::String(s2)) => Ok(
                Literal::Bool(s1.as_str().unicode_len() < s2.as_str().unicode_len()),
            ),
            (Literal::Float(a), Literal::Float(b)) => Ok(Literal::Bool(cmp(NumCmp::Lt, a, b))),
            (Literal::String(_), Literal::Float(_)) => Err(
                Error::fatal("FATAL: cannot lt string and float", None),
            ),
            (Literal::Float(_), Literal::String(_)) => Err(
                Error::fatal("FATAL: cannot lt float and string", None),
            ),
            (Literal::Bool(b1), Literal::Bool(b2)) => Ok(Literal::Bool(!b1 && b2)),
            _ => Err(Error::fatal("FATAL: cannot lt nil or identifier", None)),
        }
    }

    /// `<=`: numeric comparison, string comparison by length, or boolean
    /// ordinal comparison.
    pub fn elt<C: Fn(NumCmp, u64, u64) -> bool + Copy>(v1: Literal, v2: Literal, cmp: C) -> (r: Result<
        Literal,
        Error,
    >)
        requires
            cmp_total(cmp),
        ensures
            elt_post(cmp, v1@, v2@, r),
    {
        match (v1, v2) {
            (Literal::String(s1), Literal::String(s2)) => Ok(
                Literal::Bool(s1.as_str().unicode_len() <= s2.as_str().unicode_len()),
            ),
            (Literal::Float(a), Literal::Float(b)) => Ok(Literal::Bool(cmp(NumCmp::Le, a, b))),
            (Literal::String(_), Literal::Float(_)) => Err(
                Error::fatal("FATAL: cannot elt string and float", None),
            ),
            (Literal::Float(_), Literal::String(_)) => Err(
                Error::fatal("FATAL: cannot elt float and string", None),
            ),
            (Literal::Bool(b1), Literal::Bool(b2)) => Ok(Literal::Bool(!b1 || b2)),
            _ => Err(Error::fatal("FATAL: cannot elt nil or identifier", None)),
        }
    }
}

/// Whether `e` is a fatal diagnostic with message `m` and no token.
pub open spec fn err_fatal(e: Error, m: Seq<char>) -> bool {
    crate::error::err_is(e, ErrorType::Fatal, m, None)
}

impl PartialEq for Literal {
    fn eq(&self, o: &Literal) -> (r: bool) {
        let r = match (self, o) {
            (Literal::Float(a), Literal::Float(b)) => *a == *b,
            (Literal::String(a), Literal::String(b)) => *a == *b,
            (Literal::Bool(a), Literal::Bool(b)) => *a == *b,
            (Literal::Identifier(a), Literal::Identifier(b)) => *a == *b,
            (Literal::Nil, Literal::Nil) => true,
            _ => false,
        };
        proof {
            if self@ == o@ {
                assert(r);
            }
            if r {
                assert(self@ =~= o@);
            }
        }
        r
    }
}

impl vstd::std_specs::cmp::PartialEqSpecImpl for Literal {
    open spec fn obeys_eq_spec() -> bool {
        true
    }

    open spec fn eq_spec(&self, o: &Literal) -> bool {
        self@ == o@
    }
}

impl Eq for Literal {

}

/// Every token the lexer produces carries the lexical payload its kind
/// calls for: a number token its 64-bit pattern, a string token its
/// text, an identifier token its name, `true` and `false` their truth
/// value, and every other kind no value at all.
pub open spec fn token_shaped(t: TokView) -> bool {
    match t.toktype {
        TokenType::Number => t.literal is Float,
        TokenType::String => t.literal is Str,
        TokenType::Identifier => t.literal is Ident,
        TokenType::True => t.literal == LitView::Bool(true),
        TokenType::False => t.literal == LitView::Bool(false),
        _ => t.literal is Nil,
    }
}

/// A token: the smallest lexical unit, with its kind, its lexical value,
/// and the source position of its first character.
#[derive(Debug)]
pub struct Token {
    pub literal: Literal,
    pub toktype: TokenType,
    /// Character offset of the first character of the lexeme.
    pub place: usize,
    /// Zero-based line of the first character; rendered one-based.
    pub line: usize,
}

/// The mathematical model of a [`Token`].
#[verifier::ext_equal]
pub struct TokView {
    pub literal: LitView,
    pub toktype: TokenType,
    pub place: int,
    pub line: int,
}

impl View for Token {
    type V = TokView;

    open spec fn view(&self) -> TokView {
        TokView {
            literal: self.literal@,
            toktype: self.toktype,
            place: self.place as int,
            line: self.line as int,
        }
    }
}

impl Clone for Token {
    fn clone(&self) -> (res: Self)
        ensures
            res@ == self@,
    {
        let res = Token {
            literal: self.literal.clone(),
            toktype: self.toktype,
            place: self.place,
            line: self.line,
        };
        proof {
            assert(res@ =~= self@);
        }
        res
    }
}


/// The printable name of a token kind, as it appears in diagnostics.
pub open spec fn token_type_name(t: TokenType) -> Seq<char> {
    match t {
        TokenType::LeftParen => "LeftParen"@,
        TokenType::RightParen => "RightParen"@,
        TokenType::LeftBrace => "LeftBrace"@,
        TokenType::RightBrace => "RightBrace"@,
        TokenType::Comma => "Comma"@,
        TokenType::Dot => "Dot"@,
        TokenType::Minus => "Minus"@,
        TokenType::Plus => "Plus"@,
        TokenType::Semicolon => "Semicolon"@,
        TokenType::Slash => "Slash"@,
        TokenType::Star => "Star"@,
        TokenType::Bang => "Bang"@,
        TokenType::BangEqual => "BangEqual"@,
        TokenType::Equal => "Equal"@,
        TokenType::EqualEqual => "EqualEqual"@,
        TokenType::Greater => "Greater"@,
        TokenType::GreaterEqual => "GreaterEqual"@,
        TokenType::Less => "Less"@,
        TokenType::LessEqual => "LessEqual"@,
        TokenType::Identifier => "Identifier"@,
        TokenType::String => "String"@,
        TokenType::Number => "Number"@,
        TokenType::And => "And"@,
        TokenType::Class => "Class"@,
        TokenType::Else => "Else"@,
        TokenType::False => "False"@,
        TokenType::Fun => "Fun"@,
        TokenType::For => "For"@,
        TokenType::If => "If"@,
        TokenType::Nil => "Nil"@,
        TokenType::Or => "Or"@,
        TokenType::Print => "Print"@,
        TokenType::Return => "Return"@,
        TokenType::Super => "Super"@,
        TokenType::This => "This"@,
        TokenType::True => "True"@,
        TokenType::Var => "Var"@,
        TokenType::While => "While"@,
        TokenType::Eof => "Eof"@,
    }
}

/// Renders a token kind to its printable name.
pub fn toktype_text(t: TokenType) -> (r: String)
    ensures
        r@ == token_type_name(t),
{
    match t {
        TokenType::LeftParen => "LeftParen".to_owned(),
        TokenType::RightParen => "RightParen".to_owned(),
        TokenType::LeftBrace => "LeftBrace".to_owned(),
        TokenType::RightBrace => "RightBrace".to_owned(),
        TokenType::Comma => "Comma".to_owned(),
        TokenType::Dot => "Dot".to_owned(),
        TokenType::Minus => "Minus".to_owned(),
        TokenType::Plus => "Plus".to_owned(),
        TokenType::Semicolon => "Semicolon".to_owned(),
        TokenType::Slash => "Slash".to_owned(),
        TokenType::Star => "Star".to_owned(),
        TokenType::Bang => "Bang".to_owned(),
        TokenType::BangEqual => "BangEqual".to_owned(),
        TokenType::Equal => "Equal".to_owned(),
        TokenType::EqualEqual => "EqualEqual".to_owned(),
        TokenType::Greater => "Greater".to_owned(),
        TokenType::GreaterEqual => "GreaterEqual".to_owned(),
        TokenType::Less => "Less".to_owned(),
        TokenType::LessEqual => "LessEqual".to_owned(),
        TokenType::Identifier => "Identifier".to_owned(),
        TokenType::String => "String".to_owned(),
        TokenType::Number => "Number".to_owned(),
        TokenType::And => "And".to_owned(),
        TokenType::Class => "Class".to_owned(),
        TokenType::Else => "Else".to_owned(),
        TokenType::False => "False".to_owned(),
        TokenType::Fun => "Fun".to_owned(),
        TokenType::For => "For".to_owned(),
        TokenType::If => "If".to_owned(),
        TokenType::Nil => "Nil".to_owned(),
        TokenType::Or => "Or".to_owned(),
        TokenType::Print => "Print".to_owned(),
        TokenType::Return => "Return".to_owned(),
        TokenType::Super => "Super".to_owned(),
        TokenType::This => "This".to_owned(),
        TokenType::True => "True".to_owned(),
        TokenType::Var => "Var".to_owned(),
        TokenType::While => "While".to_owned(),
        TokenType::Eof => "Eof".to_owned(),
    }
}

/// The embedder's rendering closure must accept every bit pattern.
pub open spec fn render_total<R: Fn(u64) -> String>(render: R) -> bool {
    forall|b: u64| #[trigger] call_requires(render, (b,))
}

impl Literal {
    /// Renders a value to text: numbers through the embedder's rendering
    /// closure, booleans as `true`/`false`, nil as `nil`, strings and
    /// identifiers as their own text.
    pub fn to_text<R: Fn(u64) -> String + Copy>(&self, render: R) -> (r: String)
        requires
            render_total(render),
        ensures
            match self@ {
                LitView::Float(b) => call_ensures(render, (b,), r),
                LitView::Str(s) => r@ == s,
                LitView::Bool(b) => r@ == (if b { "true"@ } else { "false"@ }),
                LitView::Ident(s) => r@ == s,
                LitView::Nil => r@ == "nil"@,
            },
    {
        match self {
            Literal::Float(b) => render(*b),
            Literal::String(v) => v.clone(),
            Literal::Bool(v) => if *v { "true".to_owned() } else { "false".to_owned() },
            Literal::Identifier(v) => v.clone(),
            Literal::Nil => "nil".to_owned(),
        }
    }
}

} // verus!
