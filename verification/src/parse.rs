//! The parser: turns the token sequence into a statement sequence by
//! precedence-climbing recursive descent, recovering from errors in panic
//! mode so that one pass can report several independent syntax errors.

use vstd::prelude::*;
use vstd::string::StringExecFns;

use crate::error::Error;
use crate::error::ErrorType;
use crate::token::Literal;
use crate::token::LitView;
use crate::token::Token;
use crate::token::TokenType;

verus! {

/// A statement of the language.
pub enum Stmt {
    Print(Expr),
    /// A variable declaration: the name token and the initializer, which
    /// defaults to the `nil` constant when none was written.
    Variable(Token, Expr),
    Expression(Expr),
    /// A braced block of statements, run in a child scope.
    Block(Vec<Stmt>),
}

/// An expression of the language.
pub enum Expr {
    Binary(Box<Expr>, Token, Box<Expr>),
    Unary(Token, Box<Expr>),
    Group(Box<Expr>),
    Variable(Token),
    Assign(Token, Box<Expr>),
    Constant(Literal),
}

/// Structural soundness of a parsed expression: every variable reference
/// carries an identifier token, and every assignment target was validated
/// to be a bare variable name.
pub open spec fn expr_wf(e: Expr) -> bool
    decreases e,
{
    match e {
        Expr::Binary(l, _, r) => expr_wf(*l) && expr_wf(*r),
        Expr::Unary(_, i) => expr_wf(*i),
        Expr::Group(i) => expr_wf(*i),
        Expr::Variable(t) => t.toktype == TokenType::Identifier,
        Expr::Assign(t, i) => t.toktype == TokenType::Identifier && (t.literal@ matches
        LitView::Ident(_)) && expr_wf(*i),
        Expr::Constant(_) => true,
    }
}

/// Structural soundness of a parsed statement: every expression in it is
/// sound and every declared name is an identifier token.
pub open spec fn stmt_wf(s: Stmt) -> bool
    decreases s,
{
    match s {
        Stmt::Print(e) => expr_wf(e),
        Stmt::Variable(t, e) => t.toktype == TokenType::Identifier && expr_wf(e),
        Stmt::Expression(e) => expr_wf(e),
        Stmt::Block(v) => forall|i: int| 0 <= i < v@.len() ==> stmt_wf(#[trigger] v@[i]),
    }
}

/// The position of the first end-of-input token, or the length of the
/// sequence when there is none.
pub open spec fn eof_idx_from(toks: Seq<Token>, i: int) -> int
    decreases toks.len() - i,
{
    if i < 0 || i >= toks.len() {
        toks.len() as int
    } else if toks[i].toktype == TokenType::Eof {
        i
    } else {
        eof_idx_from(toks, i + 1)
    }
}

/// The position of the first end-of-input token.
pub open spec fn eof_idx(toks: Seq<Token>) -> int {
    eof_idx_from(toks, 0)
}

/// The first end-of-input token lies within the sequence, is an
/// end-of-input token, and no earlier token is one.
pub proof fn lemma_eof_idx_from(toks: Seq<Token>, i: int)
    requires
        0 <= i <= toks.len(),
    ensures
        i <= eof_idx_from(toks, i) <= toks.len(),
        eof_idx_from(toks, i) < toks.len() ==> toks[eof_idx_from(toks, i)].toktype
            == TokenType::Eof,
        forall|k: int| i <= k < eof_idx_from(toks, i) ==> toks[k].toktype != TokenType::Eof,
    decreases toks.len() - i,
{
    if i < toks.len() && toks[i].toktype != TokenType::Eof {
        lemma_eof_idx_from(toks, i + 1);
    }
}

/// The diagnostic for a missing expression is not the one for a bad
/// assignment target.
proof fn lemma_expected_expression_msg()
    ensures
        "expected expression"@ != "invalid assignment target"@,
{
    reveal_strlit("expected expression");
    reveal_strlit("invalid assignment target");
    assert("expected expression"@[0] == 'e');
    assert("invalid assignment target"@[0] == 'i');
}

/// No expected-token diagnostic is the one for a bad assignment target.
proof fn lemma_expected_token_msg(suffix: Seq<char>)
    ensures
        "expected "@ + suffix != "invalid assignment target"@,
{
    reveal_strlit("expected ");
    reveal_strlit("invalid assignment target");
    assert(("expected "@ + suffix)[0] == 'e');
    assert("invalid assignment target"@[0] == 'i');
}

/// Trigger marker naming a split position inside the grammar relations;
/// a proof introduces an existential position by asserting its marker.
pub open spec fn split_at(k: int) -> bool {
    true
}

/// The token kinds that carry a literal usable as a primary constant.
pub open spec fn constant_kind(t: TokenType) -> bool {
    t == TokenType::True || t == TokenType::False || t == TokenType::Nil || t == TokenType::Number
        || t == TokenType::String
}

/// `e` is the parse of the primary expression spanning tokens `i` up to
/// `j`: a literal constant, a variable reference, or a parenthesized
/// expression.
pub open spec fn primary_parse(toks: Seq<Token>, i: int, j: int, e: Expr) -> bool
    decreases e, 0int,
{
    match e {
        Expr::Constant(lit) => j == i + 1 && 0 <= i < toks.len() && constant_kind(toks[i].toktype)
            && lit@ == toks[i].literal@,
        Expr::Variable(t) => j == i + 1 && 0 <= i < toks.len() && toks[i].toktype
            == TokenType::Identifier && t@ == toks[i]@,
        Expr::Group(inner) => 0 <= i && i + 1 < j <= toks.len() && toks[i].toktype
            == TokenType::LeftParen && toks[j - 1].toktype == TokenType::RightParen
            && expression_parse(toks, i + 1, j - 1, *inner),
        _ => false,
    }
}

/// `e` is the parse of the unary expression spanning `i` up to `j`.
pub open spec fn unary_parse(toks: Seq<Token>, i: int, j: int, e: Expr) -> bool
    decreases e, 1int,
{
    ||| primary_parse(toks, i, j, e)
    ||| (e matches Expr::Unary(op, inner) && 0 <= i < toks.len() && i + 1 < j && op@ == toks[i]@
        && (toks[i].toktype == TokenType::Minus || toks[i].toktype == TokenType::Bang)
        && unary_parse(toks, i + 1, j, *inner))
}

/// `e` is the parse of the factor spanning `i` up to `j`: unary
/// expressions joined left-associatively by `*` and `/`.
pub open spec fn factor_parse(toks: Seq<Token>, i: int, j: int, e: Expr) -> bool
    decreases e, 2int,
{
    ||| unary_parse(toks, i, j, e)
    ||| (e matches Expr::Binary(l, op, r) && i + 2 < j && (exists|k: int|
        #![trigger split_at(k)]
        i < k && k + 1 <= j && 0 <= k < toks.len() && factor_parse(toks, i, k, *l) && op@
            == toks[k]@ && (toks[k].toktype == TokenType::Slash || toks[k].toktype
            == TokenType::Star) && unary_parse(toks, k + 1, j, *r)))
}

/// `e` is the parse of the term spanning `i` up to `j`: factors joined
/// left-associatively by `+` and `-`.
pub open spec fn term_parse(toks: Seq<Token>, i: int, j: int, e: Expr) -> bool
    decreases e, 3int,
{
    ||| factor_parse(toks, i, j, e)
    ||| (e matches Expr::Binary(l, op, r) && i + 2 < j && (exists|k: int|
        #![trigger split_at(k)]
        i < k && k + 1 <= j && 0 <= k < toks.len() && term_parse(toks, i, k, *l) && op@ == toks[k]@
            && (toks[k].toktype == TokenType::Minus || toks[k].toktype == TokenType::Plus)
            && factor_parse(toks, k + 1, j, *r)))
}

/// `e` is the parse of the comparison spanning `i` up to `j`: terms
/// joined left-associatively by the four ordering operators.
pub open spec fn comparison_parse(toks: Seq<Token>, i: int, j: int, e: Expr) -> bool
    decreases e, 4int,
{
    ||| term_parse(toks, i, j, e)
    ||| (e matches Expr::Binary(l, op, r) && i + 2 < j && (exists|k: int|
        #![trigger split_at(k)]
        i < k && k + 1 <= j && 0 <= k < toks.len() && comparison_parse(toks, i, k, *l) && op@
            == toks[k]@ && (toks[k].toktype == TokenType::Less || toks[k].toktype
            == TokenType::LessEqual || toks[k].toktype == TokenType::Greater || toks[k].toktype
            == TokenType::GreaterEqual) && term_parse(toks, k + 1, j, *r)))
}

/// `e` is the parse of the equality spanning `i` up to `j`: comparisons
/// joined left-associatively by `==` and `!=`.
pub open spec fn equality_parse(toks: Seq<Token>, i: int, j: int, e: Expr) -> bool
    decreases e, 5int,
{
    ||| comparison_parse(toks, i, j, e)
    ||| (e matches Expr::Binary(l, op, r) && i + 2 < j && (exists|k: int|
        #![trigger split_at(k)]
        i < k && k + 1 <= j && 0 <= k < toks.len() && equality_parse(toks, i, k, *l) && op@
            == toks[k]@ && (toks[k].toktype == TokenType::BangEqual || toks[k].toktype
            == TokenType::EqualEqual) && comparison_parse(toks, k + 1, j, *r)))
}

/// `e` is the parse of the assignment spanning `i` up to `j`: an
/// equality, or a variable target, `=`, and another assignment,
/// right-associatively.
pub open spec fn assignment_parse(toks: Seq<Token>, i: int, j: int, e: Expr) -> bool
    decreases e, 6int,
{
    ||| equality_parse(toks, i, j, e)
    ||| (e matches Expr::Assign(t, inner) && 0 <= i && i + 1 < toks.len() && i + 2 < j
        && toks[i].toktype == TokenType::Identifier && t@ == toks[i]@ && toks[i + 1].toktype
        == TokenType::Equal && assignment_parse(toks, i + 2, j, *inner))
}

/// `e` is the parse of the expression spanning `i` up to `j`.
pub open spec fn expression_parse(toks: Seq<Token>, i: int, j: int, e: Expr) -> bool
    decreases e, 7int,
{
    assignment_parse(toks, i, j, e)
}

/// The tokens `i` up to `j` are an expression followed by `;`, parsing
/// to `e`: the body shared by expression statements and print statements.
pub open spec fn exprsemi_parse(toks: Seq<Token>, i: int, j: int, e: Expr) -> bool {
    exists|m: int|
        #![trigger split_at(m)]
        expression_parse(toks, i, m, e) && 0 <= m < toks.len() && toks[m].toktype
            == TokenType::Semicolon && j == m + 1
}

/// The tokens `i` up to `j` are the body of a variable declaration after
/// its keyword: a name, an optional `=` initializer defaulting to the
/// `nil` constant, and `;`.
pub open spec fn var_body_parse(toks: Seq<Token>, i: int, j: int, t: Token, init: Expr) -> bool {
    &&& 0 <= i < toks.len()
    &&& t@ == toks[i]@
    &&& toks[i].toktype == TokenType::Identifier
    &&& {
        ||| (init == Expr::Constant(Literal::Nil) && i + 1 < toks.len() && toks[i + 1].toktype
            == TokenType::Semicolon && j == i + 2)
        ||| (i + 1 < toks.len() && toks[i + 1].toktype == TokenType::Equal && exprsemi_parse(
            toks,
            i + 2,
            j,
            init,
        ))
    }
}


/// Where the primary expression starting at `i` ends, or `None` when
/// none starts there: the deterministic success condition of the parser,
/// production by production. Together with the parse relations these
/// functions pin the parser completely: it succeeds exactly when the end
/// function is defined, consumes exactly up to it, and the result is a
/// parse of that span.
pub open spec fn primary_end(toks: Seq<Token>, i: int) -> Option<int>
    decreases toks.len() - i, 1int,
{
    if i < 0 || i >= toks.len() {
        None
    } else if constant_kind(toks[i].toktype) || toks[i].toktype == TokenType::Identifier {
        Some(i + 1)
    } else if toks[i].toktype == TokenType::LeftParen {
        match expression_end(toks, i + 1) {
            Some(m) => if 0 <= m < toks.len() && toks[m].toktype == TokenType::RightParen {
                Some(m + 1)
            } else {
                None
            },
            None => None,
        }
    } else {
        None
    }
}

/// Where the unary expression starting at `i` ends.
pub open spec fn unary_end(toks: Seq<Token>, i: int) -> Option<int>
    decreases toks.len() - i, 2int,
{
    if 0 <= i < toks.len() && (toks[i].toktype == TokenType::Minus || toks[i].toktype
        == TokenType::Bang) {
        unary_end(toks, i + 1)
    } else {
        primary_end(toks, i)
    }
}

/// Where the factor whose first operand ends at `k` ends: as long as a
/// `*` or `/` follows, another unary operand is consumed.
pub open spec fn factor_more(toks: Seq<Token>, k: int) -> Option<int>
    decreases toks.len() - k, 4int,
{
    if 0 <= k < toks.len() && (toks[k].toktype == TokenType::Slash || toks[k].toktype
        == TokenType::Star) {
        match unary_end(toks, k + 1) {
            Some(m) => if k < m && m <= toks.len() {
                factor_more(toks, m)
            } else {
                None
            },
            None => None,
        }
    } else {
        Some(k)
    }
}

/// Where the factor starting at `i` ends.
pub open spec fn factor_end(toks: Seq<Token>, i: int) -> Option<int>
    decreases toks.len() - i, 3int,
{
    match unary_end(toks, i) {
        Some(k) => if i < k && k <= toks.len() {
            factor_more(toks, k)
        } else {
            None
        },
        None => None,
    }
}

/// Where the term whose first operand ends at `k` ends.
pub open spec fn term_more(toks: Seq<Token>, k: int) -> Option<int>
    decreases toks.len() - k, 6int,
{
    if 0 <= k < toks.len() && (toks[k].toktype == TokenType::Minus || toks[k].toktype
        == TokenType::Plus) {
        match factor_end(toks, k + 1) {
            Some(m) => if k < m && m <= toks.len() {
                term_more(toks, m)
            } else {
                None
            },
            None => None,
        }
    } else {
        Some(k)
    }
}

/// Where the term starting at `i` ends.
pub open spec fn term_end(toks: Seq<Token>, i: int) -> Option<int>
    decreases toks.len() - i, 5int,
{
    match factor_end(toks, i) {
        Some(k) => if i < k && k <= toks.len() {
            term_more(toks, k)
        } else {
            None
        },
        None => None,
    }
}

/// Where the comparison whose first operand ends at `k` ends.
pub open spec fn comparison_more(toks: Seq<Token>, k: int) -> Option<int>
    decreases toks.len() - k, 8int,
{
    if 0 <= k < toks.len() && (toks[k].toktype == TokenType::Less || toks[k].toktype
        == TokenType::LessEqual || toks[k].toktype == TokenType::Greater || toks[k].toktype
        == TokenType::GreaterEqual) {
        match term_end(toks, k + 1) {
            Some(m) => if k < m && m <= toks.len() {
                comparison_more(toks, m)
            } else {
                None
            },
            None => None,
        }
    } else {
        Some(k)
    }
}

/// Where the comparison starting at `i` ends.
pub open spec fn comparison_end(toks: Seq<Token>, i: int) -> Option<int>
    decreases toks.len() - i, 7int,
{
    match term_end(toks, i) {
        Some(k) => if i < k && k <= toks.len() {
            comparison_more(toks, k)
        } else {
            None
        },
        None => None,
    }
}

/// Where the equality whose first operand ends at `k` ends.
pub open spec fn equality_more(toks: Seq<Token>, k: int) -> Option<int>
    decreases toks.len() - k, 10int,
{
    if 0 <= k < toks.len() && (toks[k].toktype == TokenType::BangEqual || toks[k].toktype
        == TokenType::EqualEqual) {
        match comparison_end(toks, k + 1) {
            Some(m) => if k < m && m <= toks.len() {
                equality_more(toks, m)
            } else {
                None
            },
            None => None,
        }
    } else {
        Some(k)
    }
}

/// Where the equality starting at `i` ends.
pub open spec fn equality_end(toks: Seq<Token>, i: int) -> Option<int>
    decreases toks.len() - i, 9int,
{
    match comparison_end(toks, i) {
        Some(k) => if i < k && k <= toks.len() {
            equality_more(toks, k)
        } else {
            None
        },
        None => None,
    }
}

/// Where the assignment starting at `i` ends. When an `=` follows the
/// left-hand side, the parse goes on only if that side was a bare
/// variable reference: any other shape is the invalid-assignment-target
/// error.
pub open spec fn assignment_end(toks: Seq<Token>, i: int) -> Option<int>
    decreases toks.len() - i, 11int,
{
    match equality_end(toks, i) {
        Some(k) => if 0 <= k < toks.len() && toks[k].toktype == TokenType::Equal {
            if 0 <= i < toks.len() && toks[i].toktype == TokenType::Identifier && (
            toks[i].literal@ matches LitView::Ident(_)) && k == i + 1 {
                assignment_end(toks, k + 1)
            } else {
                None
            }
        } else {
            Some(k)
        },
        None => None,
    }
}

/// Where the expression starting at `i` ends.
pub open spec fn expression_end(toks: Seq<Token>, i: int) -> Option<int>
    decreases toks.len() - i, 12int,
{
    assignment_end(toks, i)
}

/// Where an expression followed by `;` starting at `i` ends.
pub open spec fn exprsemi_end(toks: Seq<Token>, i: int) -> Option<int>
    decreases toks.len() - i, 13int,
{
    match expression_end(toks, i) {
        Some(m) => if 0 <= m < toks.len() && toks[m].toktype == TokenType::Semicolon {
            Some(m + 1)
        } else {
            None
        },
        None => None,
    }
}

/// Where the body of a variable declaration starting at `i` (after its
/// keyword) ends.
pub open spec fn var_body_end(toks: Seq<Token>, i: int) -> Option<int>
    decreases toks.len() - i, 14int,
{
    if !(0 <= i < toks.len() && toks[i].toktype == TokenType::Identifier) {
        None
    } else if i + 1 < toks.len() && toks[i + 1].toktype == TokenType::Semicolon {
        Some(i + 2)
    } else if i + 1 < toks.len() && toks[i + 1].toktype == TokenType::Equal {
        exprsemi_end(toks, i + 2)
    } else {
        None
    }
}

/// Where the statement starting at `i` ends.
pub open spec fn statement_end(toks: Seq<Token>, i: int) -> Option<int>
    decreases toks.len() - i, 15int,
{
    if 0 <= i < toks.len() && toks[i].toktype == TokenType::Print {
        exprsemi_end(toks, i + 1)
    } else if 0 <= i < toks.len() && toks[i].toktype == TokenType::LeftBrace {
        block_body_end(toks, i + 1)
    } else {
        exprsemi_end(toks, i)
    }
}

/// Where the contents of a block starting at `k` (after its `{`) end:
/// declarations up to the matching `}`; running out of input first is
/// the unclosed-block error.
pub open spec fn block_body_end(toks: Seq<Token>, k: int) -> Option<int>
    decreases toks.len() - k, 17int,
{
    if !(0 <= k < toks.len()) {
        None
    } else if toks[k].toktype == TokenType::RightBrace {
        Some(k + 1)
    } else {
        match declaration_end(toks, k) {
            Some(m) => if k < m && m <= toks.len() {
                block_body_end(toks, m)
            } else {
                None
            },
            None => None,
        }
    }
}

/// Where the declaration starting at `i` ends.
pub open spec fn declaration_end(toks: Seq<Token>, i: int) -> Option<int>
    decreases toks.len() - i, 16int,
{
    if 0 <= i < toks.len() && toks[i].toktype == TokenType::Var {
        var_body_end(toks, i + 1)
    } else {
        statement_end(toks, i)
    }
}

/// A span of exactly one identifier token parses only to the variable
/// reference carrying that token: every other expression shape needs
/// other kinds or more room.
proof fn lemma_assignment_target_shape(toks: Seq<Token>, i: int, k: int, e: Expr)
    requires
        equality_parse(toks, i, k, e),
        0 <= i < toks.len(),
    ensures
        (toks[i].toktype == TokenType::Identifier && k == i + 1) ==> (e matches Expr::Variable(t)
            && t@ == toks[i]@),
{
    if toks[i].toktype == TokenType::Identifier && k == i + 1 {
        assert(comparison_parse(toks, i, k, e));
        assert(term_parse(toks, i, k, e));
        assert(factor_parse(toks, i, k, e));
        assert(unary_parse(toks, i, k, e));
        assert(primary_parse(toks, i, k, e));
    }
}

/// No declaration starts at a token that begins no production: the end
/// functions come back `None` all the way up the grammar.
proof fn lemma_no_declaration_at(toks: Seq<Token>, i: int)
    requires
        0 <= i < toks.len(),
        !constant_kind(toks[i].toktype),
        toks[i].toktype != TokenType::Identifier,
        toks[i].toktype != TokenType::LeftParen,
        toks[i].toktype != TokenType::Minus,
        toks[i].toktype != TokenType::Bang,
        toks[i].toktype != TokenType::Print,
        toks[i].toktype != TokenType::LeftBrace,
        toks[i].toktype != TokenType::Var,
    ensures
        declaration_end(toks, i) is None,
        statement_end(toks, i) is None,
        exprsemi_end(toks, i) is None,
        expression_end(toks, i) is None,
{
    assert(primary_end(toks, i) is None);
    assert(unary_end(toks, i) is None);
    assert(factor_end(toks, i) is None);
    assert(term_end(toks, i) is None);
    assert(comparison_end(toks, i) is None);
    assert(equality_end(toks, i) is None);
    assert(assignment_end(toks, i) is None);
}

/// `s` is the parse of the declaration spanning `i` up to `j`.
pub open spec fn decl_stmt_parse(toks: Seq<Token>, i: int, j: int, s: Stmt) -> bool {
    match s {
        Stmt::Variable(t, init) => 0 <= i < toks.len() && toks[i].toktype == TokenType::Var
            && var_body_parse(toks, i + 1, j, t, init),
        Stmt::Print(e) => 0 <= i < toks.len() && toks[i].toktype == TokenType::Print
            && exprsemi_parse(toks, i + 1, j, e),
        Stmt::Expression(e) => exprsemi_parse(toks, i, j, e),
        Stmt::Block(_) => 0 <= i < toks.len() && toks[i].toktype == TokenType::LeftBrace && 1 <= j
            <= toks.len() && toks[j - 1].toktype == TokenType::RightBrace,
    }
}

/// Where the scanner of panic-mode recovery stops, hunting forward from
/// `j`: at the end of the input, just past a `;`, or at a token that
/// begins a statement or declaration.
pub open spec fn sync_scan(toks: Seq<Token>, j: int) -> int
    decreases toks.len() - j,
{
    if !(0 < j < toks.len()) {
        j
    } else if toks[j].toktype == TokenType::Eof {
        j
    } else if toks[j - 1].toktype == TokenType::Semicolon {
        j
    } else if toks[j].toktype matches (TokenType::Class | TokenType::Fun | TokenType::Var
        | TokenType::For | TokenType::If | TokenType::While | TokenType::Print
        | TokenType::Return) {
        j
    } else {
        sync_scan(toks, j + 1)
    }
}

/// Recovery never moves backwards nor past the end of the token list.
pub proof fn lemma_sync_scan_bounds(toks: Seq<Token>, j: int)
    requires
        0 < j <= toks.len(),
    ensures
        j <= sync_scan(toks, j) <= toks.len(),
    decreases toks.len() - j,
{
    if 0 < j < toks.len() && toks[j].toktype != TokenType::Eof && toks[j - 1].toktype
        != TokenType::Semicolon && !(toks[j].toktype matches (TokenType::Class | TokenType::Fun
        | TokenType::Var | TokenType::For | TokenType::If | TokenType::While | TokenType::Print
        | TokenType::Return)) {
        lemma_sync_scan_bounds(toks, j + 1);
    }
}

/// The whole parsing pass, tiled over the token list: from position `i`,
/// the statements from index `si` on and exactly `ndiags` recorded
/// diagnostics cover the tokens up to the end of the input. Where a
/// declaration parses, it yields the next statement over exactly its
/// span; where none parses, one diagnostic stands for the malformed
/// stretch and the pass resumes at some later position.
pub open spec fn parse_run(toks: Seq<Token>, i: int, stmts: Seq<Stmt>, si: int, ndiags: int) -> bool
    decreases toks.len() - i,
{
    if i >= eof_idx(toks) {
        si == stmts.len() && ndiags == 0
    } else {
        match declaration_end(toks, i) {
            Some(j) => 0 <= si < stmts.len() && decl_stmt_parse(toks, i, j, stmts[si]) && (if i < j
                && j <= toks.len() {
                parse_run(toks, j, stmts, si + 1, ndiags)
            } else {
                false
            }),
            None => ndiags >= 1 && (exists|g: int|
                #![trigger split_at(g)]
                i < g && g <= toks.len() && (if i < g && g <= toks.len() {
                    parse_run(toks, g, stmts, si, ndiags - 1)
                } else {
                    false
                })),
        }
    }
}

/// One successful step of the pass extends the tiling by one statement.
proof fn lemma_parse_run_cons_ok(
    toks: Seq<Token>,
    k: int,
    j: int,
    s: Stmt,
    fin: Seq<Stmt>,
    si: int,
    nd: int,
)
    requires
        k < eof_idx(toks),
        declaration_end(toks, k) == Some(j),
        k < j <= toks.len(),
        0 <= si < fin.len(),
        fin[si] == s,
        decl_stmt_parse(toks, k, j, s),
        parse_run(toks, j, fin, si + 1, nd),
    ensures
        parse_run(toks, k, fin, si, nd),
{
}

/// One failed step of the pass accounts for one diagnostic and resumes
/// at the recovery position.
proof fn lemma_parse_run_cons_err(toks: Seq<Token>, k: int, g: int, fin: Seq<Stmt>, si: int, nd: int)
    requires
        k < eof_idx(toks),
        declaration_end(toks, k) is None,
        k < g <= toks.len(),
        0 <= nd,
        parse_run(toks, g, fin, si, nd),
    ensures
        parse_run(toks, k, fin, si, nd + 1),
{
    assert(split_at(g));
}

/// Where panic-mode recovery is allowed to land: at the end of the
/// input, just past a statement terminator, or at a token that begins a
/// new statement or declaration.
pub open spec fn resynchronized(p: Parser) -> bool {
    ||| p.current as int == eof_idx(p.tokens@)
    ||| (p.current >= 1 && p.tokens@[p.current as int - 1].toktype == TokenType::Semicolon)
    ||| (p.current < p.tokens@.len() && (p.tokens@[p.current as int].toktype matches (
        TokenType::Class
        | TokenType::Fun
        | TokenType::Var
        | TokenType::For
        | TokenType::If
        | TokenType::While
        | TokenType::Print
        | TokenType::Return
    )))
}

/// The parser: the token sequence, terminated by an explicit end-of-input
/// token, and the position of the next token to consume.
pub struct Parser {
    pub tokens: Vec<Token>,
    pub current: usize,
}

impl Parser {
    /// The parser never runs past the first end-of-input token, which
    /// must exist.
    pub open spec fn wf(self) -> bool {
        &&& eof_idx(self.tokens@) < self.tokens@.len()
        &&& self.current as int <= eof_idx(self.tokens@)
    }

    /// A fresh parser over `tokens`, which must hold an end-of-input
    /// token; the caller appends one after lexing.
    pub fn new(tokens: Vec<Token>) -> (r: Self)
        requires
            exists|i: int|
                0 <= i < tokens@.len() && (#[trigger] tokens@[i]).toktype == TokenType::Eof,
        ensures
            r.wf(),
            r.tokens == tokens,
            r.current == 0,
    {
        let r = Parser { tokens, current: 0 };
        proof {
            lemma_eof_idx_from(r.tokens@, 0);
            let w = choose|i: int|
                0 <= i < r.tokens@.len() && (#[trigger] r.tokens@[i]).toktype == TokenType::Eof;
            assert(eof_idx(r.tokens@) <= w);
        }
        r
    }

    /// Whether the next token is the end of the input.
    fn is_at_end(&self) -> (r: bool)
        requires
            self.wf(),
        ensures
            r == (self.current as int == eof_idx(self.tokens@)),
    {
        proof {
            lemma_eof_idx_from(self.tokens@, 0);
        }
        self.tokens[self.current].toktype == TokenType::Eof
    }

    /// Consumes the next token exactly when its kind is one of
    /// `toktypes`; says whether it did.
    fn select(&mut self, toktypes: &[TokenType]) -> (r: bool)
        requires
            old(self).wf(),
        ensures
            final(self).wf(),
            final(self).tokens == old(self).tokens,
            r == (old(self).current as int != eof_idx(old(self).tokens@) && exists|k: int|
                0 <= k < toktypes@.len() && old(self).tokens@[old(self).current as int].toktype == (
                #[trigger] toktypes@[k])),
            r ==> final(self).current == old(self).current + 1,
            !r ==> *final(self) == *old(self),
    {
        proof {
            lemma_eof_idx_from(self.tokens@, 0);
            assert(self.tokens.len() == self.tokens@.len());
        }
        let mut j: usize = 0;
        while j < toktypes.len()
            invariant
                self == old(self),
                self.wf(),
                j <= toktypes@.len(),
                forall|k: int|
                    0 <= k < j ==> !(old(self).current as int != eof_idx(old(self).tokens@) && old(self).tokens@[old(self).current as int].toktype == (#[trigger] toktypes@[k])),
            decreases toktypes@.len() - j,
        {
            if !self.is_at_end() && self.tokens[self.current].toktype == toktypes[j] {
                proof {
                    assert(self.tokens.len() == self.tokens@.len());
                }
                self.current = self.current + 1;
                return true;
            }
            j = j + 1;
        }
        false
    }

    /// Advances past a token of kind `toktype` and hands it back, or
    /// produces a fatal diagnostic without advancing.
    fn consume(&mut self, toktype: TokenType) -> (r: Result<Token, Error>)
        requires
            old(self).wf(),
        ensures
            final(self).wf(),
            final(self).tokens == old(self).tokens,
            old(self).current as int != eof_idx(old(self).tokens@) && old(self).tokens@[old(self).current as int].toktype == toktype ==> (r matches Ok(t) && t@ == old(self).tokens@[old(self).current as int]@ && final(self).current == old(self).current + 1),
            !(old(self).current as int != eof_idx(old(self).tokens@) && old(self).tokens@[old(self).current as int].toktype == toktype) ==> (r matches Err(e) && e.typing
                == ErrorType::Fatal && e.msg@ == "expected "@ + crate::token::token_type_name(
                toktype,
            ) && *final(self) == *old(self)),
    {
        proof {
            lemma_eof_idx_from(self.tokens@, 0);
            assert(self.tokens.len() == self.tokens@.len());
        }
        if !self.is_at_end() && self.tokens[self.current].toktype == toktype {
            self.current = self.current + 1;
            return Ok(self.tokens[self.current - 1].clone());
        }
        let mut msg: String = "expected ".to_owned();
        let name = crate::token::toktype_text(toktype);
        msg.append(name.as_str());
        Err(Error { token: None, msg, typing: ErrorType::Fatal })
    }

    /// Panic-mode recovery: discards tokens until either a statement
    /// terminator has just been consumed or the next token begins a new
    /// statement, so that parsing can go on after an error. From anywhere
    /// short of the end of the input it consumes at least one token: the
    /// recovery cycle never stalls on one offset.
    fn synchronize(&mut self)
        requires
            old(self).wf(),
        ensures
            final(self).wf(),
            final(self).tokens == old(self).tokens,
            old(self).current <= final(self).current,
            (old(self).current as int) < eof_idx(old(self).tokens@) ==> old(self).current < final(self).current,
            resynchronized(*final(self)),
            final(self).current as int == (if old(self).current as int == eof_idx(
                old(self).tokens@,
            ) {
                old(self).current as int
            } else {
                sync_scan(old(self).tokens@, old(self).current as int + 1)
            }),
    {
        proof {
            lemma_eof_idx_from(self.tokens@, 0);
            assert(self.tokens.len() == self.tokens@.len());
        }
        if !self.is_at_end() {
            self.current = self.current + 1;
        }
        while !self.is_at_end()
            invariant
                self.wf(),
                self.tokens == old(self).tokens,
                old(self).current <= self.current,
                (old(self).current as int) < eof_idx(old(self).tokens@) ==> old(self).current
                    < self.current,
                (old(self).current as int) < eof_idx(old(self).tokens@) ==> 0 < self.current
                    as int && sync_scan(old(self).tokens@, self.current as int) == sync_scan(
                    old(self).tokens@,
                    old(self).current as int + 1,
                ),
                eof_idx(old(self).tokens@) < old(self).tokens@.len(),
                old(self).tokens@[eof_idx(old(self).tokens@)].toktype == TokenType::Eof,
                (old(self).current as int) == eof_idx(old(self).tokens@) ==> old(self).current
                    == self.current,
            ensures
                self.wf(),
                self.tokens == old(self).tokens,
                old(self).current <= self.current,
                (old(self).current as int) < eof_idx(old(self).tokens@) ==> old(self).current
                    < self.current,
                resynchronized(*self),
                self.current as int == (if old(self).current as int == eof_idx(old(self).tokens@) {
                    old(self).current as int
                } else {
                    sync_scan(old(self).tokens@, old(self).current as int + 1)
                }),
            decreases eof_idx(self.tokens@) - self.current,
        {
            proof {
                lemma_eof_idx_from(self.tokens@, 0);
                assert(self.tokens.len() == self.tokens@.len());
            }
            if self.tokens[self.current - 1].toktype == TokenType::Semicolon {
                proof {
                    assert(sync_scan(old(self).tokens@, self.current as int) == self.current as int);
                }
                return ;
            }
            match self.tokens[self.current].toktype {
                TokenType::Class | TokenType::Fun | TokenType::Var | TokenType::For | TokenType::If
                    | TokenType::While | TokenType::Print | TokenType::Return => {
                    proof {
                        assert(sync_scan(old(self).tokens@, self.current as int)
                            == self.current as int);
                    }
                    return ;
                },
                _ => {},
            }
            proof {
                assert(sync_scan(old(self).tokens@, self.current as int) == sync_scan(
                    old(self).tokens@,
                    self.current as int + 1,
                ));
            }
            self.current = self.current + 1;
        }
        proof {
            lemma_eof_idx_from(self.tokens@, 0);
            if (old(self).current as int) < eof_idx(old(self).tokens@) {
                assert(sync_scan(old(self).tokens@, self.current as int) == self.current as int);
            }
        }
    }

    /// Parses a primary expression: a literal constant, a variable
    /// reference, or a parenthesized expression.
    fn primary(&mut self) -> (r: Result<Expr, Error>)
        requires
            old(self).wf(),
        ensures
            final(self).wf(),
            final(self).tokens == old(self).tokens,
            old(self).current <= final(self).current,
            r matches Ok(e) ==> expr_wf(e) && old(self).current < final(self).current,
            r matches Ok(e) ==> primary_parse(
                old(self).tokens@,
                old(self).current as int,
                final(self).current as int,
                e,
            ),
            r is Ok ==> primary_end(old(self).tokens@, old(self).current as int) == Some(
                final(self).current as int,
            ),
            r is Err ==> primary_end(old(self).tokens@, old(self).current as int) is None,
            r matches Err(e) ==> e.typing == ErrorType::Fatal && (final(self).current == old(self).current ==> e.msg@ == "expected expression"@) && (e.msg@
                == "invalid assignment target"@ ==> (e.token matches Some(teq) && teq.toktype
                == TokenType::Equal)),
        decreases eof_idx(self.tokens@) - self.current, 1int,
    {
        proof {
            lemma_eof_idx_from(self.tokens@, 0);
        }
        if self.select(
            &[TokenType::True, TokenType::False, TokenType::Nil, TokenType::Number, TokenType::String],
        ) {
            return Ok(Expr::Constant(self.tokens[self.current - 1].literal.clone()));
        } else if self.select(&[TokenType::Identifier]) {
            return Ok(Expr::Variable(self.tokens[self.current - 1].clone()));
        } else if self.select(&[TokenType::LeftParen]) {
            let expr = self.expression();
            match self.consume(TokenType::RightParen) {
                Ok(_) => {},
                Err(e) => {
                    proof {
                        lemma_expected_token_msg(
                            crate::token::token_type_name(TokenType::RightParen),
                        );
                    }
                    return Err(e);
                },
            }
            return match expr {
                Ok(e) => Ok(Expr::Group(Box::new(e))),
                Err(e) => Err(e),
            };
        }
        proof {
            lemma_expected_expression_msg();
        }
        Err(Error::fatal("expected expression", Some(&self.tokens[self.current])))
    }

    /// Parses a unary expression: `-` or `!` applied to a unary
    /// expression, or a primary expression.
    fn unary(&mut self) -> (r: Result<Expr, Error>)
        requires
            old(self).wf(),
        ensures
            final(self).wf(),
            final(self).tokens == old(self).tokens,
            old(self).current <= final(self).current,
            r matches Ok(e) ==> expr_wf(e) && old(self).current < final(self).current,
            r matches Ok(e) ==> unary_parse(
                old(self).tokens@,
                old(self).current as int,
                final(self).current as int,
                e,
            ),
            r is Ok ==> unary_end(old(self).tokens@, old(self).current as int) == Some(
                final(self).current as int,
            ),
            r is Err ==> unary_end(old(self).tokens@, old(self).current as int) is None,
            r matches Err(e) ==> e.typing == ErrorType::Fatal && (final(self).current == old(self).current ==> e.msg@ == "expected expression"@) && (e.msg@
                == "invalid assignment target"@ ==> (e.token matches Some(teq) && teq.toktype
                == TokenType::Equal)),
        decreases eof_idx(self.tokens@) - self.current, 2int,
    {
        if self.select(&[TokenType::Minus, TokenType::Bang]) {
            let op = self.tokens[self.current - 1].clone();
            let expr = self.unary();
            return match expr {
                Ok(e) => Ok(Expr::Unary(op, Box::new(e))),
                Err(e) => Err(e),
            };
        }
        proof {
            lemma_eof_idx_from(self.tokens@, 0);
        }
        let rr = self.primary();
        proof {
            assert(unary_end(old(self).tokens@, old(self).current as int) == primary_end(
                old(self).tokens@,
                old(self).current as int,
            ));
        }
        rr
    }

    /// Parses a factor: unary expressions joined by `*` and `/`.
    fn factor(&mut self) -> (r: Result<Expr, Error>)
        requires
            old(self).wf(),
        ensures
            final(self).wf(),
            final(self).tokens == old(self).tokens,
            old(self).current <= final(self).current,
            r matches Ok(e) ==> expr_wf(e) && old(self).current < final(self).current,
            r matches Ok(e) ==> factor_parse(
                old(self).tokens@,
                old(self).current as int,
                final(self).current as int,
                e,
            ),
            r is Ok ==> factor_end(old(self).tokens@, old(self).current as int) == Some(
                final(self).current as int,
            ),
            r is Err ==> factor_end(old(self).tokens@, old(self).current as int) is None,
            r matches Err(e) ==> e.typing == ErrorType::Fatal && (final(self).current == old(self).current ==> e.msg@ == "expected expression"@) && (e.msg@
                == "invalid assignment target"@ ==> (e.token matches Some(teq) && teq.toktype
                == TokenType::Equal)),
        decreases eof_idx(self.tokens@) - self.current, 3int,
    {
        let mut expr1 = self.unary();
        proof {
            assert(self.tokens.len() == self.tokens@.len());
            if expr1 is Ok {
                assert(factor_end(old(self).tokens@, old(self).current as int) == factor_more(
                    old(self).tokens@,
                    self.current as int,
                ));
            }
        }
        loop
            invariant
                self.wf(),
                self.tokens == old(self).tokens,
                old(self).current <= self.current,
                expr1 matches Ok(e) ==> expr_wf(e) && old(self).current < self.current,
                expr1 matches Err(e) ==> e.typing == ErrorType::Fatal && (self.current == old(self).current ==> e.msg@ == "expected expression"@) && (e.msg@
                    == "invalid assignment target"@ ==> (e.token matches Some(teq) && teq.toktype
                    == TokenType::Equal)),
                expr1 matches Ok(e) ==> factor_parse(
                    old(self).tokens@,
                    old(self).current as int,
                    self.current as int,
                    e,
                ),
                expr1 is Ok ==> factor_more(old(self).tokens@, self.current as int) == factor_end(
                    old(self).tokens@,
                    old(self).current as int,
                ),
                expr1 is Err ==> factor_end(old(self).tokens@, old(self).current as int) is None,
            ensures
                self.wf(),
                self.tokens == old(self).tokens,
                old(self).current <= self.current,
                expr1 matches Ok(e) ==> expr_wf(e) && old(self).current < self.current,
                expr1 matches Err(e) ==> e.typing == ErrorType::Fatal && (self.current == old(self).current ==> e.msg@ == "expected expression"@) && (e.msg@
                    == "invalid assignment target"@ ==> (e.token matches Some(teq) && teq.toktype
                    == TokenType::Equal)),
                expr1 matches Ok(e) ==> factor_parse(
                    old(self).tokens@,
                    old(self).current as int,
                    self.current as int,
                    e,
                ),
                expr1 is Ok ==> factor_end(old(self).tokens@, old(self).current as int) == Some(
                    self.current as int,
                ),
                expr1 is Err ==> factor_end(old(self).tokens@, old(self).current as int) is None,
            decreases eof_idx(self.tokens@) - self.current,
        {
            if !self.select(&[TokenType::Slash, TokenType::Star]) {
                proof {
                    lemma_eof_idx_from(self.tokens@, 0);
                    if expr1 is Ok {
                        assert(factor_more(old(self).tokens@, self.current as int) == Some(
                            self.current as int,
                        ));
                    }
                }
                break ;
            }
            let ghost k = self.current as int - 1;
            let op = self.tokens[self.current - 1].clone();
            let expr2 = self.unary();
            let e1 = match expr1 {
                Ok(e) => e,
                Err(e) => {
                    return Err(e);
                },
            };
            let e2 = match expr2 {
                Ok(e) => e,
                Err(e) => {
                    proof {
                        assert(factor_more(old(self).tokens@, k) is None);
                    }
                    return Err(e);
                },
            };
            expr1 = Ok(Expr::Binary(Box::new(e1), op, Box::new(e2)));
            proof {
                assert(split_at(k));
                assert(factor_parse(
                    old(self).tokens@,
                    old(self).current as int,
                    self.current as int,
                    expr1->Ok_0,
                ));
                assert(self.tokens.len() == self.tokens@.len());
                assert(factor_more(old(self).tokens@, k) == factor_more(
                    old(self).tokens@,
                    self.current as int,
                ));
            }
        }
        expr1
    }

    /// Parses a term: factors joined by `+` and `-`.
    fn term(&mut self) -> (r: Result<Expr, Error>)
        requires
            old(self).wf(),
        ensures
            final(self).wf(),
            final(self).tokens == old(self).tokens,
            old(self).current <= final(self).current,
            r matches Ok(e) ==> expr_wf(e) && old(self).current < final(self).current,
            r matches Ok(e) ==> term_parse(
                old(self).tokens@,
                old(self).current as int,
                final(self).current as int,
                e,
            ),
            r is Ok ==> term_end(old(self).tokens@, old(self).current as int) == Some(
                final(self).current as int,
            ),
            r is Err ==> term_end(old(self).tokens@, old(self).current as int) is None,
            r matches Err(e) ==> e.typing == ErrorType::Fatal && (final(self).current == old(self).current ==> e.msg@ == "expected expression"@) && (e.msg@
                == "invalid assignment target"@ ==> (e.token matches Some(teq) && teq.toktype
                == TokenType::Equal)),
        decreases eof_idx(self.tokens@) - self.current, 4int,
    {
        let mut expr1 = self.factor();
        proof {
            assert(self.tokens.len() == self.tokens@.len());
            if expr1 is Ok {
                assert(term_end(old(self).tokens@, old(self).current as int) == term_more(
                    old(self).tokens@,
                    self.current as int,
                ));
            }
        }
        loop
            invariant
                self.wf(),
                self.tokens == old(self).tokens,
                old(self).current <= self.current,
                expr1 matches Ok(e) ==> expr_wf(e) && old(self).current < self.current,
                expr1 matches Err(e) ==> e.typing == ErrorType::Fatal && (self.current == old(self).current ==> e.msg@ == "expected expression"@) && (e.msg@
                    == "invalid assignment target"@ ==> (e.token matches Some(teq) && teq.toktype
                    == TokenType::Equal)),
                expr1 matches Ok(e) ==> term_parse(
                    old(self).tokens@,
                    old(self).current as int,
                    self.current as int,
                    e,
                ),
                expr1 is Ok ==> term_more(old(self).tokens@, self.current as int) == term_end(
                    old(self).tokens@,
                    old(self).current as int,
                ),
                expr1 is Err ==> term_end(old(self).tokens@, old(self).current as int) is None,
            ensures
                self.wf(),
                self.tokens == old(self).tokens,
                old(self).current <= self.current,
                expr1 matches Ok(e) ==> expr_wf(e) && old(self).current < self.current,
                expr1 matches Err(e) ==> e.typing == ErrorType::Fatal && (self.current == old(self).current ==> e.msg@ == "expected expression"@) && (e.msg@
                    == "invalid assignment target"@ ==> (e.token matches Some(teq) && teq.toktype
                    == TokenType::Equal)),
                expr1 matches Ok(e) ==> term_parse(
                    old(self).tokens@,
                    old(self).current as int,
                    self.current as int,
                    e,
                ),
                expr1 is Ok ==> term_end(old(self).tokens@, old(self).current as int) == Some(
                    self.current as int,
                ),
                expr1 is Err ==> term_end(old(self).tokens@, old(self).current as int) is None,
            decreases eof_idx(self.tokens@) - self.current,
        {
            if !self.select(&[TokenType::Minus, TokenType::Plus]) {
                proof {
                    lemma_eof_idx_from(self.tokens@, 0);
                    if expr1 is Ok {
                        assert(term_more(old(self).tokens@, self.current as int) == Some(
                            self.current as int,
                        ));
                    }
                }
                break ;
            }
            let ghost k = self.current as int - 1;
            let op = self.tokens[self.current - 1].clone();
            let expr2 = self.factor();
            let e1 = match expr1 {
                Ok(e) => e,
                Err(e) => {
                    return Err(e);
                },
            };
            let e2 = match expr2 {
                Ok(e) => e,
                Err(e) => {
                    proof {
                        assert(term_more(old(self).tokens@, k) is None);
                    }
                    return Err(e);
                },
            };
            expr1 = Ok(Expr::Binary(Box::new(e1), op, Box::new(e2)));
            proof {
                assert(split_at(k));
                assert(term_parse(
                    old(self).tokens@,
                    old(self).current as int,
                    self.current as int,
                    expr1->Ok_0,
                ));
                assert(self.tokens.len() == self.tokens@.len());
                assert(term_more(old(self).tokens@, k) == term_more(
                    old(self).tokens@,
                    self.current as int,
                ));
            }
        }
        expr1
    }

    /// Parses a comparison: terms joined by `<`, `<=`, `>` and `>=`.
    fn comparison(&mut self) -> (r: Result<Expr, Error>)
        requires
            old(self).wf(),
        ensures
            final(self).wf(),
            final(self).tokens == old(self).tokens,
            old(self).current <= final(self).current,
            r matches Ok(e) ==> expr_wf(e) && old(self).current < final(self).current,
            r matches Ok(e) ==> comparison_parse(
                old(self).tokens@,
                old(self).current as int,
                final(self).current as int,
                e,
            ),
            r is Ok ==> comparison_end(old(self).tokens@, old(self).current as int) == Some(
                final(self).current as int,
            ),
            r is Err ==> comparison_end(old(self).tokens@, old(self).current as int) is None,
            r matches Err(e) ==> e.typing == ErrorType::Fatal && (final(self).current == old(self).current ==> e.msg@ == "expected expression"@) && (e.msg@
                == "invalid assignment target"@ ==> (e.token matches Some(teq) && teq.toktype
                == TokenType::Equal)),
        decreases eof_idx(self.tokens@) - self.current, 5int,
    {
        let mut expr1 = self.term();
        proof {
            assert(self.tokens.len() == self.tokens@.len());
            if expr1 is Ok {
                assert(comparison_end(old(self).tokens@, old(self).current as int) == comparison_more(
                    old(self).tokens@,
                    self.current as int,
                ));
            }
        }
        loop
            invariant
                self.wf(),
                self.tokens == old(self).tokens,
                old(self).current <= self.current,
                expr1 matches Ok(e) ==> expr_wf(e) && old(self).current < self.current,
                expr1 matches Err(e) ==> e.typing == ErrorType::Fatal && (self.current == old(self).current ==> e.msg@ == "expected expression"@) && (e.msg@
                    == "invalid assignment target"@ ==> (e.token matches Some(teq) && teq.toktype
                    == TokenType::Equal)),
                expr1 matches Ok(e) ==> comparison_parse(
                    old(self).tokens@,
                    old(self).current as int,
                    self.current as int,
                    e,
                ),
                expr1 is Ok ==> comparison_more(old(self).tokens@, self.current as int) == comparison_end(
                    old(self).tokens@,
                    old(self).current as int,
                ),
                expr1 is Err ==> comparison_end(old(self).tokens@, old(self).current as int) is None,
            ensures
                self.wf(),
                self.tokens == old(self).tokens,
                old(self).current <= self.current,
                expr1 matches Ok(e) ==> expr_wf(e) && old(self).current < self.current,
                expr1 matches Err(e) ==> e.typing == ErrorType::Fatal && (self.current == old(self).current ==> e.msg@ == "expected expression"@) && (e.msg@
                    == "invalid assignment target"@ ==> (e.token matches Some(teq) && teq.toktype
                    == TokenType::Equal)),
                expr1 matches Ok(e) ==> comparison_parse(
                    old(self).tokens@,
                    old(self).current as int,
                    self.current as int,
                    e,
                ),
                expr1 is Ok ==> comparison_end(old(self).tokens@, old(self).current as int) == Some(
                    self.current as int,
                ),
                expr1 is Err ==> comparison_end(old(self).tokens@, old(self).current as int) is None,
            decreases eof_idx(self.tokens@) - self.current,
        {
            if !self.select(
                &[TokenType::Less, TokenType::LessEqual, TokenType::Greater, TokenType::GreaterEqual],
            ) {
                proof {
                    lemma_eof_idx_from(self.tokens@, 0);
                    if expr1 is Ok {
                        assert(comparison_more(old(self).tokens@, self.current as int) == Some(
                            self.current as int,
                        ));
                    }
                }
                break ;
            }
            let ghost k = self.current as int - 1;
            let op = self.tokens[self.current - 1].clone();
            let expr2 = self.term();
            let e1 = match expr1 {
                Ok(e) => e,
                Err(e) => {
                    return Err(e);
                },
            };
            let e2 = match expr2 {
                Ok(e) => e,
                Err(e) => {
                    proof {
                        assert(comparison_more(old(self).tokens@, k) is None);
                    }
                    return Err(e);
                },
            };
            expr1 = Ok(Expr::Binary(Box::new(e1), op, Box::new(e2)));
            proof {
                assert(split_at(k));
                assert(comparison_parse(
                    old(self).tokens@,
                    old(self).current as int,
                    self.current as int,
                    expr1->Ok_0,
                ));
                assert(self.tokens.len() == self.tokens@.len());
                assert(comparison_more(old(self).tokens@, k) == comparison_more(
                    old(self).tokens@,
                    self.current as int,
                ));
            }
        }
        expr1
    }

    /// Parses an equality: comparisons joined by `==` and `!=`.
    fn equality(&mut self) -> (r: Result<Expr, Error>)
        requires
            old(self).wf(),
        ensures
            final(self).wf(),
            final(self).tokens == old(self).tokens,
            old(self).current <= final(self).current,
            r matches Ok(e) ==> expr_wf(e) && old(self).current < final(self).current,
            r matches Ok(e) ==> equality_parse(
                old(self).tokens@,
                old(self).current as int,
                final(self).current as int,
                e,
            ),
            r is Ok ==> equality_end(old(self).tokens@, old(self).current as int) == Some(
                final(self).current as int,
            ),
            r is Err ==> equality_end(old(self).tokens@, old(self).current as int) is None,
            r matches Err(e) ==> e.typing == ErrorType::Fatal && (final(self).current == old(self).current ==> e.msg@ == "expected expression"@) && (e.msg@
                == "invalid assignment target"@ ==> (e.token matches Some(teq) && teq.toktype
                == TokenType::Equal)),
        decreases eof_idx(self.tokens@) - self.current, 6int,
    {
        let mut expr1 = self.comparison();
        proof {
            assert(self.tokens.len() == self.tokens@.len());
            if expr1 is Ok {
                assert(equality_end(old(self).tokens@, old(self).current as int) == equality_more(
                    old(self).tokens@,
                    self.current as int,
                ));
            }
        }
        loop
            invariant
                self.wf(),
                self.tokens == old(self).tokens,
                old(self).current <= self.current,
                expr1 matches Ok(e) ==> expr_wf(e) && old(self).current < self.current,
                expr1 matches Err(e) ==> e.typing == ErrorType::Fatal && (self.current == old(self).current ==> e.msg@ == "expected expression"@) && (e.msg@
                    == "invalid assignment target"@ ==> (e.token matches Some(teq) && teq.toktype
                    == TokenType::Equal)),
                expr1 matches Ok(e) ==> equality_parse(
                    old(self).tokens@,
                    old(self).current as int,
                    self.current as int,
                    e,
                ),
                expr1 is Ok ==> equality_more(old(self).tokens@, self.current as int) == equality_end(
                    old(self).tokens@,
                    old(self).current as int,
                ),
                expr1 is Err ==> equality_end(old(self).tokens@, old(self).current as int) is None,
            ensures
                self.wf(),
                self.tokens == old(self).tokens,
                old(self).current <= self.current,
                expr1 matches Ok(e) ==> expr_wf(e) && old(self).current < self.current,
                expr1 matches Err(e) ==> e.typing == ErrorType::Fatal && (self.current == old(self).current ==> e.msg@ == "expected expression"@) && (e.msg@
                    == "invalid assignment target"@ ==> (e.token matches Some(teq) && teq.toktype
                    == TokenType::Equal)),
                expr1 matches Ok(e) ==> equality_parse(
                    old(self).tokens@,
                    old(self).current as int,
                    self.current as int,
                    e,
                ),
                expr1 is Ok ==> equality_end(old(self).tokens@, old(self).current as int) == Some(
                    self.current as int,
                ),
                expr1 is Err ==> equality_end(old(self).tokens@, old(self).current as int) is None,
            decreases eof_idx(self.tokens@) - self.current,
        {
            if !self.select(&[TokenType::BangEqual, TokenType::EqualEqual]) {
                proof {
                    lemma_eof_idx_from(self.tokens@, 0);
                    if expr1 is Ok {
                        assert(equality_more(old(self).tokens@, self.current as int) == Some(
                            self.current as int,
                        ));
                    }
                }
                break ;
            }
            let ghost k = self.current as int - 1;
            let op = self.tokens[self.current - 1].clone();
            let expr2 = self.comparison();
            let e1 = match expr1 {
                Ok(e) => e,
                Err(e) => {
                    return Err(e);
                },
            };
            let e2 = match expr2 {
                Ok(e) => e,
                Err(e) => {
                    proof {
                        assert(equality_more(old(self).tokens@, k) is None);
                    }
                    return Err(e);
                },
            };
            expr1 = Ok(Expr::Binary(Box::new(e1), op, Box::new(e2)));
            proof {
                assert(split_at(k));
                assert(equality_parse(
                    old(self).tokens@,
                    old(self).current as int,
                    self.current as int,
                    expr1->Ok_0,
                ));
                assert(self.tokens.len() == self.tokens@.len());
                assert(equality_more(old(self).tokens@, k) == equality_more(
                    old(self).tokens@,
                    self.current as int,
                ));
            }
        }
        expr1
    }

    /// Parses an assignment: an equality, or a validated assignment
    /// target followed by `=` and another assignment. Any left-hand shape
    /// other than a bare variable reference is a fatal parse error
    /// reported at the `=` token, and no assignment node is built.
    fn assignment(&mut self) -> (r: Result<Expr, Error>)
        requires
            old(self).wf(),
        ensures
            final(self).wf(),
            final(self).tokens == old(self).tokens,
            old(self).current <= final(self).current,
            r matches Ok(e) ==> expr_wf(e) && old(self).current < final(self).current,
            r matches Ok(e) ==> assignment_parse(
                old(self).tokens@,
                old(self).current as int,
                final(self).current as int,
                e,
            ),
            r is Ok ==> assignment_end(old(self).tokens@, old(self).current as int) == Some(
                final(self).current as int,
            ),
            r is Err ==> assignment_end(old(self).tokens@, old(self).current as int) is None,
            ({
                let toks = old(self).tokens@;
                let i0 = old(self).current as int;
                (equality_end(toks, i0) matches Some(k) && 0 <= k < toks.len() && toks[k].toktype
                    == TokenType::Equal && !(toks[i0].toktype == TokenType::Identifier && (
                toks[i0].literal@ matches LitView::Ident(_)) && k == i0 + 1) && assignment_end(
                    toks,
                    k + 1,
                ) is Some) ==> (r matches Err(e) ==> (e.msg@ == "invalid assignment target"@ && (
                e.token matches Some(teq) && teq.toktype == TokenType::Equal))) && (r is Err)
            }),
            r matches Err(e) ==> e.typing == ErrorType::Fatal && (final(self).current == old(self).current ==> e.msg@ == "expected expression"@) && (e.msg@
                == "invalid assignment target"@ ==> (e.token matches Some(teq) && teq.toktype
                == TokenType::Equal)),
        decreases eof_idx(self.tokens@) - self.current, 7int,
    {
        let ghost toks = old(self).tokens@;
        let ghost i0 = old(self).current as int;
        let expr = match self.equality() {
            Ok(e) => e,
            Err(e) => {
                proof {
                    assert(assignment_end(toks, i0) is None);
                }
                return Err(e);
            },
        };
        let ghost gexpr = expr;
        let ghost keq = self.current as int;
        if self.select(&[TokenType::Equal]) {
            let equals = self.tokens[self.current - 1].clone();
            let value = match self.assignment() {
                Ok(v) => v,
                Err(e) => {
                    proof {
                        assert(assignment_end(toks, i0) is None);
                    }
                    return Err(e);
                },
            };
            let ghost gvalue = value;
            match expr {
                Expr::Variable(t) => {
                    match &t.literal {
                        Literal::Identifier(_) => {
                            proof {
                                // A Variable result can only come from the
                                // identifier arm of primary, so its parse
                                // spans exactly one token: walk the grammar
                                // levels down to it.
                                assert(equality_parse(toks, i0, keq, gexpr));
                                assert(comparison_parse(toks, i0, keq, gexpr));
                                assert(term_parse(toks, i0, keq, gexpr));
                                assert(factor_parse(toks, i0, keq, gexpr));
                                assert(unary_parse(toks, i0, keq, gexpr));
                                assert(primary_parse(toks, i0, keq, gexpr));
                                assert(assignment_parse(
                                    toks,
                                    i0,
                                    self.current as int,
                                    Expr::Assign((gexpr->Variable_0), Box::new(gvalue)),
                                ));
                                assert(assignment_end(toks, i0) == assignment_end(toks, keq + 1));
                            }
                            return Ok(Expr::Assign(t, Box::new(value)));
                        },
                        _ => {
                            proof {
                                lemma_assignment_target_shape(toks, i0, keq, gexpr);
                                assert(assignment_end(toks, i0) is None);
                            }
                            return Err(Error::fatal("invalid assignment target", Some(&equals)));
                        },
                    }
                },
                _ => {
                    proof {
                        lemma_assignment_target_shape(toks, i0, keq, gexpr);
                        assert(assignment_end(toks, i0) is None);
                    }
                    return Err(Error::fatal("invalid assignment target", Some(&equals)));
                },
            }
        }
        proof {
            lemma_eof_idx_from(toks, 0);
            assert(assignment_end(toks, i0) == Some(keq));
        }
        Ok(expr)
    }

    /// Parses an expression.
    fn expression(&mut self) -> (r: Result<Expr, Error>)
        requires
            old(self).wf(),
        ensures
            final(self).wf(),
            final(self).tokens == old(self).tokens,
            old(self).current <= final(self).current,
            r matches Ok(e) ==> expr_wf(e) && old(self).current < final(self).current,
            r matches Ok(e) ==> expression_parse(
                old(self).tokens@,
                old(self).current as int,
                final(self).current as int,
                e,
            ),
            r is Ok ==> expression_end(old(self).tokens@, old(self).current as int) == Some(
                final(self).current as int,
            ),
            r is Err ==> expression_end(old(self).tokens@, old(self).current as int) is None,
            r matches Err(e) ==> e.typing == ErrorType::Fatal && (final(self).current == old(self).current ==> e.msg@ == "expected expression"@) && (e.msg@
                == "invalid assignment target"@ ==> (e.token matches Some(teq) && teq.toktype
                == TokenType::Equal)),
        decreases eof_idx(self.tokens@) - self.current, 8int,
    {
        self.assignment()
    }

    /// Parses an expression statement: an expression followed by `;`,
    /// evaluated for effect.
    fn expression_statement(&mut self) -> (r: Result<Stmt, Error>)
        requires
            old(self).wf(),
        ensures
            final(self).wf(),
            final(self).tokens == old(self).tokens,
            old(self).current <= final(self).current,
            r matches Ok(s) ==> stmt_wf(s) && old(self).current < final(self).current,
            r matches Ok(s) ==> (s matches Stmt::Expression(e) && exprsemi_parse(
                old(self).tokens@,
                old(self).current as int,
                final(self).current as int,
                e,
            )),
            r is Ok ==> exprsemi_end(old(self).tokens@, old(self).current as int) == Some(
                final(self).current as int,
            ),
            r is Err ==> exprsemi_end(old(self).tokens@, old(self).current as int) is None,
            r matches Err(e) ==> e.typing == ErrorType::Fatal,
        decreases eof_idx(self.tokens@) - self.current, 9int,
    {
        let ghost toks = old(self).tokens@;
        let ghost i0 = old(self).current as int;
        let expr = self.expression();
        let ghost m = self.current as int;
        proof {
            lemma_eof_idx_from(toks, 0);
            assert(self.tokens.len() == self.tokens@.len());
        }
        match self.consume(TokenType::Semicolon) {
            Ok(_) => {},
            Err(e) => {
                proof {
                    assert(exprsemi_end(toks, i0) is None);
                }
                return Err(e);
            },
        }
        proof {
            assert(split_at(m));
            if expr is Ok {
                assert(exprsemi_end(toks, i0) == Some(m + 1));
            } else {
                assert(exprsemi_end(toks, i0) is None);
            }
        }
        match expr {
            Ok(e) => Ok(Stmt::Expression(e)),
            Err(e) => Err(e),
        }
    }

    /// Parses a print statement, after its `print` keyword has been
    /// consumed: an expression followed by `;`.
    fn print_statement(&mut self) -> (r: Result<Stmt, Error>)
        requires
            old(self).wf(),
        ensures
            final(self).wf(),
            final(self).tokens == old(self).tokens,
            old(self).current <= final(self).current,
            r matches Ok(s) ==> stmt_wf(s),
            r matches Ok(s) ==> (s matches Stmt::Print(e) && exprsemi_parse(
                old(self).tokens@,
                old(self).current as int,
                final(self).current as int,
                e,
            )),
            r is Ok ==> exprsemi_end(old(self).tokens@, old(self).current as int) == Some(
                final(self).current as int,
            ),
            r is Err ==> exprsemi_end(old(self).tokens@, old(self).current as int) is None,
            r matches Err(e) ==> e.typing == ErrorType::Fatal,
        decreases eof_idx(self.tokens@) - self.current, 9int,
    {
        let ghost toks = old(self).tokens@;
        let ghost i0 = old(self).current as int;
        let expr = self.expression();
        let ghost m = self.current as int;
        proof {
            lemma_eof_idx_from(toks, 0);
            assert(self.tokens.len() == self.tokens@.len());
        }
        match self.consume(TokenType::Semicolon) {
            Ok(_) => {},
            Err(e) => {
                proof {
                    assert(exprsemi_end(toks, i0) is None);
                }
                return Err(e);
            },
        }
        proof {
            assert(split_at(m));
            if expr is Ok {
                assert(exprsemi_end(toks, i0) == Some(m + 1));
            } else {
                assert(exprsemi_end(toks, i0) is None);
            }
        }
        match expr {
            Ok(e) => Ok(Stmt::Print(e)),
            Err(e) => Err(e),
        }
    }

    /// Parses a variable declaration, after its `var` keyword has been
    /// consumed: a name, an optional `=` initializer defaulting to `nil`,
    /// and `;`.
    fn var_declaration(&mut self) -> (r: Result<Stmt, Error>)
        requires
            old(self).wf(),
        ensures
            final(self).wf(),
            final(self).tokens == old(self).tokens,
            old(self).current <= final(self).current,
            r matches Ok(s) ==> stmt_wf(s),
            r matches Ok(s) ==> (s matches Stmt::Variable(t, init) && var_body_parse(
                old(self).tokens@,
                old(self).current as int,
                final(self).current as int,
                t,
                init,
            )),
            r is Ok ==> var_body_end(old(self).tokens@, old(self).current as int) == Some(
                final(self).current as int,
            ),
            r is Err ==> var_body_end(old(self).tokens@, old(self).current as int) is None,
            r matches Err(e) ==> e.typing == ErrorType::Fatal,
        decreases eof_idx(self.tokens@) - self.current, 9int,
    {
        let ghost toks = old(self).tokens@;
        let ghost i0 = old(self).current as int;
        proof {
            lemma_eof_idx_from(toks, 0);
            assert(self.tokens.len() == self.tokens@.len());
        }
        let name = self.consume(TokenType::Identifier);
        let mut init: Result<Expr, Error> = Ok(Expr::Constant(Literal::Nil));
        let had_init = self.select(&[TokenType::Equal]);
        if had_init {
            init = self.expression();
        }
        let ghost m = self.current as int;
        match self.consume(TokenType::Semicolon) {
            Ok(_) => {},
            Err(e) => {
                proof {
                    assert(var_body_end(toks, i0) is None);
                }
                return Err(e);
            },
        }
        proof {
            assert(split_at(m));
            if name is Ok && init is Ok {
                if had_init {
                    assert(exprsemi_end(toks, i0 + 2) == Some(m + 1));
                    assert(var_body_end(toks, i0) == Some(m + 1));
                } else {
                    assert(var_body_end(toks, i0) == Some(i0 + 2));
                }
            } else {
                assert(var_body_end(toks, i0) is None);
            }
        }
        let name_tok = match name {
            Ok(t) => t,
            Err(e) => {
                return Err(e);
            },
        };
        match init {
            Ok(i) => Ok(Stmt::Variable(name_tok, i)),
            Err(e) => Err(e),
        }
    }

    /// Parses a braced block, after its `{` has been consumed:
    /// declarations up to the matching `}`. An error inside the block
    /// ends it.
    fn block(&mut self) -> (r: Result<Stmt, Error>)
        requires
            old(self).wf(),
        ensures
            final(self).wf(),
            final(self).tokens == old(self).tokens,
            old(self).current <= final(self).current,
            r matches Ok(s) ==> stmt_wf(s) && old(self).current < final(self).current,
            r matches Ok(s) ==> (s is Block && 1 <= final(self).current && final(self).current
                <= old(self).tokens@.len() && old(self).tokens@[final(self).current - 1].toktype
                == TokenType::RightBrace),
            r is Ok ==> block_body_end(old(self).tokens@, old(self).current as int) == Some(
                final(self).current as int,
            ),
            r is Err ==> block_body_end(old(self).tokens@, old(self).current as int) is None,
            r matches Err(e) ==> e.typing == ErrorType::Fatal,
        decreases eof_idx(self.tokens@) - self.current, 12int,
    {
        let ghost toks = old(self).tokens@;
        let ghost i0 = old(self).current as int;
        let mut stmts: Vec<Stmt> = Vec::new();
        loop
            invariant
                toks == old(self).tokens@,
                i0 == old(self).current as int,
                self.wf(),
                self.tokens == old(self).tokens,
                old(self).current <= self.current,
                forall|i: int| 0 <= i < stmts@.len() ==> stmt_wf(#[trigger] stmts@[i]),
                block_body_end(toks, self.current as int) == block_body_end(toks, i0),
            ensures
                self.wf(),
                self.tokens == old(self).tokens,
                old(self).current <= self.current,
                forall|i: int| 0 <= i < stmts@.len() ==> stmt_wf(#[trigger] stmts@[i]),
                block_body_end(toks, self.current as int) == block_body_end(toks, i0),
                self.current as int == eof_idx(toks) || toks[self.current as int].toktype
                    == TokenType::RightBrace,
            decreases eof_idx(self.tokens@) - self.current,
        {
            if self.is_at_end() {
                break ;
            }
            if self.tokens[self.current].toktype == TokenType::RightBrace {
                break ;
            }
            let ghost k = self.current as int;
            match self.declaration() {
                Ok(s) => {
                    proof {
                        lemma_eof_idx_from(toks, 0);
                        assert(self.tokens.len() == self.tokens@.len());
                        assert(block_body_end(toks, k) == block_body_end(
                            toks,
                            self.current as int,
                        ));
                    }
                    stmts.push(s);
                },
                Err(e) => {
                    proof {
                        lemma_eof_idx_from(toks, 0);
                        assert(self.tokens.len() == self.tokens@.len());
                        assert(block_body_end(toks, k) is None);
                    }
                    return Err(e);
                },
            }
        }
        proof {
            lemma_eof_idx_from(toks, 0);
            if self.current as int == eof_idx(toks) && toks[self.current as int].toktype
                != TokenType::RightBrace {
                lemma_no_declaration_at(toks, self.current as int);
                assert(block_body_end(toks, self.current as int) is None);
            }
        }
        match self.consume(TokenType::RightBrace) {
            Ok(_) => {},
            Err(e) => {
                proof {
                    assert(block_body_end(toks, i0) is None);
                }
                return Err(e);
            },
        }
        proof {
            assert(block_body_end(toks, i0) == Some(self.current as int));
        }
        Ok(Stmt::Block(stmts))
    }

    /// Parses a statement: a print statement, a braced block, or an
    /// expression statement.
    #[verifier::rlimit(30)]
    fn statement(&mut self) -> (r: Result<Stmt, Error>)
        requires
            old(self).wf(),
        ensures
            final(self).wf(),
            final(self).tokens == old(self).tokens,
            old(self).current <= final(self).current,
            r matches Ok(s) ==> stmt_wf(s) && old(self).current < final(self).current,
            r matches Ok(s) ==> (match s {
                Stmt::Print(e) => old(self).tokens@[old(self).current as int].toktype
                    == TokenType::Print && exprsemi_parse(
                    old(self).tokens@,
                    old(self).current as int + 1,
                    final(self).current as int,
                    e,
                ),
                Stmt::Expression(e) => exprsemi_parse(
                    old(self).tokens@,
                    old(self).current as int,
                    final(self).current as int,
                    e,
                ),
                Stmt::Variable(_, _) => false,
                Stmt::Block(_) => old(self).tokens@[old(self).current as int].toktype
                    == TokenType::LeftBrace && 1 <= final(self).current && final(self).current
                    <= old(self).tokens@.len() && old(self).tokens@[final(self).current
                    - 1].toktype == TokenType::RightBrace,
            }),
            r is Ok ==> statement_end(old(self).tokens@, old(self).current as int) == Some(
                final(self).current as int,
            ),
            r is Err ==> statement_end(old(self).tokens@, old(self).current as int) is None,
            r matches Err(e) ==> e.typing == ErrorType::Fatal,
        decreases eof_idx(self.tokens@) - self.current, 10int,
    {
        let ghost toks = old(self).tokens@;
        let ghost i0 = old(self).current as int;
        proof {
            lemma_eof_idx_from(toks, 0);
            assert(self.tokens.len() == self.tokens@.len());
        }
        if self.select(&[TokenType::Print]) {
            let rr = self.print_statement();
            proof {
                assert(statement_end(toks, i0) == exprsemi_end(toks, i0 + 1));
            }
            return rr;
        }
        if self.select(&[TokenType::LeftBrace]) {
            let rr = self.block();
            proof {
                assert(statement_end(toks, i0) == block_body_end(toks, i0 + 1));
            }
            return rr;
        }
        let rr = self.expression_statement();
        proof {
            assert(statement_end(toks, i0) == exprsemi_end(toks, i0));
        }
        rr
    }

    /// Parses one declaration: a variable declaration or a statement.
    fn declaration(&mut self) -> (r: Result<Stmt, Error>)
        requires
            old(self).wf(),
        ensures
            final(self).wf(),
            final(self).tokens == old(self).tokens,
            old(self).current <= final(self).current,
            r matches Ok(s) ==> stmt_wf(s) && old(self).current < final(self).current,
            r matches Ok(s) ==> decl_stmt_parse(
                old(self).tokens@,
                old(self).current as int,
                final(self).current as int,
                s,
            ),
            r is Ok ==> declaration_end(old(self).tokens@, old(self).current as int) == Some(
                final(self).current as int,
            ),
            r is Err ==> declaration_end(old(self).tokens@, old(self).current as int) is None,
            r matches Err(e) ==> e.typing == ErrorType::Fatal,
        decreases eof_idx(self.tokens@) - self.current, 11int,
    {
        let ghost toks = old(self).tokens@;
        let ghost i0 = old(self).current as int;
        proof {
            lemma_eof_idx_from(toks, 0);
            assert(self.tokens.len() == self.tokens@.len());
        }
        if self.select(&[TokenType::Var]) {
            let rr = self.var_declaration();
            proof {
                assert(declaration_end(toks, i0) == var_body_end(toks, i0 + 1));
            }
            return rr;
        }
        let rr = self.statement();
        proof {
            assert(declaration_end(toks, i0) == statement_end(toks, i0));
        }
        rr
    }

    /// Parses the whole token sequence into a statement sequence,
    /// recording one fatal diagnostic for each malformed construct and
    /// resynchronizing after it.
    ///
    /// A statement sequence always comes back, beside the diagnostics:
    /// errors never abort the pass. Every statement in it is structurally
    /// sound ([`stmt_wf`]), and the pass terminates because each
    /// error-recovery cycle strictly advances the input position.
    #[verifier::rlimit(100)]
    #[verifier::spinoff_prover]
    pub fn parse(&mut self) -> (r: (Option<Vec<Stmt>>, Vec<Error>))
        requires
            old(self).wf(),
        ensures
            final(self).wf(),
            final(self).tokens == old(self).tokens,
            final(self).current as int == eof_idx(final(self).tokens@),
            r.0 matches Some(stmts) && (forall|i: int|
                0 <= i < stmts@.len() ==> stmt_wf(#[trigger] stmts@[i])),
            r.0 matches Some(stmts2) && ((old(self).current as int) < eof_idx(old(self).tokens@)
                ==> stmts2@.len() + r.1@.len() > 0),
            r.0 matches Some(stmts3) && parse_run(
                old(self).tokens@,
                old(self).current as int,
                stmts3@,
                0,
                r.1@.len() as int,
            ),
            forall|i: int| 0 <= i < r.1@.len() ==> (#[trigger] r.1@[i]).typing == ErrorType::Fatal,
    {
        let ghost toks = old(self).tokens@;
        let ghost i0 = old(self).current as int;
        let mut stmts: Vec<Stmt> = Vec::new();
        let mut diags: Vec<Error> = Vec::new();
        loop
            invariant
                toks == old(self).tokens@,
                i0 == old(self).current as int,
                self.wf(),
                self.tokens == old(self).tokens,
                forall|i: int| 0 <= i < stmts@.len() ==> stmt_wf(#[trigger] stmts@[i]),
                forall|i: int|
                    0 <= i < diags@.len() ==> (#[trigger] diags@[i]).typing == ErrorType::Fatal,
                old(self).current < self.current ==> stmts@.len() + diags@.len() > 0,
                forall|fin: Seq<Stmt>, nd: int|
                    (0 <= nd && stmts@.is_prefix_of(fin) && #[trigger] parse_run(
                        toks,
                        self.current as int,
                        fin,
                        stmts@.len() as int,
                        nd,
                    )) ==> parse_run(toks, i0, fin, 0, diags@.len() + nd),
            ensures
                self.wf(),
                self.tokens == old(self).tokens,
                self.current as int == eof_idx(self.tokens@),
                old(self).current < self.current ==> stmts@.len() + diags@.len() > 0,
                forall|i: int| 0 <= i < stmts@.len() ==> stmt_wf(#[trigger] stmts@[i]),
                forall|i: int|
                    0 <= i < diags@.len() ==> (#[trigger] diags@[i]).typing == ErrorType::Fatal,
                parse_run(toks, i0, stmts@, 0, diags@.len() as int),
            decreases eof_idx(self.tokens@) - self.current,
        {
            if self.is_at_end() {
                proof {
                    assert(parse_run(toks, self.current as int, stmts@, stmts@.len() as int, 0));
                    assert(stmts@.is_prefix_of(stmts@));
                    assert(parse_run(toks, i0, stmts@, 0, diags@.len() as int));
                }
                break ;
            }
            let ghost k = self.current as int;
            match self.declaration() {
                Ok(v) => {
                    let ghost gs = v;
                    stmts.push(v);
                    proof {
                        let ghost stmts0 = stmts@.drop_last();
                        assert(self.tokens.len() == self.tokens@.len());
                        assert forall|fin: Seq<Stmt>, nd: int|
                            (0 <= nd && stmts@.is_prefix_of(fin) && #[trigger] parse_run(
                                toks,
                                self.current as int,
                                fin,
                                stmts@.len() as int,
                                nd,
                            )) implies parse_run(toks, i0, fin, 0, diags@.len() + nd) by {
                            assert(stmts@.last() == gs);
                            assert(fin.subrange(0, stmts@.len() as int) == stmts@);
                            assert(fin[stmts@.len() - 1] == fin.subrange(
                                0,
                                stmts@.len() as int,
                            )[stmts@.len() - 1]);
                            lemma_parse_run_cons_ok(
                                toks,
                                k,
                                self.current as int,
                                gs,
                                fin,
                                stmts@.len() - 1,
                                nd,
                            );
                            assert(stmts0.is_prefix_of(fin));
                        }
                    }
                },
                Err(v) => {
                    diags.push(v);
                    let ghost kerr = self.current as int;
                    self.synchronize();
                    proof {
                        let g = self.current as int;
                        assert(self.tokens.len() == self.tokens@.len());
                        if kerr < eof_idx(toks) {
                            lemma_sync_scan_bounds(toks, kerr + 1);
                        }
                        assert forall|fin: Seq<Stmt>, nd: int|
                            (0 <= nd && stmts@.is_prefix_of(fin) && #[trigger] parse_run(
                                toks,
                                self.current as int,
                                fin,
                                stmts@.len() as int,
                                nd,
                            )) implies parse_run(toks, i0, fin, 0, diags@.len() + nd) by {
                            assert(k < g && g <= toks.len());
                            lemma_parse_run_cons_err(toks, k, g, fin, stmts@.len() as int, nd);
                            assert(parse_run(toks, i0, fin, 0, (diags@.len() - 1) + (nd + 1)));
                        }
                    }
                },
            }
        }
        (Some(stmts), diags)
    }
}

} // verus!
