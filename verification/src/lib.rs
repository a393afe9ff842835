//! The front end and evaluator of a small dynamically typed scripting
//! language: a lexer, a recursive-descent parser with panic-mode error
//! recovery, and a tree-walking interpreter with lexically scoped variables.
//!
//! Numeric values are 64-bit IEEE-754 doubles to the language, but the
//! verified core never touches floating point itself: it carries each number
//! as its 64-bit pattern and receives arithmetic, comparison, parsing and
//! rendering of numbers from the embedder as closures. Every structural
//! property of lexing, parsing, scoping and evaluation is proved for any
//! such family of closures.
//!
//! Expression evaluation and statement execution recurse over the tree,
//! so the nesting depth a program may use is bounded only by the host's
//! call stack; there is no explicit depth guard.

pub mod error;
pub mod interpreter;
pub mod lexer;
pub mod parse;
pub mod token;

use vstd::prelude::*;

use crate::error::Error;
use crate::error::ErrorType;
use crate::interpreter::Interpreter;
use crate::lexer::Lexer;
use crate::parse::Parser;
use crate::token::Literal;
use crate::token::NumCmp;
use crate::token::NumOp;
use crate::token::Token;
use crate::token::TokenType;

verus! {

/// Trigger marker naming what one run was made of: the scanned tokens,
/// the parser input, the parsed statements, the interpreter states, and
/// the three diagnostic stages.
pub open spec fn run_parts(
    toks: Seq<Token>,
    ptoks: Seq<Token>,
    stmts: Vec<crate::parse::Stmt>,
    start: Interpreter,
    post: Interpreter,
    lex_warns: Seq<Error>,
    parse_errs: Seq<Error>,
    run_errs: Seq<Error>,
) -> bool {
    true
}

/// An interpreter state as a run starts: one empty global scope and no
/// output.
pub open spec fn fresh_interp(start: Interpreter) -> bool {
    &&& start.env.scopes@.len() == 1
    &&& start.env.current == 0
    &&& start.env.scopes@[0].parent is None
    &&& start.env.scopes@[0].vals@.len() == 0
    &&& start.output@ == Seq::<char>::empty()
}

/// What one run of a source text produced: the text that `print`
/// statements wrote, and every diagnostic gathered on the way, in stage
/// order: lexical warnings, then parse errors, then runtime errors.
pub struct RunReport {
    pub output: String,
    pub diagnostics: Vec<Error>,
}

/// Runs a source text through the whole pipeline: lexing, parsing with
/// error recovery, and execution against a fresh environment.
///
/// Diagnostics never abort the run: the lexer warns and goes on, the
/// parser records and resynchronizes, and a failing statement only ends
/// itself. The one exception is an unterminated string literal, which
/// abandons the whole run: that happens exactly when
/// [`crate::lexer::has_unterminated`] holds of the source.
pub fn run<
    P: Fn(String) -> u64 + Copy,
    A: Fn(NumOp, u64, u64) -> u64 + Copy,
    C: Fn(NumCmp, u64, u64) -> bool + Copy,
    R: Fn(u64) -> String + Copy,
>(source: String, parse_num: P, arith: A, cmp: C, render: R) -> (r: Result<RunReport, Error>)
    requires
        source@.len() < usize::MAX,
        crate::lexer::parse_total(parse_num),
        crate::token::arith_total(arith),
        crate::token::cmp_total(cmp),
        crate::token::render_total(render),
    ensures
        match r {
            Ok(rep) => !crate::lexer::has_unterminated(source@, 0) && (exists|
                toks: Seq<Token>,
                ptoks: Seq<Token>,
                stmts: Vec<crate::parse::Stmt>,
                start: Interpreter,
                post: Interpreter,
                lex_warns: Seq<Error>,
                parse_errs: Seq<Error>,
                run_errs: Seq<Error>,
            |
                #![trigger run_parts(toks, ptoks, stmts, start, post, lex_warns, parse_errs, run_errs)]
                crate::lexer::lex_rel(parse_num, source@, 0, toks, lex_warns.len() as int)
                    && ptoks == toks.push(ptoks.last()) && ptoks.last().toktype == TokenType::Eof
                    && crate::parse::parse_run(ptoks, 0, stmts@, 0, parse_errs.len() as int) && (
                forall|i: int|
                    0 <= i < stmts@.len() ==> crate::parse::stmt_wf(#[trigger] stmts@[i]))
                    && fresh_interp(start) && crate::interpreter::interp_rel(
                    arith,
                    cmp,
                    render,
                    stmts,
                    0,
                    start,
                    post,
                    run_errs,
                ) && rep.output == post.output && rep.diagnostics@ == lex_warns + parse_errs
                    + run_errs && (forall|i: int|
                    0 <= i < lex_warns.len() ==> (#[trigger] lex_warns[i]).typing
                        == ErrorType::Warn) && (forall|i: int|
                    0 <= i < parse_errs.len() ==> (#[trigger] parse_errs[i]).typing
                        == ErrorType::Fatal)),
            Err(e) => crate::lexer::has_unterminated(source@, 0) && e.typing == ErrorType::Fatal
                && e.msg@ == crate::lexer::unterminated_msg(source@),
        },
{
    let mut lexer = Lexer::new(source);
    let (mut tokens, warns) = match lexer.scan_tokens(parse_num) {
        Ok(t) => t,
        Err(e) => {
            return Err(e);
        },
    };
    let ghost g_toks = tokens@;
    tokens.push(
        Token { literal: Literal::Nil, toktype: TokenType::Eof, place: 0, line: 0 },
    );
    proof {
        assert(tokens@[tokens@.len() - 1].toktype == TokenType::Eof);
    }
    let mut parser = Parser::new(tokens);
    let (stmts_opt, parse_errs) = parser.parse();
    let stmts = match stmts_opt {
        Some(s) => s,
        None => {
            proof {
                assert(false);
            }
            Vec::new()
        },
    };
    let mut interpreter = Interpreter::new();
    let ghost start = interpreter;
    let run_errs = interpreter.interpret(&stmts, arith, cmp, render);
    let ghost g_ptoks = parser.tokens@;
    let ghost g_stmts = stmts;
    let ghost g_post = interpreter;
    let ghost g_warns = warns@;
    let ghost g_parse = parse_errs@;
    let ghost g_run = run_errs@;
    let mut diagnostics = warns;
    let mut parse_errs = parse_errs;
    let mut run_errs = run_errs;
    diagnostics.append(&mut parse_errs);
    diagnostics.append(&mut run_errs);
    proof {
        assert(run_parts(
            g_toks,
            g_ptoks,
            g_stmts,
            start,
            g_post,
            g_warns,
            g_parse,
            g_run,
        ));
        assert(diagnostics@ =~= g_warns + g_parse + g_run);
    }
    Ok(RunReport { output: interpreter.output, diagnostics })
}

} // verus!
