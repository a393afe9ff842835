//! Component-level tests: the cursor, the lexer, the parser, the
//! environment chain and the value operators, each exercised directly.

use lll::error::Error;
use lll::interpreter::Environment;
use lll::interpreter::Interpreter;
use lll::lexer::Lexer;
use lll::lexer::Stringstream;
use lll::parse::Expr;
use lll::parse::Parser;
use lll::parse::Stmt;
use lll::token::Literal;
use lll::token::NumCmp;
use lll::token::NumOp;
use lll::token::Token;
use lll::token::TokenType;

fn parse_num(s: String) -> u64 {
    s.parse::<f64>().unwrap().to_bits()
}

fn arith(op: NumOp, a: u64, b: u64) -> u64 {
    let x = f64::from_bits(a);
    let y = f64::from_bits(b);
    let r = match op {
        NumOp::Add => x + y,
        NumOp::Sub => x - y,
        NumOp::Mul => x * y,
        NumOp::Div => x / y,
    };
    r.to_bits()
}

fn cmp(op: NumCmp, a: u64, b: u64) -> bool {
    let x = f64::from_bits(a);
    let y = f64::from_bits(b);
    match op {
        NumCmp::Eq => x == y,
        NumCmp::Gt => x > y,
        NumCmp::Ge => x >= y,
        NumCmp::Lt => x < y,
        NumCmp::Le => x <= y,
    }
}

fn render(b: u64) -> String {
    format!("{}", f64::from_bits(b))
}

fn scan(src: &str) -> Vec<Token> {
    let mut lexer = Lexer::new(src.to_string());
    let (tokens, warns) = lexer.scan_tokens(parse_num).expect("lexing aborted");
    assert!(warns.is_empty());
    tokens
}

fn ident_token(name: &str) -> Token {
    Token {
        literal: Literal::Identifier(name.to_string()),
        toktype: TokenType::Identifier,
        place: 0,
        line: 0,
    }
}

#[test]
fn stringstream_advances_and_peeks() {
    let mut ss = Stringstream::new("ab".to_string());
    assert_eq!(ss.peek(), Some('a'));
    assert_eq!(ss.advance(), Some('a'));
    assert_eq!(ss.peek(), Some('b'));
    assert_eq!(ss.advance(), Some('b'));
    assert_eq!(ss.peek(), None);
    assert_eq!(ss.advance(), None);
}

#[test]
fn stringstream_substring_bounds() {
    let ss = Stringstream::new("hello".to_string());
    assert_eq!(ss.substring(1, 4), Some("ell".to_string()));
    assert_eq!(ss.substring(0, 5), Some("hello".to_string()));
    assert_eq!(ss.substring(2, 6), None);
    assert_eq!(ss.substring(6, 7), None);
}

#[test]
fn lexer_recognizes_token_kinds() {
    let tokens = scan("var x = (1);");
    let kinds: Vec<TokenType> = tokens.iter().map(|t| t.toktype).collect();
    assert_eq!(
        kinds,
        vec![
            TokenType::Var,
            TokenType::Identifier,
            TokenType::Equal,
            TokenType::LeftParen,
            TokenType::Number,
            TokenType::RightParen,
            TokenType::Semicolon,
        ]
    );
}

#[test]
fn lexer_two_character_operators() {
    let tokens = scan("== != <= >= = < > !");
    let kinds: Vec<TokenType> = tokens.iter().map(|t| t.toktype).collect();
    assert_eq!(
        kinds,
        vec![
            TokenType::EqualEqual,
            TokenType::BangEqual,
            TokenType::LessEqual,
            TokenType::GreaterEqual,
            TokenType::Equal,
            TokenType::Less,
            TokenType::Greater,
            TokenType::Bang,
        ]
    );
}

#[test]
fn lexer_keywords_and_literals() {
    let tokens = scan("and class else false for fun if nil or print return super this true var while");
    let kinds: Vec<TokenType> = tokens.iter().map(|t| t.toktype).collect();
    assert_eq!(
        kinds,
        vec![
            TokenType::And,
            TokenType::Class,
            TokenType::Else,
            TokenType::False,
            TokenType::For,
            TokenType::Fun,
            TokenType::If,
            TokenType::Nil,
            TokenType::Or,
            TokenType::Print,
            TokenType::Return,
            TokenType::Super,
            TokenType::This,
            TokenType::True,
            TokenType::Var,
            TokenType::While,
        ]
    );
    assert_eq!(tokens[3].literal, Literal::Bool(false));
    assert_eq!(tokens[13].literal, Literal::Bool(true));
    assert_eq!(tokens[0].literal, Literal::Nil);
}

#[test]
fn lexer_identifier_carries_its_text() {
    let tokens = scan("foo_bar2");
    assert_eq!(tokens.len(), 1);
    assert_eq!(tokens[0].toktype, TokenType::Identifier);
    assert_eq!(tokens[0].literal, Literal::Identifier("foo_bar2".to_string()));
}

#[test]
fn lexer_number_token_carries_bits() {
    let tokens = scan("12.25");
    assert_eq!(tokens.len(), 1);
    assert_eq!(tokens[0].toktype, TokenType::Number);
    assert_eq!(tokens[0].literal, Literal::Float(12.25f64.to_bits()));
}

#[test]
fn lexer_string_token_drops_the_quotes() {
    let tokens = scan("\"hi\"");
    assert_eq!(tokens.len(), 1);
    assert_eq!(tokens[0].toktype, TokenType::String);
    assert_eq!(tokens[0].literal, Literal::String("hi".to_string()));
}

#[test]
fn lexer_tracks_lines() {
    let tokens = scan("1\n2\n3");
    assert_eq!(tokens[0].line, 0);
    assert_eq!(tokens[1].line, 1);
    assert_eq!(tokens[2].line, 2);
}

#[test]
fn parser_builds_declaration_with_binary_initializer() {
    let mut tokens = scan("var x = 1 + 2;");
    tokens.push(Token { literal: Literal::Nil, toktype: TokenType::Eof, place: 0, line: 0 });
    let mut parser = Parser::new(tokens);
    let (stmts, diags) = parser.parse();
    let stmts = stmts.expect("no statement sequence");
    assert!(diags.is_empty());
    assert_eq!(stmts.len(), 1);
    match &stmts[0] {
        Stmt::Variable(name, init) => {
            assert_eq!(name.literal, Literal::Identifier("x".to_string()));
            match init {
                Expr::Binary(l, op, r) => {
                    assert_eq!(op.toktype, TokenType::Plus);
                    assert!(matches!(
                        &**l,
                        Expr::Constant(Literal::Float(b)) if *b == 1f64.to_bits()
                    ));
                    assert!(matches!(
                        &**r,
                        Expr::Constant(Literal::Float(b)) if *b == 2f64.to_bits()
                    ));
                },
                _ => panic!("initializer is not a binary expression"),
            }
        },
        _ => panic!("not a variable declaration"),
    }
}

#[test]
fn evaluating_declaration_binds_the_sum() {
    let mut tokens = scan("var x = 1 + 2;");
    tokens.push(Token { literal: Literal::Nil, toktype: TokenType::Eof, place: 0, line: 0 });
    let mut parser = Parser::new(tokens);
    let (stmts, _) = parser.parse();
    let mut interpreter = Interpreter::new();
    let diags = interpreter.interpret(&stmts.unwrap(), arith, cmp, render);
    assert!(diags.is_empty());
    let bound = interpreter.env.get(&ident_token("x")).expect("x is not bound");
    assert_eq!(bound, Literal::Float(3f64.to_bits()));
}

#[test]
fn environment_define_get_and_assign() {
    let mut env = Environment::new();
    assert!(env.get(&ident_token("x")).is_err());
    env.define("x".to_string(), Literal::Float(1f64.to_bits()));
    assert_eq!(env.get(&ident_token("x")).unwrap(), Literal::Float(1f64.to_bits()));
    assert!(env.assign(&ident_token("x"), &Literal::Bool(true)).is_ok());
    assert_eq!(env.get(&ident_token("x")).unwrap(), Literal::Bool(true));
    assert!(env.assign(&ident_token("y"), &Literal::Nil).is_err());
}

#[test]
fn environment_chain_resolves_outward_and_restores() {
    let mut env = Environment::new();
    env.define("x".to_string(), Literal::Float(1f64.to_bits()));
    let prev = env.enter_scope();
    env.define("x".to_string(), Literal::Float(2f64.to_bits()));
    env.define("y".to_string(), Literal::Bool(true));
    assert_eq!(env.get(&ident_token("x")).unwrap(), Literal::Float(2f64.to_bits()));
    assert_eq!(env.get(&ident_token("y")).unwrap(), Literal::Bool(true));
    env.exit_scope(prev);
    assert_eq!(env.get(&ident_token("x")).unwrap(), Literal::Float(1f64.to_bits()));
    assert!(env.get(&ident_token("y")).is_err());
}

#[test]
fn environment_rejects_non_identifier_tokens() {
    let env = Environment::new();
    let bad = Token {
        literal: Literal::Float(1f64.to_bits()),
        toktype: TokenType::Number,
        place: 0,
        line: 0,
    };
    let err = env.get(&bad).expect_err("lookup by a non-identifier");
    assert_eq!(err.msg, "variable identifier was literal");
}

#[test]
fn literal_operators_follow_the_kind_table() {
    let s = |t: &str| Literal::String(t.to_string());
    let f = |x: f64| Literal::Float(x.to_bits());
    assert_eq!(Literal::sum(s("a"), s("b"), arith).unwrap(), s("ab"));
    assert_eq!(Literal::sum(f(2.0), f(3.0), arith).unwrap(), f(5.0));
    assert_eq!(Literal::sum(Literal::Bool(false), Literal::Bool(true), arith).unwrap(), Literal::Bool(true));
    assert!(Literal::sum(s("a"), f(1.0), arith).is_err());
    assert!(Literal::sub(s("a"), s("b"), arith).is_err());
    assert_eq!(Literal::sub(f(5.0), f(3.0), arith).unwrap(), f(2.0));
    assert_eq!(Literal::mul(f(4.0), f(2.5), arith).unwrap(), f(10.0));
    assert!(Literal::mul(Literal::Bool(true), Literal::Bool(false), arith).is_err());
    assert_eq!(Literal::div(f(1.0), f(4.0), arith).unwrap(), f(0.25));
    assert!(Literal::div(Literal::Bool(true), Literal::Bool(true), arith).is_err());
    assert_eq!(Literal::eq(s("a"), s("a"), cmp).unwrap(), Literal::Bool(true));
    assert_eq!(Literal::eq(f(1.0), f(2.0), cmp).unwrap(), Literal::Bool(false));
    assert_eq!(Literal::gt(s("aa"), s("b"), cmp).unwrap(), Literal::Bool(true));
    assert_eq!(Literal::egt(s("a"), s("b"), cmp).unwrap(), Literal::Bool(true));
    assert_eq!(Literal::lt(s("aa"), s("b"), cmp).unwrap(), Literal::Bool(false));
    assert_eq!(Literal::elt(s("abc"), s("ab"), cmp).unwrap(), Literal::Bool(false));
    assert!(Literal::eq(Literal::Nil, Literal::Nil, cmp).is_err());
}

#[test]
fn literal_renders_to_text() {
    assert_eq!(Literal::Float(1.5f64.to_bits()).to_text(render), "1.5");
    assert_eq!(Literal::String("hi".to_string()).to_text(render), "hi");
    assert_eq!(Literal::Bool(true).to_text(render), "true");
    assert_eq!(Literal::Bool(false).to_text(render), "false");
    assert_eq!(Literal::Identifier("x".to_string()).to_text(render), "x");
    assert_eq!(Literal::Nil.to_text(render), "nil");
}

#[test]
fn diagnostics_render_with_line_and_token() {
    let t = Token {
        literal: Literal::Identifier("x".to_string()),
        toktype: TokenType::Identifier,
        place: 4,
        line: 2,
    };
    let fatal = Error::fatal("bad thing", Some(&t));
    assert_eq!(fatal.render(), "FATAL: bad thing, line 3, token Identifier");
    let warn = Error::warn("odd thing", None);
    assert_eq!(warn.render(), "WARN: odd thing");
}

#[test]
fn interpreter_collects_output_instead_of_printing() {
    let mut tokens = scan("print 1; print \"x\";");
    tokens.push(Token { literal: Literal::Nil, toktype: TokenType::Eof, place: 0, line: 0 });
    let mut parser = Parser::new(tokens);
    let (stmts, _) = parser.parse();
    let mut interpreter = Interpreter::new();
    let diags = interpreter.interpret(&stmts.unwrap(), arith, cmp, render);
    assert!(diags.is_empty());
    assert_eq!(interpreter.output, "1x");
}

#[test]
fn token_line_is_the_first_character_line() {
    let tokens = scan("\"a\nb\" 1");
    assert_eq!(tokens[0].toktype, TokenType::String);
    assert_eq!(tokens[0].line, 0);
    assert_eq!(tokens[1].line, 1);
}
