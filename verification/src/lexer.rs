//! The lexer: turns raw source text into an ordered token sequence,
//! reporting unknown characters as warnings and an unterminated string
//! literal as a fatal condition that aborts the whole run.

use vstd::prelude::*;
use vstd::string::StringExecFns;
use vstd::string::StrSliceExecFns;

use crate::error::Error;
use crate::token::Literal;
use crate::token::LitView;
use crate::token::Token;
use crate::token::TokenType;

verus! {

/// A forward cursor over the characters of the source text, with
/// one-character lookahead.
pub struct Stringstream {
    pub text: String,
    pub offset: usize,
}

impl Stringstream {
    /// A fresh cursor at the start of `source`.
    pub fn new(source: String) -> (r: Self)
        ensures
            r.text@ == source@,
            r.offset == 0,
    {
        Stringstream { text: source, offset: 0 }
    }

    /// Returns the character under the cursor, or `None` past the end of
    /// the text; the cursor moves one place either way.
    pub fn advance(&mut self) -> (r: Option<char>)
        requires
            old(self).offset < usize::MAX,
        ensures
            final(self).text@ == old(self).text@,
            final(self).offset == old(self).offset + 1,
            r == (if old(self).offset < old(self).text@.len() {
                Some(old(self).text@[old(self).offset as int])
            } else {
                None::<char>
            }),
    {
        let c = if self.offset < self.text.as_str().unicode_len() {
            Some(self.text.as_str().get_char(self.offset))
        } else {
            None
        };
        self.offset = self.offset + 1;
        c
    }

    /// The characters of the text from `start` up to `end`, or `None`
    /// when either bound lies past the end.
    pub fn substring(&self, start: usize, end: usize) -> (r: Option<String>)
        requires
            start <= end,
        ensures
            start > self.text@.len() || end > self.text@.len() ==> r is None,
            start <= self.text@.len() && end <= self.text@.len() ==> (r matches Some(s) && s@
                == self.text@.subrange(start as int, end as int)),
    {
        let n = self.text.as_str().unicode_len();
        if start > n || end > n {
            return None;
        }
        Some(self.text.as_str().substring_char(start, end).to_owned())
    }

    /// The character under the cursor, or `None` past the end; the cursor
    /// does not move.
    pub fn peek(&self) -> (r: Option<char>)
        ensures
            r == (if self.offset < self.text@.len() {
                Some(self.text@[self.offset as int])
            } else {
                None::<char>
            }),
    {
        if self.offset < self.text.as_str().unicode_len() {
            Some(self.text.as_str().get_char(self.offset))
        } else {
            None
        }
    }
}

/// The position of the quote that closes a string literal whose contents
/// start at `i`, skipping backslash-escaped characters; `None` when the
/// text ends first.
pub open spec fn close_quote(s: Seq<char>, i: int) -> Option<int>
    decreases s.len() - i,
{
    if i < 0 || i >= s.len() {
        None
    } else if s[i] == '"' {
        Some(i)
    } else if s[i] == '\\' {
        if i + 1 >= s.len() {
            None
        } else {
            close_quote(s, i + 2)
        }
    } else {
        close_quote(s, i + 1)
    }
}

/// When a closing quote exists, it lies at or after the start of the
/// search and inside the text, and it is a quote.
pub proof fn lemma_close_quote_bounds(s: Seq<char>, i: int)
    ensures
        close_quote(s, i) matches Some(j) ==> i <= j < s.len() && s[j] == '"',
    decreases s.len() - i,
{
    if i < 0 || i >= s.len() {
    } else if s[i] == '"' {
    } else if s[i] == '\\' {
        if i + 1 < s.len() {
            lemma_close_quote_bounds(s, i + 2);
        }
    } else {
        lemma_close_quote_bounds(s, i + 1);
    }
}

/// The position where a line comment starting at `i` ends: the next
/// newline, or the end of the text.
pub open spec fn comment_end(s: Seq<char>, i: int) -> int
    decreases s.len() - i,
{
    if i < 0 {
        0
    } else if i >= s.len() {
        s.len() as int
    } else if s[i] == '\n' {
        i
    } else {
        comment_end(s, i + 1)
    }
}

/// A comment never ends before it starts nor after the text.
pub proof fn lemma_comment_end_bounds(s: Seq<char>, i: int)
    requires
        0 <= i <= s.len(),
    ensures
        i <= comment_end(s, i) <= s.len(),
    decreases s.len() - i,
{
    if i >= s.len() {
    } else if s[i] == '\n' {
    } else {
        lemma_comment_end_bounds(s, i + 1);
    }
}

/// Whether the scanner, reading from position `i` onward, meets a string
/// literal that never terminates. Comments are skipped to the end of
/// their line first, and a terminated string literal is skipped whole, so
/// quotes inside comments and comment markers inside strings do not
/// count.
pub open spec fn has_unterminated(s: Seq<char>, i: int) -> bool
    decreases s.len() - i,
    when 0 <= i
    via has_unterminated_decreases
{
    if i >= s.len() {
        false
    } else if s[i] == '"' {
        match close_quote(s, i + 1) {
            Some(j) => has_unterminated(s, j + 1),
            None => true,
        }
    } else if s[i] == '/' && i + 1 < s.len() && s[i + 1] == '/' {
        has_unterminated(s, comment_end(s, i + 2))
    } else {
        has_unterminated(s, i + 1)
    }
}

#[via_fn]
proof fn has_unterminated_decreases(s: Seq<char>, i: int) {
    if 0 <= i < s.len() {
        if s[i] == '"' {
            lemma_close_quote_bounds(s, i + 1);
        } else if s[i] == '/' && i + 1 < s.len() && s[i + 1] == '/' {
            lemma_comment_end_bounds(s, i + 2);
        }
    }
}

/// Skipping any run of characters that contains neither a quote nor a
/// slash leaves the outcome of the scan unchanged.
pub proof fn lemma_skip_run(s: Seq<char>, i: int, j: int)
    requires
        0 <= i <= j <= s.len(),
        forall|k: int| i <= k < j ==> s[k] != '"' && s[k] != '/',
    ensures
        has_unterminated(s, i) == has_unterminated(s, j),
    decreases j - i,
{
    if i < j {
        lemma_skip_run(s, i + 1, j);
    }
}

/// The message of the one fatal lexical diagnostic: an unterminated
/// string literal, reported with the line the scan had reached when the
/// text ran out.
pub open spec fn unterminated_msg(s: Seq<char>) -> Seq<char> {
    "unterminated string, line "@ + crate::error::dec_str(newlines(s, s.len() as int))
}

/// The number of newline characters among the first `i` characters of
/// `s`: the zero-based line the scanner stands on after consuming them.
pub open spec fn newlines(s: Seq<char>, i: int) -> int
    decreases i,
{
    if i <= 0 {
        0
    } else {
        newlines(s, i - 1) + if s[i - 1] == '\n' {
            1int
        } else {
            0int
        }
    }
}

/// There are never more newlines in a prefix than characters.
pub proof fn lemma_newlines_le(s: Seq<char>, i: int)
    requires
        0 <= i,
    ensures
        0 <= newlines(s, i) <= i,
    decreases i,
{
    if i > 0 {
        lemma_newlines_le(s, i - 1);
    }
}

/// The Unicode alphabetic property of a character, as
/// `char::is_alphabetic` decides it.
pub uninterp spec fn is_alpha(c: char) -> bool;

/// Relies on `char::is_alphabetic`: a property of the character alone. It
/// holds only of letters, so in particular not of the double quote or the
/// slash, which both have their own lexical role.
#[verifier::external_body]
fn char_is_alphabetic(c: char) -> (r: bool)
    ensures
        r == is_alpha(c),
        r ==> c != '"' && c != '/',
{
    c.is_alphabetic()
}

/// Whether `c` is a decimal digit.
pub open spec fn is_digit_c(c: char) -> bool {
    48 <= c as int && c as int <= 57
}

/// Decides whether `c` is a decimal digit.
fn digit_char(c: char) -> (r: bool)
    ensures
        r == is_digit_c(c),
{
    let u = c as u32;
    48 <= u && u <= 57
}

/// Where the numeric literal whose next character stands at `i` ends:
/// after the maximal run of digits holding at most one dot (`seen_dot`
/// says whether one was already consumed).
pub open spec fn num_end(s: Seq<char>, i: int, seen_dot: bool) -> int
    decreases s.len() - i,
{
    if i < 0 {
        0
    } else if i >= s.len() {
        s.len() as int
    } else if !seen_dot && s[i] == '.' {
        num_end(s, i + 1, true)
    } else if is_digit_c(s[i]) {
        num_end(s, i + 1, seen_dot)
    } else {
        i
    }
}

/// Where the identifier whose next character stands at `i` ends: after
/// the maximal run of alphabetic characters, digits and underscores.
pub open spec fn ident_end(s: Seq<char>, i: int) -> int
    decreases s.len() - i,
{
    if i < 0 {
        0
    } else if i >= s.len() {
        s.len() as int
    } else if is_alpha(s[i]) || s[i] == '_' || is_digit_c(s[i]) {
        ident_end(s, i + 1)
    } else {
        i
    }
}

/// A numeric run neither moves backwards nor leaves the text.
pub proof fn lemma_num_end_bounds(s: Seq<char>, i: int, seen_dot: bool)
    requires
        0 <= i <= s.len(),
    ensures
        i <= num_end(s, i, seen_dot) <= s.len(),
    decreases s.len() - i,
{
    if i < s.len() {
        if !seen_dot && s[i] == '.' {
            lemma_num_end_bounds(s, i + 1, true);
        } else if is_digit_c(s[i]) {
            lemma_num_end_bounds(s, i + 1, seen_dot);
        }
    }
}

/// An identifier run neither moves backwards nor leaves the text.
pub proof fn lemma_ident_end_bounds(s: Seq<char>, i: int)
    requires
        0 <= i <= s.len(),
    ensures
        i <= ident_end(s, i) <= s.len(),
    decreases s.len() - i,
{
    if i < s.len() && (is_alpha(s[i]) || s[i] == '_' || is_digit_c(s[i])) {
        lemma_ident_end_bounds(s, i + 1);
    }
}

/// The embedder's number-parsing closure must accept every lexeme.
pub open spec fn parse_total<P: Fn(String) -> u64>(parse_num: P) -> bool {
    forall|s: String| #[trigger] call_requires(parse_num, (s,))
}

/// Which keyword a word is, if any. `true` and `false` carry their truth
/// value as lexical payload; the other keywords carry `Nil`.
pub open spec fn keyword_of(w: Seq<char>) -> Option<TokenType> {
    if w == "and"@ {
        Some(TokenType::And)
    } else if w == "class"@ {
        Some(TokenType::Class)
    } else if w == "else"@ {
        Some(TokenType::Else)
    } else if w == "false"@ {
        Some(TokenType::False)
    } else if w == "for"@ {
        Some(TokenType::For)
    } else if w == "fun"@ {
        Some(TokenType::Fun)
    } else if w == "if"@ {
        Some(TokenType::If)
    } else if w == "nil"@ {
        Some(TokenType::Nil)
    } else if w == "or"@ {
        Some(TokenType::Or)
    } else if w == "print"@ {
        Some(TokenType::Print)
    } else if w == "return"@ {
        Some(TokenType::Return)
    } else if w == "super"@ {
        Some(TokenType::Super)
    } else if w == "this"@ {
        Some(TokenType::This)
    } else if w == "true"@ {
        Some(TokenType::True)
    } else if w == "var"@ {
        Some(TokenType::Var)
    } else if w == "while"@ {
        Some(TokenType::While)
    } else {
        None
    }
}

/// The token for punctuation and operators: no payload, positioned at
/// its first character.
pub open spec fn op_token(t: TokenType, place: usize, line: usize) -> Token {
    Token { literal: Literal::Nil, toktype: t, place, line }
}

/// The token `tok` carries a number: the 64-bit pattern the embedder's
/// parse closure gives for the lexeme at `a` up to `b`.
pub open spec fn num_token<P: Fn(String) -> u64>(
    parse_num: P,
    s: Seq<char>,
    a: int,
    b: int,
    tok: Token,
) -> bool {
    exists|lex: String|
        #![trigger lex@]
        lex@ == s.subrange(a, b) && (tok.literal@ matches LitView::Float(bits) && call_ensures(
            parse_num,
            (lex,),
            bits,
        ))
}

/// The model of a token that carries no payload, at `place` on `line`.
pub open spec fn op_tokv(t: TokenType, place: int, line: int) -> crate::token::TokView {
    crate::token::TokView { literal: LitView::Nil, toktype: t, place, line }
}

/// The scan of the text from position `i` on: `toks` are exactly the
/// tokens it recognizes, in order, each placed at the first character of
/// its lexeme with the line that character stands on, and `nwarns`
/// unrecognized characters are skipped with a warning each. This is the
/// lexical grammar written as one relation: whitespace and comments
/// vanish, two-character operators are tried before their one-character
/// forms, and strings, numbers, identifiers and keywords follow their
/// scanning rules.
pub open spec fn lex_rel<P: Fn(String) -> u64>(
    parse_num: P,
    s: Seq<char>,
    i: int,
    toks: Seq<Token>,
    nwarns: int,
) -> bool
    decreases s.len() - i,
{
    if i < 0 || i >= s.len() {
        toks.len() == 0 && nwarns == 0
    } else {
        let c = s[i];
        let line = newlines(s, i);
        if c == '\r' || c == '\t' || c == ' ' || c == '\n' {
            lex_rel(parse_num, s, i + 1, toks, nwarns)
        } else if c == '(' || c == ')' || c == '{' || c == '}' || c == ',' || c == '.' || c == '+'
            || c == '-' || c == '*' || c == ';' {
            toks.len() > 0 && toks.first()@ == op_tokv(
                if c == '(' {
                    TokenType::LeftParen
                } else if c == ')' {
                    TokenType::RightParen
                } else if c == '{' {
                    TokenType::LeftBrace
                } else if c == '}' {
                    TokenType::RightBrace
                } else if c == ',' {
                    TokenType::Comma
                } else if c == '.' {
                    TokenType::Dot
                } else if c == '+' {
                    TokenType::Plus
                } else if c == '-' {
                    TokenType::Minus
                } else if c == '*' {
                    TokenType::Star
                } else {
                    TokenType::Semicolon
                },
                i,
                line,
            ) && lex_rel(parse_num, s, i + 1, toks.drop_first(), nwarns)
        } else if c == '!' || c == '=' || c == '>' || c == '<' {
            let two = i + 1 < s.len() && s[i + 1] == '=';
            let kind = if c == '!' {
                if two {
                    TokenType::BangEqual
                } else {
                    TokenType::Bang
                }
            } else if c == '=' {
                if two {
                    TokenType::EqualEqual
                } else {
                    TokenType::Equal
                }
            } else if c == '>' {
                if two {
                    TokenType::GreaterEqual
                } else {
                    TokenType::Greater
                }
            } else {
                if two {
                    TokenType::LessEqual
                } else {
                    TokenType::Less
                }
            };
            toks.len() > 0 && toks.first()@ == op_tokv(kind, i, line) && lex_rel(
                parse_num,
                s,
                if two {
                    i + 2
                } else {
                    i + 1
                },
                toks.drop_first(),
                nwarns,
            )
        } else if c == '/' {
            if i + 1 < s.len() && s[i + 1] == '/' {
                if i < comment_end(s, i + 2) && comment_end(s, i + 2) <= s.len() {
                    lex_rel(parse_num, s, comment_end(s, i + 2), toks, nwarns)
                } else {
                    false
                }
            } else {
                toks.len() > 0 && toks.first()@ == op_tokv(TokenType::Slash, i, line) && lex_rel(
                    parse_num,
                    s,
                    i + 1,
                    toks.drop_first(),
                    nwarns,
                )
            }
        } else if c == '"' {
            match close_quote(s, i + 1) {
                Some(j) => toks.len() > 0 && toks.first()@ == (crate::token::TokView {
                    literal: LitView::Str(s.subrange(i + 1, j)),
                    toktype: TokenType::String,
                    place: i,
                    line,
                }) && (if i < j + 1 && j + 1 <= s.len() {
                    lex_rel(parse_num, s, j + 1, toks.drop_first(), nwarns)
                } else {
                    false
                }),
                None => false,
            }
        } else if is_digit_c(c) {
            let b = num_end(s, i + 1, false);
            toks.len() > 0 && toks.first()@.toktype == TokenType::Number && toks.first()@.place
                == i && toks.first()@.line == line && num_token(parse_num, s, i, b, toks.first())
                && (if i < b && b <= s.len() {
                lex_rel(parse_num, s, b, toks.drop_first(), nwarns)
            } else {
                false
            })
        } else if is_alpha(c) || c == '_' {
            let b = ident_end(s, i + 1);
            let w = s.subrange(i, b);
            toks.len() > 0 && toks.first()@.place == i && toks.first()@.line == line && (match
            keyword_of(w) {
                Some(t) => toks.first()@.toktype == t && (if t == TokenType::True {
                    toks.first()@.literal == LitView::Bool(true)
                } else if t == TokenType::False {
                    toks.first()@.literal == LitView::Bool(false)
                } else {
                    toks.first()@.literal == LitView::Nil
                }),
                None => toks.first()@.toktype == TokenType::Identifier && toks.first()@.literal
                    == LitView::Ident(w),
            }) && (if i < b && b <= s.len() {
                lex_rel(parse_num, s, b, toks.drop_first(), nwarns)
            } else {
                false
            })
        } else {
            nwarns > 0 && lex_rel(parse_num, s, i + 1, toks, nwarns - 1)
        }
    }
}

/// One whitespace character vanishes from the scan.
proof fn lemma_lex_ws_step<P: Fn(String) -> u64>(
    parse_num: P,
    s: Seq<char>,
    i: int,
    toks: Seq<Token>,
    w: int,
)
    requires
        0 <= i < s.len(),
        s[i] == '\r' || s[i] == '\t' || s[i] == ' ' || s[i] == '\n',
        lex_rel(parse_num, s, i + 1, toks, w),
    ensures
        lex_rel(parse_num, s, i, toks, w),
{
}

/// The scan relation reads tokens only through their models: any list
/// of tokens with the same models satisfies it too.
proof fn lemma_lex_rel_views<P: Fn(String) -> u64>(
    parse_num: P,
    s: Seq<char>,
    i: int,
    t1: Seq<Token>,
    t2: Seq<Token>,
    w: int,
)
    requires
        0 <= i,
        t1.len() == t2.len(),
        forall|k: int| 0 <= k < t1.len() ==> t1[k]@ == t2[k]@,
        lex_rel(parse_num, s, i, t1, w),
    ensures
        lex_rel(parse_num, s, i, t2, w),
    decreases s.len() - i,
{
    if i >= s.len() {
    } else {
        let c = s[i];
        if c == '\r' || c == '\t' || c == ' ' || c == '\n' {
            lemma_lex_rel_views(parse_num, s, i + 1, t1, t2, w);
        } else if c == '(' || c == ')' || c == '{' || c == '}' || c == ',' || c == '.' || c == '+'
            || c == '-' || c == '*' || c == ';' {
            assert(t2.first()@ == t1.first()@);
            assert(forall|k: int|
                0 <= k < t1.drop_first().len() ==> t1.drop_first()[k]@ == t2.drop_first()[k]@);
            lemma_lex_rel_views(parse_num, s, i + 1, t1.drop_first(), t2.drop_first(), w);
        } else if c == '!' || c == '=' || c == '>' || c == '<' {
            let two = i + 1 < s.len() && s[i + 1] == '=';
            assert(t2.first()@ == t1.first()@);
            assert(forall|k: int|
                0 <= k < t1.drop_first().len() ==> t1.drop_first()[k]@ == t2.drop_first()[k]@);
            lemma_lex_rel_views(
                parse_num,
                s,
                if two {
                    i + 2
                } else {
                    i + 1
                },
                t1.drop_first(),
                t2.drop_first(),
                w,
            );
        } else if c == '/' {
            if i + 1 < s.len() && s[i + 1] == '/' {
                lemma_comment_end_bounds(s, i + 2);
                lemma_lex_rel_views(parse_num, s, comment_end(s, i + 2), t1, t2, w);
            } else {
                assert(t2.first()@ == t1.first()@);
                assert(forall|k: int|
                    0 <= k < t1.drop_first().len() ==> t1.drop_first()[k]@ == t2.drop_first()[k]@);
                lemma_lex_rel_views(parse_num, s, i + 1, t1.drop_first(), t2.drop_first(), w);
            }
        } else if c == '"' {
            lemma_close_quote_bounds(s, i + 1);
            let j = close_quote(s, i + 1)->Some_0;
            assert(t2.first()@ == t1.first()@);
            assert(forall|k: int|
                0 <= k < t1.drop_first().len() ==> t1.drop_first()[k]@ == t2.drop_first()[k]@);
            lemma_lex_rel_views(parse_num, s, j + 1, t1.drop_first(), t2.drop_first(), w);
        } else if is_digit_c(c) {
            let b = num_end(s, i + 1, false);
            lemma_num_end_bounds(s, i + 1, false);
            assert(t2.first()@ == t1.first()@);
            assert(num_token(parse_num, s, i, b, t2.first()));
            assert(forall|k: int|
                0 <= k < t1.drop_first().len() ==> t1.drop_first()[k]@ == t2.drop_first()[k]@);
            lemma_lex_rel_views(parse_num, s, b, t1.drop_first(), t2.drop_first(), w);
        } else if is_alpha(c) || c == '_' {
            let b = ident_end(s, i + 1);
            lemma_ident_end_bounds(s, i + 1);
            assert(t2.first()@ == t1.first()@);
            assert(forall|k: int|
                0 <= k < t1.drop_first().len() ==> t1.drop_first()[k]@ == t2.drop_first()[k]@);
            lemma_lex_rel_views(parse_num, s, b, t1.drop_first(), t2.drop_first(), w);
        } else {
            lemma_lex_rel_views(parse_num, s, i + 1, t1, t2, w - 1);
        }
    }
}

/// The lexer: a cursor over the source text, the token list built so far,
/// and the line and offset bookkeeping for diagnostics.
pub struct Lexer {
    pub ss: Stringstream,
    /// Zero-based line of the cursor: the newlines consumed so far.
    pub line: usize,
    /// Characters consumed so far.
    pub place: usize,
    /// Offset of the first character of the token being scanned.
    pub prev_place: usize,
    pub tokens: Vec<Token>,
}

impl Lexer {
    /// The bookkeeping invariant: `place` counts the consumed characters,
    /// the cursor runs at most one past the end, and `line` counts the
    /// newlines among the consumed characters.
    pub open spec fn wf(self) -> bool {
        &&& self.ss.text@.len() < usize::MAX
        &&& self.ss.offset <= self.ss.text@.len() + 1
        &&& self.place as int == (if self.ss.offset <= self.ss.text@.len() {
            self.ss.offset as int
        } else {
            self.ss.text@.len() as int
        })
        &&& self.prev_place <= self.place
        &&& self.line as int == newlines(self.ss.text@, self.place as int)
    }

    /// A fresh lexer over `source`.
    pub fn new(source: String) -> (r: Self)
        requires
            source@.len() < usize::MAX,
        ensures
            r.wf(),
            r.ss.text@ == source@,
            r.ss.offset == 0,
            r.line == 0,
            r.place == 0,
            r.prev_place == 0,
            r.tokens@ == Seq::<Token>::empty(),
    {
        let r = Lexer {
            ss: Stringstream::new(source),
            line: 0,
            place: 0,
            prev_place: 0,
            tokens: Vec::new(),
        };
        proof {
            assert(newlines(r.ss.text@, 0) == 0);
        }
        r
    }

    /// Consumes one character: hands it back and counts it, bumping the
    /// line on a newline; `None` past the end of the text.
    fn advance(&mut self) -> (r: Option<char>)
        requires
            old(self).wf(),
            old(self).ss.offset <= old(self).ss.text@.len(),
        ensures
            final(self).wf(),
            final(self).ss.text@ == old(self).ss.text@,
            final(self).tokens == old(self).tokens,
            final(self).prev_place == old(self).prev_place,
            final(self).ss.offset == old(self).ss.offset + 1,
            r == (if old(self).ss.offset < old(self).ss.text@.len() {
                Some(old(self).ss.text@[old(self).ss.offset as int])
            } else {
                None::<char>
            }),
            r is Some ==> final(self).place == old(self).place + 1,
            r is None ==> final(self).place == old(self).place,
    {
        proof {
            lemma_newlines_le(self.ss.text@, self.place as int);
        }
        match self.ss.advance() {
            Some(v) => {
                self.place = self.place + 1;
                if v == '\n' {
                    self.line = self.line + 1;
                }
                Some(v)
            },
            None => None,
        }
    }

    /// Consumes the next character exactly when it is `expected`; says
    /// whether it did.
    fn is(&mut self, expected: char) -> (r: bool)
        requires
            old(self).wf(),
        ensures
            final(self).wf(),
            final(self).ss.text@ == old(self).ss.text@,
            final(self).tokens == old(self).tokens,
            final(self).prev_place == old(self).prev_place,
            r == (old(self).place < old(self).ss.text@.len() && old(self).ss.text@[old(self).place as int]
                == expected),
            r ==> final(self).place == old(self).place + 1
                && final(self).ss.offset <= final(self).ss.text@.len(),
            r && expected != '\n' ==> final(self).line == old(self).line,
            !r ==> *final(self) == *old(self),
    {
        let c = match self.ss.peek() {
            Some(c) => c,
            None => { return false },
        };
        if c == expected {
            self.advance();
            return true;
        }
        false
    }

    /// The characters of the token being scanned: from `prev_place` up to
    /// the cursor.
    fn lexeme(&self) -> (r: String)
        requires
            self.wf(),
        ensures
            r@ == self.ss.text@.subrange(self.prev_place as int, self.place as int),
    {
        let r = self.ss.substring(self.prev_place, self.place);
        match r {
            Some(s) => s,
            None => {
                proof {
                    assert(false);
                }
                String::new()
            },
        }
    }

    /// Appends a token whose lexeme starts at `place` on line `line`.
    fn add_token(&mut self, literal: Literal, toktype: TokenType, place: usize, line: usize)
        ensures
            final(self).tokens@ == old(self).tokens@.push(
                (Token { literal, toktype, place, line }),
            ),
            final(self).ss == old(self).ss,
            final(self).line == old(self).line,
            final(self).place == old(self).place,
            final(self).prev_place == old(self).prev_place,
    {
        self.tokens.push(Token { literal, toktype, place, line });
    }

    /// Looks a word up in the fixed keyword table.
    fn keyword_map(&self, word: &String) -> (r: Option<TokenType>)
        ensures
            r == keyword_of(word@),
    {
        if *word == "and".to_owned() {
            Some(TokenType::And)
        } else if *word == "class".to_owned() {
            Some(TokenType::Class)
        } else if *word == "else".to_owned() {
            Some(TokenType::Else)
        } else if *word == "false".to_owned() {
            Some(TokenType::False)
        } else if *word == "for".to_owned() {
            Some(TokenType::For)
        } else if *word == "fun".to_owned() {
            Some(TokenType::Fun)
        } else if *word == "if".to_owned() {
            Some(TokenType::If)
        } else if *word == "nil".to_owned() {
            Some(TokenType::Nil)
        } else if *word == "or".to_owned() {
            Some(TokenType::Or)
        } else if *word == "print".to_owned() {
            Some(TokenType::Print)
        } else if *word == "return".to_owned() {
            Some(TokenType::Return)
        } else if *word == "super".to_owned() {
            Some(TokenType::Super)
        } else if *word == "this".to_owned() {
            Some(TokenType::This)
        } else if *word == "true".to_owned() {
            Some(TokenType::True)
        } else if *word == "var".to_owned() {
            Some(TokenType::Var)
        } else if *word == "while".to_owned() {
            Some(TokenType::While)
        } else {
            None
        }
    }

    /// Scans the rest of a numeric literal: more digits, with at most one
    /// dot among them, parsed by the embedder's closure into the 64-bit
    /// pattern the token carries.
    fn number<P: Fn(String) -> u64 + Copy>(&mut self, parse_num: P)
        requires
            old(self).wf(),
            parse_total(parse_num),
            old(self).ss.offset <= old(self).ss.text@.len(),
        ensures
            final(self).wf(),
            final(self).ss.text@ == old(self).ss.text@,
            final(self).prev_place == old(self).prev_place,
            old(self).place <= final(self).place,
            final(self).ss.offset <= final(self).ss.text@.len(),
            final(self).place as int == num_end(old(self).ss.text@, old(self).place as int, false),
            final(self).tokens@ == old(self).tokens@.push(final(self).tokens@.last()),
            final(self).tokens@.last().toktype == TokenType::Number,
            final(self).tokens@.last().place == old(self).prev_place,
            final(self).tokens@.last().line == old(self).line,
            num_token(
                parse_num,
                final(self).ss.text@,
                old(self).prev_place as int,
                final(self).place as int,
                final(self).tokens@.last(),
            ),
            forall|k: int|
                old(self).place <= k < final(self).place ==> final(self).ss.text@[k] != '"'
                    && final(self).ss.text@[k] != '/',
    {
        let ghost s = self.ss.text@;
        let ghost p0 = self.place as int;
        let line0 = self.line;
        let mut flag_dot = false;
        loop
            invariant
                s == old(self).ss.text@,
                p0 == old(self).place as int,
                line0 == old(self).line,
                self.wf(),
                self.ss.text@ == s,
                self.ss.offset <= s.len(),
                self.prev_place == old(self).prev_place,
                self.tokens == old(self).tokens,
                p0 <= self.place as int,
                num_end(s, self.place as int, flag_dot) == num_end(s, p0, false),
                forall|k: int| p0 <= k < self.place as int ==> s[k] != '"' && s[k] != '/',
            ensures
                self.wf(),
                self.ss.text@ == s,
                self.ss.offset <= s.len(),
                self.prev_place == old(self).prev_place,
                self.tokens == old(self).tokens,
                p0 <= self.place as int,
                self.place as int == num_end(s, p0, false),
                forall|k: int| p0 <= k < self.place as int ==> s[k] != '"' && s[k] != '/',
            decreases s.len() - self.place,
        {
            let peeker = match self.ss.peek() {
                Some(c) => c,
                None => { break },
            };
            if !flag_dot && peeker == '.' {
                flag_dot = true;
                self.advance();
                continue ;
            }
            if !digit_char(peeker) {
                break ;
            }
            self.advance();
        }
        let floatlit = self.lexeme();
        let bits = parse_num(floatlit);
        let place = self.prev_place;
        let line = line0;
        let ghost lex_wit = floatlit;
        self.add_token(Literal::Float(bits), TokenType::Number, place, line);
        proof {
            assert(lex_wit@ == final(self).ss.text@.subrange(
                old(self).prev_place as int,
                final(self).place as int,
            ) && (final(self).tokens@.last().literal@ matches LitView::Float(b) && call_ensures(
                parse_num,
                (lex_wit,),
                b,
            )));
            assert(num_token(
                parse_num,
                final(self).ss.text@,
                old(self).prev_place as int,
                final(self).place as int,
                final(self).tokens@.last(),
            ));
        }
    }

    /// Scans the rest of a string literal, whose opening quote stands at
    /// `prev_place`: up to the next unescaped quote, whose position the
    /// spec function [`close_quote`] names. Reaching the end of the text
    /// first is the unterminated-string condition, reported as a fatal
    /// diagnostic.
    fn string(&mut self) -> (r: Result<(), Error>)
        requires
            old(self).wf(),
            old(self).ss.offset <= old(self).ss.text@.len(),
            old(self).place == old(self).prev_place + 1,
        ensures
            final(self).wf(),
            final(self).ss.text@ == old(self).ss.text@,
            final(self).prev_place == old(self).prev_place,
            old(self).place <= final(self).place,
            match r {
                Ok(()) => close_quote(old(self).ss.text@, old(self).place as int) matches Some(j)
                    && final(self).place == j + 1 && final(self).ss.offset
                    <= final(self).ss.text@.len() && final(self).tokens@ == old(self).tokens@.push(final(self).tokens@.last()) && final(self).tokens@.last().toktype
                    == TokenType::String && final(self).tokens@.last().place == old(self).prev_place && final(self).tokens@.last().line == old(self).line && final(self).tokens@.last().literal@ == LitView::Str(
                    old(self).ss.text@.subrange(old(self).place as int, j),
                ),
                Err(e) => close_quote(old(self).ss.text@, old(self).place as int) is None
                    && e.typing == crate::error::ErrorType::Fatal && e.msg@ == unterminated_msg(
                    old(self).ss.text@,
                ) && e.token is None && final(self).tokens == old(self).tokens,
            },
    {
        let ghost s = self.ss.text@;
        let ghost p0 = self.place as int;
        let line0 = self.line;
        loop
            invariant
                s == old(self).ss.text@,
                p0 == old(self).place as int,
                line0 == old(self).line,
                self.wf(),
                self.ss.text@ == s,
                self.ss.offset <= s.len(),
                self.prev_place == old(self).prev_place,
                self.tokens == old(self).tokens,
                p0 <= self.place as int,
                old(self).place == old(self).prev_place + 1,
                close_quote(s, self.place as int) == close_quote(s, p0),
            decreases s.len() - self.place,
        {
            let peeker = match self.ss.peek() {
                Some(c) => c,
                None => {
                    proof {
                        assert(self.place == s.len());
                    }
                    let mut msg: String = "unterminated string, line ".to_owned();
                    let line_text = crate::error::usize_text(self.line);
                    msg.append(line_text.as_str());
                    return Err(Error { token: None, msg, typing: crate::error::ErrorType::Fatal });
                },
            };
            if peeker == '"' {
                let close_pos = self.place;
                proof {
                    assert(close_quote(s, close_pos as int) == Some(close_pos as int));
                    lemma_close_quote_bounds(s, p0);
                }
                self.advance();
                let content = match self.ss.substring(self.prev_place + 1, close_pos) {
                    Some(c) => c,
                    None => {
                        proof {
                            assert(false);
                        }
                        String::new()
                    },
                };
                let place = self.prev_place;
                self.add_token(Literal::String(content), TokenType::String, place, line0);
                return Ok(());
            } else if peeker == '\\' {
                self.advance();
                match self.ss.peek() {
                    Some(_) => {
                        self.advance();
                    },
                    None => {},
                }
            } else {
                self.advance();
            }
        }
    }

    /// Scans the rest of an identifier or keyword, whose first character
    /// stands at `prev_place`: alphabetic characters, digits and
    /// underscores. The word is looked up in the keyword table; `true` and
    /// `false` become boolean literal tokens, other keywords carry no
    /// value, and anything else is an identifier carrying its own text.
    fn identifier(&mut self)
        requires
            old(self).wf(),
            old(self).ss.offset <= old(self).ss.text@.len(),
        ensures
            final(self).wf(),
            final(self).ss.text@ == old(self).ss.text@,
            final(self).prev_place == old(self).prev_place,
            old(self).place <= final(self).place,
            final(self).ss.offset <= final(self).ss.text@.len(),
            final(self).place as int == ident_end(old(self).ss.text@, old(self).place as int),
            final(self).tokens@ == old(self).tokens@.push(final(self).tokens@.last()),
            final(self).tokens@.last().place == old(self).prev_place,
            final(self).tokens@.last().line == old(self).line,
            ({
                let w = final(self).ss.text@.subrange(
                    old(self).prev_place as int,
                    final(self).place as int,
                );
                let tok = final(self).tokens@.last();
                match keyword_of(w) {
                    Some(t) => tok.toktype == t && (if t == TokenType::True {
                        tok.literal@ == LitView::Bool(true)
                    } else if t == TokenType::False {
                        tok.literal@ == LitView::Bool(false)
                    } else {
                        tok.literal@ == LitView::Nil
                    }),
                    None => tok.toktype == TokenType::Identifier && tok.literal@ == LitView::Ident(
                        w,
                    ),
                }
            }),
            forall|k: int|
                old(self).place <= k < final(self).place ==> final(self).ss.text@[k] != '"'
                    && final(self).ss.text@[k] != '/',
    {
        let ghost s = self.ss.text@;
        let ghost p0 = self.place as int;
        let line0 = self.line;
        loop
            invariant
                s == old(self).ss.text@,
                p0 == old(self).place as int,
                line0 == old(self).line,
                self.wf(),
                self.ss.text@ == s,
                self.ss.offset <= s.len(),
                self.prev_place == old(self).prev_place,
                self.tokens == old(self).tokens,
                p0 <= self.place as int,
                ident_end(s, self.place as int) == ident_end(s, p0),
                forall|k: int| p0 <= k < self.place as int ==> s[k] != '"' && s[k] != '/',
            ensures
                self.wf(),
                self.ss.text@ == s,
                self.ss.offset <= s.len(),
                self.prev_place == old(self).prev_place,
                self.tokens == old(self).tokens,
                p0 <= self.place as int,
                self.place as int == ident_end(s, p0),
                forall|k: int| p0 <= k < self.place as int ==> s[k] != '"' && s[k] != '/',
            decreases s.len() - self.place,
        {
            let peeker = match self.ss.peek() {
                Some(c) => c,
                None => { break },
            };
            if !(char_is_alphabetic(peeker) || peeker == '_' || digit_char(peeker)) {
                break ;
            }
            self.advance();
        }
        let iden = self.lexeme();
        let place = self.prev_place;
        let line = line0;
        let keyword = match self.keyword_map(&iden) {
            Some(k) => k,
            None => {
                self.add_token(Literal::Identifier(iden), TokenType::Identifier, place, line);
                return ;
            },
        };
        if keyword == TokenType::True {
            self.add_token(Literal::Bool(true), keyword, place, line);
            return ;
        } else if keyword == TokenType::False {
            self.add_token(Literal::Bool(false), keyword, place, line);
            return ;
        }
        self.add_token(Literal::Nil, keyword, place, line);
    }

    /// Appends a token that carries no lexical value, at the position of
    /// the token being scanned.
    fn add_primitive_token(&mut self, toktype: TokenType)
        ensures
            final(self).tokens@ == old(self).tokens@.push(
                (Token {
                    literal: Literal::Nil,
                    toktype,
                    place: old(self).prev_place,
                    line: old(self).line,
                }),
            ),
            final(self).ss == old(self).ss,
            final(self).line == old(self).line,
            final(self).place == old(self).place,
            final(self).prev_place == old(self).prev_place,
    {
        let place = self.prev_place;
        let line = self.line;
        self.add_token(Literal::Nil, toktype, place, line);
    }

    /// Scans one token whose first character `c` has just been consumed.
    ///
    /// The contract fixes, character by character, which token is
    /// appended and where the cursor lands: punctuation and operators
    /// (with their two-character forms), comments skipped to the end of
    /// the line, string literals to their closing quote, numbers and
    /// identifiers to the end of their maximal run. An unrecognized
    /// character comes back as a `Warn` diagnostic and the scan may go
    /// on; an unterminated string literal comes back as a `Fatal` one,
    /// justified by [`has_unterminated`] holding at the start of the
    /// token. In every non-fatal outcome the scan outcome named by
    /// [`has_unterminated`] is unchanged from the start of this token to
    /// the new cursor position.
    #[verifier::rlimit(100)]
    fn scan_token<P: Fn(String) -> u64 + Copy>(&mut self, c: char, parse_num: P) -> (r: Result<
        (),
        Error,
    >)
        requires
            old(self).wf(),
            parse_total(parse_num),
            old(self).ss.offset <= old(self).ss.text@.len(),
            old(self).place == old(self).prev_place + 1,
            old(self).prev_place < old(self).ss.text@.len(),
            c == old(self).ss.text@[old(self).prev_place as int],
        ensures
            final(self).wf(),
            final(self).ss.text@ == old(self).ss.text@,
            final(self).prev_place == old(self).prev_place,
            old(self).place <= final(self).place,
            (forall|i: int|
                0 <= i < old(self).tokens@.len() ==> crate::token::token_shaped(
                    #[trigger] old(self).tokens@[i]@,
                )) ==> (forall|i: int|
                0 <= i < final(self).tokens@.len() ==> crate::token::token_shaped(
                    #[trigger] final(self).tokens@[i]@,
                )),
            final(self).tokens@ == old(self).tokens@ || final(self).tokens@ == old(self).tokens@.push(final(self).tokens@.last()),
            r is Err ==> final(self).tokens == old(self).tokens,
            final(self).tokens@.len() > old(self).tokens@.len() ==> (final(self).tokens@.last().place == old(self).prev_place && final(self).tokens@.last().toktype
                != TokenType::Eof),
            ({
                let s = old(self).ss.text@;
                let prev = old(self).prev_place;
                let line0 = old(self).line;
                let toks0 = old(self).tokens@;
                let toks1 = final(self).tokens@;
                let next_eq = (old(self).place as int) < s.len() && s[old(self).place as int]
                    == '=';
                match c {
                    '(' => toks1 == toks0.push(op_token(TokenType::LeftParen, prev, line0))
                        && final(self).place == old(self).place,
                    ')' => toks1 == toks0.push(op_token(TokenType::RightParen, prev, line0))
                        && final(self).place == old(self).place,
                    '{' => toks1 == toks0.push(op_token(TokenType::LeftBrace, prev, line0))
                        && final(self).place == old(self).place,
                    '}' => toks1 == toks0.push(op_token(TokenType::RightBrace, prev, line0))
                        && final(self).place == old(self).place,
                    ',' => toks1 == toks0.push(op_token(TokenType::Comma, prev, line0)) && final(self).place == old(self).place,
                    '.' => toks1 == toks0.push(op_token(TokenType::Dot, prev, line0)) && final(self).place == old(self).place,
                    '+' => toks1 == toks0.push(op_token(TokenType::Plus, prev, line0)) && final(self).place == old(self).place,
                    '-' => toks1 == toks0.push(op_token(TokenType::Minus, prev, line0)) && final(self).place == old(self).place,
                    '*' => toks1 == toks0.push(op_token(TokenType::Star, prev, line0)) && final(self).place == old(self).place,
                    ';' => toks1 == toks0.push(op_token(TokenType::Semicolon, prev, line0))
                        && final(self).place == old(self).place,
                    '\r' | '\t' | ' ' | '\n' => toks1 == toks0 && final(self).place == old(self).place,
                    '!' => if next_eq {
                        toks1 == toks0.push(op_token(TokenType::BangEqual, prev, line0)) && final(self).place == old(self).place + 1
                    } else {
                        toks1 == toks0.push(op_token(TokenType::Bang, prev, line0)) && final(self).place == old(self).place
                    },
                    '=' => if next_eq {
                        toks1 == toks0.push(op_token(TokenType::EqualEqual, prev, line0)) && final(self).place == old(self).place + 1
                    } else {
                        toks1 == toks0.push(op_token(TokenType::Equal, prev, line0)) && final(self).place == old(self).place
                    },
                    '>' => if next_eq {
                        toks1 == toks0.push(op_token(TokenType::GreaterEqual, prev, line0))
                            && final(self).place == old(self).place + 1
                    } else {
                        toks1 == toks0.push(op_token(TokenType::Greater, prev, line0)) && final(self).place == old(self).place
                    },
                    '<' => if next_eq {
                        toks1 == toks0.push(op_token(TokenType::LessEqual, prev, line0)) && final(self).place == old(self).place + 1
                    } else {
                        toks1 == toks0.push(op_token(TokenType::Less, prev, line0)) && final(self).place == old(self).place
                    },
                    '/' => if (old(self).place as int) < s.len() && s[old(self).place as int]
                        == '/' {
                        toks1 == toks0 && final(self).place as int == comment_end(
                            s,
                            old(self).place as int + 1,
                        )
                    } else {
                        toks1 == toks0.push(op_token(TokenType::Slash, prev, line0)) && final(self).place == old(self).place
                    },
                    '"' => r is Ok ==> (close_quote(s, old(self).place as int) matches Some(j)
                        && toks1 == toks0.push(toks1.last()) && toks1.last().toktype
                        == TokenType::String && toks1.last().place == prev && toks1.last().line
                        == line0 && toks1.last().literal@ == LitView::Str(
                        s.subrange(old(self).place as int, j),
                    ) && final(self).place == j + 1),
                    _ => if is_digit_c(c) {
                        toks1 == toks0.push(toks1.last()) && toks1.last().toktype
                            == TokenType::Number && toks1.last().place == prev
                            && toks1.last().line == line0 && final(self).place as int == num_end(
                            s,
                            old(self).place as int,
                            false,
                        ) && num_token(
                            parse_num,
                            s,
                            prev as int,
                            final(self).place as int,
                            toks1.last(),
                        )
                    } else if is_alpha(c) || c == '_' {
                        toks1 == toks0.push(toks1.last()) && toks1.last().place == prev
                            && toks1.last().line == line0 && final(self).place as int == ident_end(
                            s,
                            old(self).place as int,
                        ) && ({
                            let w = s.subrange(prev as int, final(self).place as int);
                            let tok = toks1.last();
                            match keyword_of(w) {
                                Some(t) => tok.toktype == t && (if t == TokenType::True {
                                    tok.literal@ == LitView::Bool(true)
                                } else if t == TokenType::False {
                                    tok.literal@ == LitView::Bool(false)
                                } else {
                                    tok.literal@ == LitView::Nil
                                }),
                                None => tok.toktype == TokenType::Identifier && tok.literal@
                                    == LitView::Ident(w),
                            }
                        })
                    } else {
                        toks1 == toks0 && final(self).place == old(self).place && (r matches Err(e)
                            && e.typing == crate::error::ErrorType::Warn && e.msg@
                            == "unexpected character, line "@ + crate::error::dec_str(
                            line0 as int,
                        ))
                    },
                }
            }),
            match r {
                Ok(()) => final(self).ss.offset <= final(self).ss.text@.len() && has_unterminated(
                    final(self).ss.text@,
                    old(self).prev_place as int,
                ) == has_unterminated(final(self).ss.text@, final(self).place as int),
                Err(e) => match e.typing {
                    crate::error::ErrorType::Warn => final(self).ss.offset
                        <= final(self).ss.text@.len() && has_unterminated(
                        final(self).ss.text@,
                        old(self).prev_place as int,
                    ) == has_unterminated(final(self).ss.text@, final(self).place as int),
                    crate::error::ErrorType::Fatal => has_unterminated(
                        final(self).ss.text@,
                        old(self).prev_place as int,
                    ) && e.msg@ == unterminated_msg(final(self).ss.text@),
                },
            },
            r is Ok ==> (forall|rest: Seq<Token>, w: int|
                (0 <= w && #[trigger] lex_rel(
                    parse_num,
                    final(self).ss.text@,
                    final(self).place as int,
                    rest,
                    w,
                )) ==> lex_rel(
                    parse_num,
                    final(self).ss.text@,
                    old(self).prev_place as int,
                    final(self).tokens@.skip(old(self).tokens@.len() as int) + rest,
                    w,
                )),
            (r matches Err(e) && e.typing == crate::error::ErrorType::Warn) ==> (forall|
                rest: Seq<Token>,
                w: int,
            |
                (0 <= w && #[trigger] lex_rel(
                    parse_num,
                    final(self).ss.text@,
                    final(self).place as int,
                    rest,
                    w,
                )) ==> lex_rel(
                    parse_num,
                    final(self).ss.text@,
                    old(self).prev_place as int,
                    rest,
                    w + 1,
                )),
    {
        let ghost s = self.ss.text@;
        let ghost prev = self.prev_place as int;
        match c {
            '(' => self.add_primitive_token(TokenType::LeftParen),
            ')' => self.add_primitive_token(TokenType::RightParen),
            '{' => self.add_primitive_token(TokenType::LeftBrace),
            '}' => self.add_primitive_token(TokenType::RightBrace),
            ',' => self.add_primitive_token(TokenType::Comma),
            '.' => self.add_primitive_token(TokenType::Dot),
            '+' => self.add_primitive_token(TokenType::Plus),
            '-' => self.add_primitive_token(TokenType::Minus),
            '*' => self.add_primitive_token(TokenType::Star),
            ';' => self.add_primitive_token(TokenType::Semicolon),
            '\r' | '\t' | ' ' | '\n' => {},
            '!' => {
                if self.is('=') {
                    self.add_primitive_token(TokenType::BangEqual);
                } else {
                    self.add_primitive_token(TokenType::Bang);
                }
                proof {
                    lemma_skip_run(s, prev, self.place as int);
                }
            },
            '=' => {
                if self.is('=') {
                    self.add_primitive_token(TokenType::EqualEqual);
                } else {
                    self.add_primitive_token(TokenType::Equal);
                }
                proof {
                    lemma_skip_run(s, prev, self.place as int);
                }
            },
            '>' => {
                if self.is('=') {
                    self.add_primitive_token(TokenType::GreaterEqual);
                } else {
                    self.add_primitive_token(TokenType::Greater);
                }
                proof {
                    lemma_skip_run(s, prev, self.place as int);
                }
            },
            '<' => {
                if self.is('=') {
                    self.add_primitive_token(TokenType::LessEqual);
                } else {
                    self.add_primitive_token(TokenType::Less);
                }
                proof {
                    lemma_skip_run(s, prev, self.place as int);
                }
            },
            '/' => {
                if self.is('/') {
                    loop
                        invariant
                            s == old(self).ss.text@,
                            prev == old(self).prev_place as int,
                            self.wf(),
                            self.ss.text@ == s,
                            self.ss.offset <= s.len(),
                            self.prev_place == old(self).prev_place,
                            self.tokens == old(self).tokens,
                            prev + 2 <= self.place as int,
                            comment_end(s, self.place as int) == comment_end(s, prev + 2),
                        ensures
                            self.wf(),
                            self.ss.text@ == s,
                            self.ss.offset <= s.len(),
                            self.prev_place == old(self).prev_place,
                            self.tokens == old(self).tokens,
                            prev + 2 <= self.place as int,
                            comment_end(s, prev + 2) == self.place as int,
                        decreases s.len() - self.place,
                    {
                        let peeker = match self.ss.peek() {
                            Some(p) => p,
                            None => { break },
                        };
                        if peeker == '\n' {
                            proof {
                                assert(comment_end(s, self.place as int) == self.place as int);
                            }
                            break ;
                        }
                        self.advance();
                    }
                } else {
                    self.add_primitive_token(TokenType::Slash);
                }
            },
            '"' => {
                let r = self.string();
                match r {
                    Ok(()) => {},
                    Err(e) => {
                        return Err(e);
                    },
                }
            },
            _ => {
                if digit_char(c) {
                    self.number(parse_num);
                    proof {
                        lemma_skip_run(s, prev + 1, self.place as int);
                    }
                } else if char_is_alphabetic(c) || c == '_' {
                    self.identifier();
                    proof {
                        lemma_skip_run(s, prev + 1, self.place as int);
                    }
                } else {
                    proof {
                        assert forall|rest: Seq<Token>, w: int|
                            (0 <= w && #[trigger] lex_rel(
                                parse_num,
                                s,
                                self.place as int,
                                rest,
                                w,
                            )) implies lex_rel(parse_num, s, prev, rest, w + 1) by {
                            assert(lex_rel(parse_num, s, prev, rest, w + 1));
                        }
                    }
                    let mut msg: String = "unexpected character, line ".to_owned();
                    let line_text = crate::error::usize_text(self.line);
                    msg.append(line_text.as_str());
                    return Err(Error { token: None, msg, typing: crate::error::ErrorType::Warn });
                }
            },
        }
        proof {
            assert forall|rest: Seq<Token>, w: int|
                (0 <= w && #[trigger] lex_rel(parse_num, s, self.place as int, rest, w)) implies
                lex_rel(
                    parse_num,
                    s,
                    prev,
                    self.tokens@.skip(old(self).tokens@.len() as int) + rest,
                    w,
                ) by {
                let delta = self.tokens@.skip(old(self).tokens@.len() as int);
                if self.tokens@.len() > old(self).tokens@.len() {
                    assert(delta =~= seq![self.tokens@.last()]);
                    assert((delta + rest).first() == self.tokens@.last());
                    assert((delta + rest).drop_first() =~= rest);
                } else {
                    assert(delta =~= Seq::<Token>::empty());
                    assert(delta + rest =~= rest);
                }
                assert(old(self).line as int == newlines(s, prev + 1));
                if s[prev] != '\n' {
                    assert(newlines(s, prev + 1) == newlines(s, prev));
                }
                if s[prev] == '"' {
                    lemma_close_quote_bounds(s, prev + 1);
                }
                if s[prev] == '\r' || s[prev] == '\t' || s[prev] == ' ' || s[prev] == '\n' {
                    assert(delta + rest == rest);
                    lemma_lex_ws_step(parse_num, s, prev, rest, w);
                }
                assert(lex_rel(parse_num, s, prev, delta + rest, w));
            }
            if forall|i: int|
                0 <= i < old(self).tokens@.len() ==> crate::token::token_shaped(
                    #[trigger] old(self).tokens@[i]@,
                ) {
                assert forall|i: int|
                    0 <= i < self.tokens@.len() implies crate::token::token_shaped(
                    #[trigger] self.tokens@[i]@,
                ) by {
                    if i < old(self).tokens@.len() {
                        assert(self.tokens@[i] == old(self).tokens@[i]);
                    } else {
                        assert(self.tokens@[i] == self.tokens@.last());
                    }
                }
            }
        }
        Ok(())
    }

    /// Scans every token of the source text, in order.
    ///
    /// On success the token list is handed back together with the
    /// warnings (all non-fatal) gathered along the way: well-shaped
    /// tokens at strictly increasing positions inside the text, each
    /// placed at the first character of its lexeme, and never an
    /// end-of-input marker, which the caller appends. The scan fails
    /// exactly when the text holds an unterminated string literal, and
    /// then the whole run is to be abandoned: this is the one lexical
    /// condition that is fatal rather than a warning.
    pub fn scan_tokens<P: Fn(String) -> u64 + Copy>(&mut self, parse_num: P) -> (r: Result<
        (Vec<Token>, Vec<Error>),
        Error,
    >)
        requires
            old(self).wf(),
            parse_total(parse_num),
            old(self).ss.offset <= old(self).ss.text@.len(),
            old(self).tokens@.len() == 0,
        ensures
            final(self).wf(),
            final(self).ss.text@ == old(self).ss.text@,
            match r {
                Ok((toks, warns)) => !has_unterminated(old(self).ss.text@, old(self).place as int)
                    && toks@.len() == final(self).tokens@.len() && (forall|i: int|
                    0 <= i < toks@.len() ==> toks@[i]@ == final(self).tokens@[i]@) && (forall|
                    i: int,
                |
                    0 <= i < toks@.len() ==> crate::token::token_shaped(#[trigger] toks@[i]@)) && (
                    forall|i: int|
                    0 <= i < toks@.len() ==> (#[trigger] toks@[i]).toktype != TokenType::Eof
                        && toks@[i].place < old(self).ss.text@.len()) && (forall|i: int, j: int|
                    0 <= i < j < toks@.len() ==> toks@[i].place < toks@[j].place) && (forall|
                    i: int,
                |
                    0 <= i < warns@.len() ==> warns@[i].typing == crate::error::ErrorType::Warn)
                    && lex_rel(
                    parse_num,
                    old(self).ss.text@,
                    old(self).place as int,
                    toks@,
                    warns@.len() as int,
                ),
                Err(e) => has_unterminated(old(self).ss.text@, old(self).place as int) && e.typing
                    == crate::error::ErrorType::Fatal && e.msg@ == unterminated_msg(
                    old(self).ss.text@,
                ),
            },
    {
        let ghost s = self.ss.text@;
        let ghost start = self.place as int;
        self.prev_place = self.place;
        let mut warns: Vec<Error> = Vec::new();
        proof {
            assert forall|rest: Seq<Token>, w2: int|
                (0 <= w2 && #[trigger] lex_rel(parse_num, s, self.place as int, rest, w2)) implies
                lex_rel(parse_num, s, start, self.tokens@ + rest, warns@.len() + w2) by {
                assert(self.tokens@ + rest =~= rest);
            }
        }
        loop
            invariant_except_break
                self.ss.offset <= s.len(),
            invariant
                s == old(self).ss.text@,
                start == old(self).place as int,
                self.wf(),
                self.ss.text@ == s,
                self.prev_place == self.place,
                parse_total(parse_num),
                forall|k: int|
                    0 <= k < self.tokens@.len() ==> crate::token::token_shaped(
                        #[trigger] self.tokens@[k]@,
                    ),
                forall|k: int|
                    0 <= k < self.tokens@.len() ==> (#[trigger] self.tokens@[k]).toktype
                        != TokenType::Eof && self.tokens@[k].place < self.place,
                forall|k1: int, k2: int|
                    0 <= k1 < k2 < self.tokens@.len() ==> (#[trigger] self.tokens@[k1]).place < (
                    #[trigger] self.tokens@[k2]).place,
                forall|rest: Seq<Token>, w2: int|
                    (0 <= w2 && #[trigger] lex_rel(parse_num, s, self.place as int, rest, w2))
                        ==> lex_rel(parse_num, s, start, self.tokens@ + rest, warns@.len() + w2),
                has_unterminated(s, start) == has_unterminated(s, self.place as int),
                forall|i: int|
                    0 <= i < warns@.len() ==> warns@[i].typing == crate::error::ErrorType::Warn,
            ensures
                self.wf(),
                self.ss.text@ == s,
                !has_unterminated(s, start),
                lex_rel(parse_num, s, start, self.tokens@, warns@.len() as int),
                forall|k: int|
                    0 <= k < self.tokens@.len() ==> (#[trigger] self.tokens@[k]).toktype
                        != TokenType::Eof && self.tokens@[k].place < s.len(),
                forall|k1: int, k2: int|
                    0 <= k1 < k2 < self.tokens@.len() ==> (#[trigger] self.tokens@[k1]).place < (
                    #[trigger] self.tokens@[k2]).place,
                forall|i: int|
                    0 <= i < warns@.len() ==> warns@[i].typing == crate::error::ErrorType::Warn,
            decreases s.len() - self.place,
        {
            let c = match self.advance() {
                Some(c) => c,
                None => {
                    proof {
                        assert(self.place == s.len());
                        assert(lex_rel(parse_num, s, self.place as int, Seq::<Token>::empty(), 0));
                        assert(self.tokens@ + Seq::<Token>::empty() =~= self.tokens@);
                        assert(lex_rel(parse_num, s, start, self.tokens@, warns@.len() as int));
                    }
                    break ;
                },
            };
            let ghost toks_top = self.tokens@;
            let rs = self.scan_token(c, parse_num);
            let ghost grs = rs;
            match rs {
                Ok(()) => {},
                Err(e) => {
                    match e.typing {
                        crate::error::ErrorType::Warn => {
                            proof {
                                assert(grs matches Err(e2) && e2 == e);
                            }
                            warns.push(e);
                        },
                        crate::error::ErrorType::Fatal => {
                            return Err(e);
                        },
                    }
                },
            }
            proof {
                let prev2 = self.prev_place as int;
                let oldlen = toks_top.len() as int;
                assert forall|rest: Seq<Token>, w2: int|
                    (0 <= w2 && #[trigger] lex_rel(parse_num, s, self.place as int, rest, w2))
                        implies lex_rel(
                    parse_num,
                    s,
                    start,
                    self.tokens@ + rest,
                    warns@.len() + w2,
                ) by {
                    if grs is Ok {
                        let delta = self.tokens@.skip(oldlen);
                        assert(lex_rel(parse_num, s, prev2, delta + rest, w2));
                        assert(toks_top + (delta + rest) =~= self.tokens@ + rest);
                    } else {
                        assert(lex_rel(parse_num, s, prev2, rest, w2 + 1));
                        assert(toks_top + rest =~= self.tokens@ + rest);
                    }
                }
            }
            self.prev_place = self.place;
        }
        let toks = clone_tokens(&self.tokens);
        proof {
            lemma_lex_rel_views(parse_num, s, start, self.tokens@, toks@, warns@.len() as int);
        }
        Ok((toks, warns))
    }
}

/// Copies a token list, keeping every token's model.
fn clone_tokens(v: &Vec<Token>) -> (r: Vec<Token>)
    ensures
        r@.len() == v@.len(),
        forall|i: int| 0 <= i < v@.len() ==> r@[i]@ == v@[i]@,
{
    let mut r: Vec<Token> = Vec::new();
    let mut k: usize = 0;
    while k < v.len()
        invariant
            k <= v@.len(),
            r@.len() == k,
            forall|i: int| 0 <= i < k ==> r@[i]@ == v@[i]@,
        decreases v@.len() - k,
    {
        r.push(v[k].clone());
        k = k + 1;
    }
    r
}

} // verus!
