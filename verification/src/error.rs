//! Diagnostics: every component reports problems as values of [`Error`],
//! collected per call, never as a process-wide flag.

use vstd::prelude::*;

use crate::token::Token;
use vstd::string::StringExecFns;

verus! {

/// Severity of a diagnostic: a warning lets the run go on, a fatal
/// diagnostic ends the construct it belongs to.
#[derive(Copy, Clone, Debug, PartialEq, Eq, Structural)]
pub enum ErrorType {
    Warn,
    Fatal,
}

/// A diagnostic: severity, message, and the token it points at, when one
/// is available.
#[derive(Debug)]
pub struct Error {
    pub token: Option<Token>,
    pub msg: String,
    pub typing: ErrorType,
}

/// Whether the diagnostic `e` has severity `t`, message `m`, and either no
/// token (`tok` is `None`) or a token modelled by `tok`.
pub open spec fn err_is(e: Error, t: ErrorType, m: Seq<char>, tok: Option<crate::token::TokView>) -> bool {
    &&& e.typing == t
    &&& e.msg@ == m
    &&& match tok {
        Some(tv) => e.token matches Some(et) && et@ == tv,
        None => e.token is None,
    }
}

impl Clone for Error {
    fn clone(&self) -> (res: Self)
        ensures
            res.typing == self.typing,
            res.msg@ == self.msg@,
            self.token is None ==> res.token is None,
            self.token matches Some(t) ==> res.token matches Some(rt) && rt@ == t@,
    {
        Error {
            token: match &self.token {
                Some(t) => Some(t.clone()),
                None => None,
            },
            msg: self.msg.clone(),
            typing: self.typing,
        }
    }
}

impl Error {
    /// A fatal diagnostic with the given message, pointing at `token` when
    /// one is given.
    pub fn fatal(msg: &str, token: Option<&Token>) -> (r: Self)
        ensures
            r.typing == ErrorType::Fatal,
            r.msg@ == msg@,
            token is None ==> r.token is None,
            token matches Some(t) ==> r.token matches Some(rt) && rt@ == t@,
    {
        match token {
            Some(v) => Error { token: Some(v.clone()), msg: msg.to_owned(), typing: ErrorType::Fatal },
            None => Error { token: None, msg: msg.to_owned(), typing: ErrorType::Fatal },
        }
    }

    /// A warning with the given message, pointing at `token` when one is
    /// given.
    pub fn warn(msg: &str, token: Option<&Token>) -> (r: Self)
        ensures
            r.typing == ErrorType::Warn,
            r.msg@ == msg@,
            token is None ==> r.token is None,
            token matches Some(t) ==> r.token matches Some(rt) && rt@ == t@,
    {
        match token {
            Some(v) => Error { token: Some(v.clone()), msg: msg.to_owned(), typing: ErrorType::Warn },
            None => Error { token: None, msg: msg.to_owned(), typing: ErrorType::Warn },
        }
    }
}

/// The decimal digit characters of `n`, most significant first.
pub open spec fn dec_str(n: int) -> Seq<char>
    decreases n,
{
    if n < 10 {
        seq![dec_digit(n)]
    } else {
        dec_str(n / 10) + seq![dec_digit(n % 10)]
    }
}

/// The character for one decimal digit.
pub open spec fn dec_digit(d: int) -> char {
    if d == 0 {
        '0'
    } else if d == 1 {
        '1'
    } else if d == 2 {
        '2'
    } else if d == 3 {
        '3'
    } else if d == 4 {
        '4'
    } else if d == 5 {
        '5'
    } else if d == 6 {
        '6'
    } else if d == 7 {
        '7'
    } else if d == 8 {
        '8'
    } else {
        '9'
    }
}

/// Relies on the `Display` implementation of `usize` from std, which
/// renders the value in decimal with no sign, padding or separators.
#[verifier::external_body]
pub(crate) fn usize_text(n: usize) -> (r: String)
    ensures
        r@ == dec_str(n as int),
{
    format!("{n}")
}

/// The rendered form of a diagnostic: severity prefix and message, then
/// the one-based line and the kind of the token it points at, when one is
/// available.
pub open spec fn render_spec(e: Error) -> Seq<char> {
    (match e.typing {
        ErrorType::Warn => "WARN: "@,
        ErrorType::Fatal => "FATAL: "@,
    }) + e.msg@ + (match e.token {
        Some(t) => ", line "@ + dec_str(t.line + 1) + ", token "@ + crate::token::token_type_name(
            t.toktype,
        ),
        None => Seq::<char>::empty(),
    })
}

impl Error {
    /// Renders the diagnostic as a single line of text.
    pub fn render(&self) -> (r: String)
        requires
            self.token matches Some(t) ==> t.line < usize::MAX,
        ensures
            r@ == render_spec(*self),
    {
        let mut buf: String = match self.typing {
            ErrorType::Warn => "WARN: ".to_owned(),
            ErrorType::Fatal => "FATAL: ".to_owned(),
        };
        buf.append(self.msg.as_str());
        match &self.token {
            Some(t) => {
                buf.append(", line ");
                let line_text = usize_text(t.line + 1);
                buf.append(line_text.as_str());
                buf.append(", token ");
                let name = crate::token::toktype_text(t.toktype);
                buf.append(name.as_str());
            },
            None => {},
        }
        proof {
            assert(buf@ =~= render_spec(*self));
        }
        buf
    }
}

} // verus!
