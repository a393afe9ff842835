//! The tree-walking evaluator: a chain of variable scopes held in an
//! arena, and an interpreter that executes statements against it,
//! collecting printed output and runtime diagnostics.

use vstd::prelude::*;
use vstd::string::StringExecFns;
use vstd::string::StrSliceExecFns;

use crate::error::Error;
use crate::error::ErrorType;
use crate::token::Literal;
use crate::token::LitView;
use crate::token::NumCmp;
use crate::token::NumOp;
use crate::token::Token;
use crate::token::TokenType;
use crate::token::arith_total;
use crate::token::cmp_total;
use crate::token::render_total;
use crate::parse::Expr;
use crate::parse::Stmt;

verus! {

/// One scope: its bindings, newest last, and the arena index of the
/// enclosing scope, absent at the outermost one.
pub struct Scope {
    pub parent: Option<usize>,
    pub vals: Vec<(String, Literal)>,
}

/// The value bound to `name` in one scope: the newest binding wins.
pub open spec fn scope_find(vals: Seq<(String, Literal)>, name: Seq<char>) -> Option<LitView>
    decreases vals.len(),
{
    if vals.len() == 0 {
        None
    } else if vals.last().0@ == name {
        Some(vals.last().1@)
    } else {
        scope_find(vals.drop_last(), name)
    }
}

/// The chain of variable scopes, held as nodes of an arena: entering a
/// block adds a node whose parent is the current one, leaving a block
/// restores the previous current node, and no bindings are ever copied,
/// so writes to outer bindings made through an inner scope stay visible
/// after the inner scope is left.
pub struct Environment {
    pub scopes: Vec<Scope>,
    pub current: usize,
}

impl Environment {
    /// The arena invariant: the current node exists and every parent
    /// link points to an earlier node, so every chain is finite and
    /// acyclic.
    pub open spec fn wf(self) -> bool {
        &&& self.current < self.scopes@.len()
        &&& forall|i: int|
            0 <= i < self.scopes@.len() ==> ((#[trigger] self.scopes@[i].parent) matches Some(p)
                ==> p < i)
    }

    /// The arena index of the scope that resolves `name` from scope
    /// `from`: the first one along the parent chain that binds it.
    pub open spec fn resolving_scope(self, from: int, name: Seq<char>) -> Option<int>
        decreases from,
    {
        if !(0 <= from < self.scopes@.len()) {
            None
        } else if scope_find(self.scopes@[from].vals@, name) is Some {
            Some(from)
        } else {
            match self.scopes@[from].parent {
                Some(p) => if p < from {
                    self.resolving_scope(p as int, name)
                } else {
                    None
                },
                None => None,
            }
        }
    }

    /// The value `name` resolves to from scope `from`, through the first
    /// scope along the parent chain that binds it.
    pub open spec fn lookup(self, from: int, name: Seq<char>) -> Option<LitView> {
        match self.resolving_scope(from, name) {
            Some(k) => scope_find(self.scopes@[k].vals@, name),
            None => None,
        }
    }

    /// A fresh environment: one global scope, empty, with no parent.
    pub fn new() -> (r: Self)
        ensures
            r.wf(),
            r.current == 0,
            r.scopes@.len() == 1,
            r.scopes@[0].parent is None,
            r.scopes@[0].vals@.len() == 0,
            forall|n: Seq<char>| r.lookup(0, n) is None,
    {
        let mut scopes: Vec<Scope> = Vec::new();
        scopes.push(Scope { parent: None, vals: Vec::new() });
        let r = Environment { scopes, current: 0 };
        proof {
            assert(forall|n: Seq<char>| scope_find(r.scopes@[0].vals@, n) is None);
        }
        r
    }

    /// Binds `name` to `val` in the current scope, shadowing any binding
    /// of the same name in this or an enclosing scope; every other name
    /// keeps its value.
    pub fn define(&mut self, name: String, val: Literal)
        requires
            old(self).wf(),
        ensures
            final(self).wf(),
            final(self).current == old(self).current,
            final(self).scopes@.len() == old(self).scopes@.len(),
            forall|j: int|
                0 <= j < old(self).scopes@.len() && j != old(self).current as int ==> final(self).scopes@[j] == old(self).scopes@[j],
            final(self).scopes@[old(self).current as int].parent == old(self).scopes@[old(self).current as int].parent,
            forall|n: Seq<char>|
                #![trigger scope_find(final(self).scopes@[old(self).current as int].vals@, n)]
                scope_find(final(self).scopes@[old(self).current as int].vals@, n) == (if n
                    == name@ {
                    Some(val@)
                } else {
                    scope_find(old(self).scopes@[old(self).current as int].vals@, n)
                }),
    {
        let cur = self.current;
        self.scopes[cur].vals.push((name, val));
        proof {
            let nvals = final(self).scopes@[cur as int].vals@;
            let ovals = old(self).scopes@[cur as int].vals@;
            assert(nvals.drop_last() =~= ovals);
        }
    }

    /// Looks a name up by walking from the current scope outward through
    /// the parents; the first binding found wins, and exhausting the
    /// chain is a fatal lookup error.
    pub fn get(&self, name: &Token) -> (r: Result<Literal, Error>)
        requires
            self.wf(),
        ensures
            lookup_outcome(*self, *name, r),
    {
        match &name.literal {
            Literal::Identifier(v) => {
                let ghost n = v@;
                let mut idx = self.current;
                loop
                    invariant
                        self.wf(),
                        idx < self.scopes@.len(),
                        name.literal@ == LitView::Ident(n),
                        v@ == n,
                        self.lookup(self.current as int, n) == self.lookup(idx as int, n),
                    decreases idx,
                {
                    match scope_get(&self.scopes[idx].vals, v) {
                        Some(value) => {
                            proof {
                                assert(self.resolving_scope(idx as int, n) == Some(idx as int));
                            }
                            return Ok(value);
                        },
                        None => {},
                    }
                    let ghost idx0 = idx as int;
                    match self.scopes[idx].parent {
                        Some(p) => {
                            proof {
                                assert(self.resolving_scope(idx0, n) == self.resolving_scope(
                                    p as int,
                                    n,
                                ));
                            }
                            idx = p;
                        },
                        None => {
                            proof {
                                assert(self.resolving_scope(idx0, n) is None);
                            }
                            return Err(Error::fatal("variable identifier not found", Some(&name)));
                        },
                    }
                }
            },
            _ => Err(Error::fatal("variable identifier was literal", Some(&name))),
        }
    }

    /// Overwrites the binding of `name` in the nearest scope along the
    /// chain that already binds it; assignment never creates a binding,
    /// so a name bound nowhere in the chain is an error and the
    /// environment is left untouched.
    pub fn assign(&mut self, name: &Token, val: &Literal) -> (r: Result<(), ()>)
        requires
            old(self).wf(),
        ensures
            final(self).wf(),
            final(self).current == old(self).current,
            final(self).scopes@.len() == old(self).scopes@.len(),
            match name.literal@ {
                LitView::Ident(n) => match old(self).resolving_scope(
                    old(self).current as int,
                    n,
                ) {
                    Some(k) => r is Ok && env_assigned(*old(self), *final(self), k, n, *val),
                    None => r is Err && *final(self) == *old(self),
                },
                _ => r is Err && *final(self) == *old(self),
            },
    {
        match &name.literal {
            Literal::Identifier(v) => {
                let ghost n = v@;
                let mut idx = self.current;
                loop
                    invariant
                        self.wf(),
                        *self == *old(self),
                        idx < self.scopes@.len(),
                        name.literal@ == LitView::Ident(n),
                        v@ == n,
                        old(self).resolving_scope(old(self).current as int, n) == old(
                            self,
                        ).resolving_scope(idx as int, n),
                    decreases idx,
                {
                    match scope_get(&self.scopes[idx].vals, v) {
                        Some(_) => {
                            proof {
                                assert(old(self).resolving_scope(idx as int, n) == Some(
                                    idx as int,
                                ));
                            }
                            self.scopes[idx].vals.push((v.clone(), val.clone()));
                            proof {
                                let nvals = final(self).scopes@[idx as int].vals@;
                                let ovals = old(self).scopes@[idx as int].vals@;
                                assert(nvals.drop_last() =~= ovals);
                            }
                            return Ok(());
                        },
                        None => {},
                    }
                    let ghost idx0 = idx as int;
                    match self.scopes[idx].parent {
                        Some(p) => {
                            proof {
                                assert(old(self).resolving_scope(idx0, n) == old(
                                    self,
                                ).resolving_scope(p as int, n));
                            }
                            idx = p;
                        },
                        None => {
                            proof {
                                assert(old(self).resolving_scope(idx0, n) is None);
                            }
                            return Err(());
                        },
                    }
                }
            },
            _ => Err(()),
        }
    }

    /// Enters a block: adds a child scope of the current one and makes
    /// it current, handing back the index to restore on leaving.
    pub fn enter_scope(&mut self) -> (prev: usize)
        requires
            old(self).wf(),
        ensures
            final(self).wf(),
            prev == old(self).current,
            final(self).scopes@.len() == old(self).scopes@.len() + 1,
            forall|j: int|
                0 <= j < old(self).scopes@.len() ==> final(self).scopes@[j] == old(self).scopes@[j],
            final(self).current == old(self).scopes@.len(),
            final(self).scopes@.last().parent == Some(prev),
            final(self).scopes@.last().vals@.len() == 0,
    {
        let prev = self.current;
        self.current = self.scopes.len();
        self.scopes.push(Scope { parent: Some(prev), vals: Vec::new() });
        prev
    }

    /// Leaves a block: restores the scope that was current before it.
    /// The child scope is left behind in the arena, unreachable from the
    /// restored chain; none of its bindings leak out, while every write
    /// it made to outer scopes stays.
    pub fn exit_scope(&mut self, prev: usize)
        requires
            old(self).wf(),
            prev < old(self).scopes@.len(),
        ensures
            final(self).wf(),
            final(self).current == prev,
            final(self).scopes == old(self).scopes,
    {
        self.current = prev;
    }
}

/// Finds the value bound to `name` in one scope's bindings, newest
/// binding first.
fn scope_get(vals: &Vec<(String, Literal)>, name: &String) -> (r: Option<Literal>)
    ensures
        match r {
            Some(v) => scope_find(vals@, name@) == Some(v@),
            None => scope_find(vals@, name@) is None,
        },
{
    let mut j = vals.len();
    proof {
        assert(vals@.take(vals@.len() as int) =~= vals@);
    }
    loop
        invariant
            j <= vals@.len(),
            scope_find(vals@, name@) == scope_find(vals@.take(j as int), name@),
        decreases j,
    {
        if j == 0 {
            proof {
                assert(vals@.take(0) =~= Seq::<(String, Literal)>::empty());
            }
            return None;
        }
        j = j - 1;
        if *name == vals[j].0 {
            proof {
                assert(vals@.take(j as int + 1).last() == vals@[j as int]);
            }
            return Some(vals[j].1.clone());
        }
        proof {
            assert(vals@.take(j as int + 1).drop_last() =~= vals@.take(j as int));
            assert(vals@.take(j as int + 1).last() == vals@[j as int]);
        }
    }
}

/// The text a string value prints as: every two-character `\n` escape
/// sequence becomes an actual newline, left to right; everything else
/// stays as it is.
pub open spec fn unescape(s: Seq<char>) -> Seq<char>
    decreases s.len(),
{
    if s.len() == 0 {
        Seq::empty()
    } else if s.len() >= 2 && s[0] == '\\' && s[1] == 'n' {
        seq!['\n'] + unescape(s.skip(2))
    } else {
        seq![s[0]] + unescape(s.skip(1))
    }
}

/// Relies on `String::push` from std: appends exactly one character.
#[verifier::external_body]
fn push_char(s: &mut String, c: char)
    ensures
        final(s)@ == old(s)@.push(c),
{
    s.push(c);
}

/// Converts the `\n` escape sequences of a string value for printing.
fn unescape_newlines(s: &String) -> (r: String)
    ensures
        r@ == unescape(s@),
{
    let v = s.as_str();
    let n = v.unicode_len();
    let mut r = String::new();
    let mut i: usize = 0;
    proof {
        assert(s@.skip(0) =~= s@);
        assert(r@ + unescape(s@) =~= unescape(s@));
    }
    while i < n
        invariant
            i <= n,
            n == s@.len(),
            v@ == s@,
            r@ + unescape(s@.skip(i as int)) == unescape(s@),
        decreases n - i,
    {
        let c = v.get_char(i);
        let ghost pre = s@.skip(i as int);
        if c == '\\' && i + 1 < n && v.get_char(i + 1) == 'n' {
            push_char(&mut r, '\n');
            i = i + 2;
            proof {
                assert(pre[0] == '\\' && pre[1] == 'n');
                assert(pre.skip(2) =~= s@.skip(i as int));
                assert(r@ + unescape(s@.skip(i as int)) =~= unescape(s@));
            }
        } else {
            push_char(&mut r, c);
            i = i + 1;
            proof {
                assert(pre[0] == c);
                assert(pre.skip(1) =~= s@.skip(i as int));
                assert(r@ + unescape(s@.skip(i as int)) =~= unescape(s@));
            }
        }
    }
    proof {
        assert(s@.skip(n as int) =~= Seq::<char>::empty());
        assert(r@ =~= unescape(s@));
    }
    r
}

/// Applies a binary operator to two already-evaluated operands,
/// dispatching on the operator token; each arm keeps the exact contract
/// of the operator function it calls.
fn binary<A: Fn(NumOp, u64, u64) -> u64 + Copy, C: Fn(NumCmp, u64, u64) -> bool + Copy>(
    t: &Token,
    v1: Literal,
    v2: Literal,
    arith: A,
    cmp: C,
) -> (r: Result<Literal, Error>)
    requires
        arith_total(arith),
        cmp_total(cmp),
    ensures
        binary_outcome(arith, cmp, *t, v1, v2, r),
{
    match t.toktype {
        TokenType::Plus => Literal::sum(v1, v2, arith),
        TokenType::Minus => Literal::sub(v1, v2, arith),
        TokenType::Star => Literal::mul(v1, v2, arith),
        TokenType::Slash => Literal::div(v1, v2, arith),
        TokenType::EqualEqual => Literal::eq(v1, v2, cmp),
        TokenType::Greater => Literal::gt(v1, v2, cmp),
        TokenType::GreaterEqual => Literal::egt(v1, v2, cmp),
        TokenType::Less => Literal::lt(v1, v2, cmp),
        TokenType::LessEqual => Literal::elt(v1, v2, cmp),
        _ => Err(Error::fatal("FATAL: unexpected operator in binary!", Some(t))),
    }
}

/// Applies a unary operator to an already-evaluated operand: `-` negates
/// a number by subtracting it from the zero bit pattern, `!` inverts a
/// boolean; anything else is fatal.
fn unary<A: Fn(NumOp, u64, u64) -> u64 + Copy>(t: &Token, v: Literal, arith: A) -> (r: Result<
    Literal,
    Error,
>)
    requires
        arith_total(arith),
    ensures
        unary_outcome(arith, *t, v, r),
{
    match t.toktype {
        // 0 is the bit pattern of the IEEE-754 double +0.0
        TokenType::Minus => Literal::sub(Literal::Float(0), v, arith),
        TokenType::Bang => match v {
            Literal::Bool(b) => Ok(Literal::Bool(!b)),
            _ => Err(Error::fatal("FATAL: unexpected operator in unary!", Some(t))),
        },
        _ => Err(Error::fatal("FATAL: unexpected operator in unary!", Some(t))),
    }
}

/// The tree-walking interpreter: the scope chain it evaluates against,
/// and the output that `print` statements have produced so far. The
/// embedder prints the output; the interpreter only appends to it.
pub struct Interpreter {
    pub env: Environment,
    pub output: String,
}

/// Statement execution touches the domain of no scope that existed
/// before it other than the scope that was current: declarations bind in
/// the current scope (or in child scopes that blocks add), and
/// assignment only overwrites existing bindings.
pub open spec fn frames_preserved(pre: Interpreter, post: Interpreter) -> bool {
    &&& post.env.current == pre.env.current
    &&& pre.env.scopes@.len() <= post.env.scopes@.len()
    &&& forall|j: int|
        0 <= j < pre.env.scopes@.len() ==> (#[trigger] post.env.scopes@[j]).parent
            == pre.env.scopes@[j].parent
    &&& forall|j: int, m: Seq<char>|
        0 <= j < pre.env.scopes@.len() && j != pre.env.current as int ==> ((#[trigger] scope_find(
            post.env.scopes@[j].vals@,
            m,
        )) is Some <==> scope_find(pre.env.scopes@[j].vals@, m) is Some)
}

/// Expression evaluation preserves the whole scope structure: no scope
/// appears or disappears, no parent link moves, and no scope's set of
/// bound names changes; only bound values may.
pub open spec fn expr_frames(pre: Interpreter, post: Interpreter) -> bool {
    &&& post.env.current == pre.env.current
    &&& post.env.scopes@.len() == pre.env.scopes@.len()
    &&& forall|j: int|
        0 <= j < pre.env.scopes@.len() ==> (#[trigger] post.env.scopes@[j]).parent
            == pre.env.scopes@[j].parent
    &&& forall|j: int, m: Seq<char>|
        0 <= j < pre.env.scopes@.len() ==> ((#[trigger] scope_find(post.env.scopes@[j].vals@, m))
            is Some <==> scope_find(pre.env.scopes@[j].vals@, m) is Some)
    &&& post.output == pre.output
}

/// The law behind block scoping: what a name resolves to from a scope
/// depends only on the scopes reachable from it through parent links.
/// Entering a block adds a scope at the end of the arena and leaving it
/// restores the previous current index, so everything the block declared
/// sits in scopes the restored chain cannot reach: no binding leaks out
/// of a block, while writes to outer scopes (which stay in place) remain
/// visible.
pub proof fn lemma_lookup_unreachable(e1: Environment, e2: Environment, from: int, name: Seq<char>)
    requires
        e1.scopes@.len() <= e2.scopes@.len(),
        forall|j: int| 0 <= j < e1.scopes@.len() ==> e2.scopes@[j] == (#[trigger] e1.scopes@[j]),
        0 <= from < e1.scopes@.len(),
        forall|i: int|
            0 <= i < e1.scopes@.len() ==> ((#[trigger] e1.scopes@[i].parent) matches Some(p) ==> p
                < i),
    ensures
        e2.resolving_scope(from, name) == e1.resolving_scope(from, name),
        e2.lookup(from, name) == e1.lookup(from, name),
    decreases from,
{
    if scope_find(e1.scopes@[from].vals@, name) is Some {
    } else {
        match e1.scopes@[from].parent {
            Some(p) => {
                if p < from {
                    lemma_lookup_unreachable(e1, e2, p as int, name);
                }
            },
            None => {},
        }
    }
    lemma_resolving_some(e1, from, name);
    lemma_resolving_some(e2, from, name);
}

/// When a name resolves, the scope it resolves in exists and binds it.
pub proof fn lemma_resolving_some(env: Environment, from: int, name: Seq<char>)
    ensures
        env.resolving_scope(from, name) matches Some(k) ==> 0 <= k < env.scopes@.len()
            && scope_find(env.scopes@[k].vals@, name) is Some,
    decreases from,
{
    if 0 <= from < env.scopes@.len() {
        if scope_find(env.scopes@[from].vals@, name) is Some {
        } else {
            match env.scopes@[from].parent {
                Some(p) => {
                    if p < from {
                        lemma_resolving_some(env, p as int, name);
                    }
                },
                None => {},
            }
        }
    }
}

/// What looking a name token up against `env` yields: the value the
/// scope chain resolves it to, or the exact diagnostic.
pub open spec fn lookup_outcome(env: Environment, t: Token, r: Result<Literal, Error>) -> bool {
    match t.literal@ {
        LitView::Ident(n) => match env.lookup(env.current as int, n) {
            Some(v) => r matches Ok(l) && l@ == v,
            None => r matches Err(e) && e.typing == ErrorType::Fatal && e.msg@
                == "variable identifier not found"@,
        },
        _ => r matches Err(e) && e.typing == ErrorType::Fatal && e.msg@
            == "variable identifier was literal"@,
    }
}

/// `post` is `pre` with scope `k` now binding `n` to `val` and nothing
/// else changed: the in-place write of an assignment.
pub open spec fn env_assigned(
    pre: Environment,
    post: Environment,
    k: int,
    n: Seq<char>,
    val: Literal,
) -> bool {
    &&& post.current == pre.current
    &&& post.scopes@.len() == pre.scopes@.len()
    &&& forall|j: int| 0 <= j < pre.scopes@.len() && j != k ==> post.scopes@[j] == pre.scopes@[j]
    &&& post.scopes@[k].parent == pre.scopes@[k].parent
    &&& forall|m: Seq<char>|
        #![trigger scope_find(post.scopes@[k].vals@, m)]
        scope_find(post.scopes@[k].vals@, m) == (if m == n {
            Some(val@)
        } else {
            scope_find(pre.scopes@[k].vals@, m)
        })
}

/// `post` is `pre` with the current scope now binding `name` to `val`
/// and nothing else changed: the effect of a declaration.
pub open spec fn env_defined(pre: Environment, post: Environment, name: Seq<char>, val: Literal) -> bool {
    &&& post.current == pre.current
    &&& post.scopes@.len() == pre.scopes@.len()
    &&& forall|j: int|
        0 <= j < pre.scopes@.len() && j != pre.current as int ==> post.scopes@[j]
            == pre.scopes@[j]
    &&& post.scopes@[pre.current as int].parent == pre.scopes@[pre.current as int].parent
    &&& forall|m: Seq<char>|
        #![trigger scope_find(post.scopes@[pre.current as int].vals@, m)]
        scope_find(post.scopes@[pre.current as int].vals@, m) == (if m == name {
            Some(val@)
        } else {
            scope_find(pre.scopes@[pre.current as int].vals@, m)
        })
}

/// What evaluating an assignment to the token `t` yields once the
/// right-hand value `val` is known, against the environment `mid` the
/// right-hand side left behind: assignment never creates a binding.
pub open spec fn assign_outcome(
    t: Token,
    val: Literal,
    mid: Environment,
    post: Environment,
    r: Result<Literal, Error>,
) -> bool {
    match t.literal@ {
        LitView::Ident(n) => match mid.resolving_scope(mid.current as int, n) {
            Some(k) => (r matches Ok(l) && l == val) && env_assigned(mid, post, k, n, val),
            None => post == mid && (r matches Err(e) && e.typing == ErrorType::Fatal && e.msg@
                == "trying to change non-existing variable"@ && (e.token matches Some(et) && et@
                == t@)),
        },
        _ => post == mid && (r matches Err(e) && e.typing == ErrorType::Fatal && e.msg@
            == "trying to change non-existing variable"@ && (e.token matches Some(et) && et@
            == t@)),
    }
}

/// Trigger marker naming an intermediate environment and outcome inside
/// the evaluation relations; a proof introduces an existential witness
/// by asserting its marker.
pub open spec fn mid_state(env: Environment, r: Result<Literal, Error>) -> bool {
    true
}

/// Trigger marker naming an operand outcome inside the evaluation
/// relations.
pub open spec fn step_result(r: Result<Literal, Error>) -> bool {
    true
}

/// Big-step expression evaluation: relates the environment before and
/// after evaluating `e` to the outcome. Operands evaluate left to right,
/// the first failure short-circuits, and numeric results are constrained
/// through the embedder's closures.
pub open spec fn eval_rel<A: Fn(NumOp, u64, u64) -> u64, C: Fn(NumCmp, u64, u64) -> bool>(
    arith: A,
    cmp: C,
    pre: Environment,
    e: Expr,
    post: Environment,
    r: Result<Literal, Error>,
) -> bool
    decreases e,
{
    match e {
        Expr::Constant(v) => post == pre && (r matches Ok(l) && l@ == v@),
        Expr::Variable(t) => post == pre && lookup_outcome(pre, t, r),
        Expr::Group(i) => eval_rel(arith, cmp, pre, *i, post, r),
        Expr::Unary(t, i) => exists|a: Result<Literal, Error>|
            #![trigger step_result(a)]
            eval_rel(arith, cmp, pre, *i, post, a) && (match a {
                Ok(av) => unary_outcome(arith, t, av, r),
                Err(e2) => r matches Err(e3) && e3 == e2,
            }),
        Expr::Binary(l, t, rr) => exists|mid: Environment, a: Result<Literal, Error>|
            #![trigger mid_state(mid, a)]
            eval_rel(arith, cmp, pre, *l, mid, a) && (match a {
                Err(e2) => post == mid && (r matches Err(e3) && e3 == e2),
                Ok(av) => exists|b: Result<Literal, Error>|
                    #![trigger step_result(b)]
                    eval_rel(arith, cmp, mid, *rr, post, b) && (match b {
                        Err(e2) => r matches Err(e3) && e3 == e2,
                        Ok(bv) => binary_outcome(arith, cmp, t, av, bv, r),
                    }),
            }),
        Expr::Assign(t, i) => exists|mid: Environment, a: Result<Literal, Error>|
            #![trigger mid_state(mid, a)]
            eval_rel(arith, cmp, pre, *i, mid, a) && (match a {
                Err(e2) => post == mid && (r matches Err(e3) && e3 == e2),
                Ok(val) => assign_outcome(t, val, mid, post, r),
            }),
    }
}

/// What applying the binary operator token `t` to two evaluated operands
/// yields; each operator keeps the exact contract of its operator
/// function.
pub open spec fn binary_outcome<A: Fn(NumOp, u64, u64) -> u64, C: Fn(NumCmp, u64, u64) -> bool>(
    arith: A,
    cmp: C,
    t: Token,
    v1: Literal,
    v2: Literal,
    r: Result<Literal, Error>,
) -> bool {
    match t.toktype {
        TokenType::Plus => crate::token::sum_post(arith, v1@, v2@, r),
        TokenType::Minus => crate::token::sub_post(arith, v1@, v2@, r),
        TokenType::Star => crate::token::mul_post(arith, v1@, v2@, r),
        TokenType::Slash => crate::token::div_post(arith, v1@, v2@, r),
        TokenType::EqualEqual => crate::token::eq_post(cmp, v1@, v2@, r),
        TokenType::Greater => crate::token::gt_post(cmp, v1@, v2@, r),
        TokenType::GreaterEqual => crate::token::egt_post(cmp, v1@, v2@, r),
        TokenType::Less => crate::token::lt_post(cmp, v1@, v2@, r),
        TokenType::LessEqual => crate::token::elt_post(cmp, v1@, v2@, r),
        _ => r matches Err(e) && e.typing == ErrorType::Fatal && e.msg@
            == "FATAL: unexpected operator in binary!"@,
    }
}

/// What applying the unary operator token `t` to an evaluated operand
/// yields: `-` subtracts from the zero bit pattern, `!` inverts a
/// boolean.
pub open spec fn unary_outcome<A: Fn(NumOp, u64, u64) -> u64>(
    arith: A,
    t: Token,
    v: Literal,
    r: Result<Literal, Error>,
) -> bool {
    match t.toktype {
        TokenType::Minus => crate::token::sub_post(arith, LitView::Float(0), v@, r),
        TokenType::Bang => match v@ {
            LitView::Bool(b) => r matches Ok(l) && l@ == LitView::Bool(!b),
            _ => r matches Err(e) && e.typing == ErrorType::Fatal && e.msg@
                == "FATAL: unexpected operator in unary!"@,
        },
        _ => r matches Err(e) && e.typing == ErrorType::Fatal && e.msg@
            == "FATAL: unexpected operator in unary!"@,
    }
}

/// Preservation of the scope structure composes across two evaluations.
pub proof fn lemma_expr_frames_trans(a: Interpreter, b: Interpreter, c: Interpreter)
    requires
        expr_frames(a, b),
        expr_frames(b, c),
    ensures
        expr_frames(a, c),
{
    assert forall|j: int, m: Seq<char>|
        0 <= j < a.env.scopes@.len() implies ((#[trigger] scope_find(c.env.scopes@[j].vals@, m))
        is Some <==> scope_find(a.env.scopes@[j].vals@, m) is Some) by {
        assert(scope_find(b.env.scopes@[j].vals@, m) is Some <==> scope_find(
            a.env.scopes@[j].vals@,
            m,
        ) is Some);
    }
}

/// Preservation of pre-existing scopes composes across two statements.
pub proof fn lemma_frames_trans(a: Interpreter, b: Interpreter, c: Interpreter)
    requires
        frames_preserved(a, b),
        frames_preserved(b, c),
    ensures
        frames_preserved(a, c),
{
    assert forall|j: int, m: Seq<char>|
        0 <= j < a.env.scopes@.len() && j != a.env.current as int implies ((#[trigger] scope_find(
        c.env.scopes@[j].vals@,
        m,
    )) is Some <==> scope_find(a.env.scopes@[j].vals@, m) is Some) by {
        assert(scope_find(b.env.scopes@[j].vals@, m) is Some <==> scope_find(
            a.env.scopes@[j].vals@,
            m,
        ) is Some);
    }
}

/// What rendering the value `val` onto the output yields: strings with
/// their `\n` escapes converted, numbers through the embedder's
/// rendering closure, booleans and nil as their names; an identifier
/// value is an evaluator invariant violation, rendered never.
pub open spec fn print_outcome<R: Fn(u64) -> String>(
    render: R,
    val: Literal,
    pre_out: Seq<char>,
    post_out: Seq<char>,
    r: Result<(), Error>,
) -> bool {
    match val@ {
        LitView::Str(s) => r is Ok && post_out == pre_out + unescape(s),
        LitView::Float(b) => r is Ok && (exists|txt: String|
            #![trigger call_ensures(render, (b,), txt)]
            call_ensures(render, (b,), txt) && post_out == pre_out + txt@),
        LitView::Bool(b) => r is Ok && post_out == pre_out + (if b {
            "true"@
        } else {
            "false"@
        }),
        LitView::Nil => r is Ok && post_out == pre_out + "nil"@,
        LitView::Ident(_) => post_out == pre_out && (r matches Err(e) && e.typing
            == ErrorType::Fatal && e.msg@ == "tried to print an identifier"@),
    }
}

/// Trigger marker naming an intermediate interpreter state and statement
/// outcome inside the statement relations.
pub open spec fn seq_step(mid: Interpreter, r: Result<(), Error>) -> bool {
    true
}

/// Trigger marker naming the three witnesses of a block: the state that
/// entered the child scope, the state its statements left, and their
/// outcome.
pub open spec fn block_states(entered: Interpreter, inner: Interpreter, r: Result<(), Error>) -> bool {
    true
}

/// Trigger marker naming one step of top-level execution: the state after
/// a statement, its outcome, and the diagnostics of the rest of the run.
pub open spec fn run_step(mid: Interpreter, r: Result<(), Error>, rest: Seq<Error>) -> bool {
    true
}

/// Big-step execution of an expression statement: evaluate for effect,
/// discard the value, write nothing.
pub open spec fn exprstmt_rel<A: Fn(NumOp, u64, u64) -> u64, C: Fn(NumCmp, u64, u64) -> bool>(
    arith: A,
    cmp: C,
    pre: Interpreter,
    e: Expr,
    post: Interpreter,
    r: Result<(), Error>,
) -> bool {
    post.output == pre.output && (exists|v: Result<Literal, Error>|
        #![trigger step_result(v)]
        eval_rel(arith, cmp, pre.env, e, post.env, v) && (match v {
            Ok(_) => r is Ok,
            Err(e2) => r matches Err(e3) && e3 == e2,
        }))
}

/// Big-step execution of a print statement: evaluate, then render the
/// value onto the output; on a fatal outcome nothing is written.
pub open spec fn print_rel<
    A: Fn(NumOp, u64, u64) -> u64,
    C: Fn(NumCmp, u64, u64) -> bool,
    R: Fn(u64) -> String,
>(arith: A, cmp: C, render: R, pre: Interpreter, e: Expr, post: Interpreter, r: Result<(), Error>) -> bool {
    exists|v: Result<Literal, Error>|
        #![trigger step_result(v)]
        eval_rel(arith, cmp, pre.env, e, post.env, v) && (match v {
            Err(e2) => post.output == pre.output && (r matches Err(e3) && e3 == e2),
            Ok(val) => print_outcome(render, val, pre.output@, post.output@, r),
        })
}

/// Big-step execution of a variable declaration: evaluate the
/// initializer, then bind the name in the current scope.
pub open spec fn var_rel<A: Fn(NumOp, u64, u64) -> u64, C: Fn(NumCmp, u64, u64) -> bool>(
    arith: A,
    cmp: C,
    pre: Interpreter,
    t: Token,
    e: Expr,
    post: Interpreter,
    r: Result<(), Error>,
) -> bool {
    match t.literal@ {
        LitView::Ident(name) => exists|mid: Environment, v: Result<Literal, Error>|
            #![trigger mid_state(mid, v)]
            eval_rel(arith, cmp, pre.env, e, mid, v) && post.output == pre.output && (match v {
                Err(e2) => post.env == mid && (r matches Err(e3) && e3 == e2),
                Ok(val) => r is Ok && env_defined(mid, post.env, name, val),
            }),
        _ => post == pre && (r matches Err(e2) && e2.typing == ErrorType::Fatal && e2.msg@
            == "wrong the hell literal"@),
    }
}

/// Big-step statement execution: relates the interpreter state before
/// and after one statement to its outcome.
pub open spec fn stmt_rel<
    A: Fn(NumOp, u64, u64) -> u64,
    C: Fn(NumCmp, u64, u64) -> bool,
    R: Fn(u64) -> String,
>(arith: A, cmp: C, render: R, pre: Interpreter, s: Stmt, post: Interpreter, r: Result<(), Error>) -> bool
    decreases s, 1int,
{
    match s {
        Stmt::Expression(e) => exprstmt_rel(arith, cmp, pre, e, post, r),
        Stmt::Print(e) => print_rel(arith, cmp, render, pre, e, post, r),
        Stmt::Variable(t, e) => var_rel(arith, cmp, pre, t, e, post, r),
        Stmt::Block(v) => block_rel(arith, cmp, render, pre, v, post, r),
    }
}

/// Big-step execution of a block: its statements run against a fresh
/// child scope, and the scope that was current before is current again
/// afterwards, on success and on failure alike.
pub open spec fn block_rel<
    A: Fn(NumOp, u64, u64) -> u64,
    C: Fn(NumCmp, u64, u64) -> bool,
    R: Fn(u64) -> String,
>(
    arith: A,
    cmp: C,
    render: R,
    pre: Interpreter,
    v: Vec<Stmt>,
    post: Interpreter,
    r: Result<(), Error>,
) -> bool
    decreases v, v@.len() + 1,
{
    post.env.current == pre.env.current && (exists|
        entered: Interpreter,
        inner: Interpreter,
        rr: Result<(), Error>,
    |
        #![trigger block_states(entered, inner, rr)]
        entered.output == pre.output && entered.env.current as int == pre.env.scopes@.len()
            && entered.env.scopes@.len() == pre.env.scopes@.len() + 1 && (forall|j: int|
            0 <= j < pre.env.scopes@.len() ==> entered.env.scopes@[j] == (
            #[trigger] pre.env.scopes@[j])) && entered.env.scopes@.last().parent == Some(
            pre.env.current,
        ) && entered.env.scopes@.last().vals@.len() == 0 && stmts_rel(
            arith,
            cmp,
            render,
            v,
            0,
            entered,
            inner,
            rr,
        ) && post.env.scopes == inner.env.scopes && post.output == inner.output && r == rr)
}

/// Big-step execution of a block's statements from index `i` on: the
/// first failure ends the block with that error.
pub open spec fn stmts_rel<
    A: Fn(NumOp, u64, u64) -> u64,
    C: Fn(NumCmp, u64, u64) -> bool,
    R: Fn(u64) -> String,
>(
    arith: A,
    cmp: C,
    render: R,
    stmts: Vec<Stmt>,
    i: int,
    pre: Interpreter,
    post: Interpreter,
    r: Result<(), Error>,
) -> bool
    decreases stmts, stmts@.len() - i,
{
    if i < 0 || i >= stmts@.len() {
        post == pre && r is Ok
    } else {
        exists|mid: Interpreter, sr: Result<(), Error>|
            #![trigger seq_step(mid, sr)]
            stmt_rel(arith, cmp, render, pre, stmts@[i], mid, sr) && (match sr {
                Err(e2) => post == mid && (r matches Err(e3) && e3 == e2),
                Ok(_) => stmts_rel(arith, cmp, render, stmts, i + 1, mid, post, r),
            })
    }
}

/// Big-step execution of a top-level statement sequence from index `i`
/// on: a failing statement contributes its diagnostic and execution goes
/// on with the next statement.
pub open spec fn interp_rel<
    A: Fn(NumOp, u64, u64) -> u64,
    C: Fn(NumCmp, u64, u64) -> bool,
    R: Fn(u64) -> String,
>(
    arith: A,
    cmp: C,
    render: R,
    stmts: Vec<Stmt>,
    i: int,
    pre: Interpreter,
    post: Interpreter,
    diags: Seq<Error>,
) -> bool
    decreases stmts@.len() - i,
{
    if i < 0 || i >= stmts@.len() {
        post == pre && diags == Seq::<Error>::empty()
    } else {
        exists|mid: Interpreter, sr: Result<(), Error>, rest: Seq<Error>|
            #![trigger run_step(mid, sr, rest)]
            stmt_rel(arith, cmp, render, pre, stmts@[i], mid, sr) && interp_rel(
                arith,
                cmp,
                render,
                stmts,
                i + 1,
                mid,
                post,
                rest,
            ) && diags == (match sr {
                Ok(_) => rest,
                Err(e2) => seq![e2] + rest,
            })
    }
}

/// The law of declaration: a binding just made in the current scope is
/// what the name now resolves to, whatever was bound before and whatever
/// else the chain holds.
pub proof fn lemma_defined_resolves(pre: Environment, post: Environment, n: Seq<char>, val: Literal)
    requires
        pre.wf(),
        env_defined(pre, post, n, val),
    ensures
        post.lookup(post.current as int, n) == Some(val@),
{
    assert(scope_find(post.scopes@[post.current as int].vals@, n) == Some(val@));
    assert(post.resolving_scope(post.current as int, n) == Some(post.current as int));
}

/// The law of assignment: after the nearest binding scope `k` is
/// overwritten, the name resolves to the assigned value from any scope
/// whose chain resolved it in `k` before.
pub proof fn lemma_assigned_resolves(
    pre: Environment,
    post: Environment,
    from: int,
    k: int,
    n: Seq<char>,
    val: Literal,
)
    requires
        pre.wf(),
        pre.resolving_scope(from, n) == Some(k),
        env_assigned(pre, post, k, n, val),
    ensures
        post.lookup(from, n) == Some(val@),
    decreases from,
{
    lemma_resolving_some(pre, from, n);
    if 0 <= from < pre.scopes@.len() {
        if scope_find(pre.scopes@[from].vals@, n) is Some {
            assert(k == from);
        } else {
            assert(post.scopes@[from] == pre.scopes@[from]);
            match pre.scopes@[from].parent {
                Some(p) => {
                    if p < from {
                        lemma_assigned_resolves(pre, post, p as int, k, n, val);
                    }
                },
                None => {},
            }
        }
    }
}

impl Interpreter {
    /// A fresh interpreter: one empty global scope and no output.
    pub fn new() -> (r: Self)
        ensures
            r.env.wf(),
            r.env.current == 0,
            r.env.scopes@.len() == 1,
            r.env.scopes@[0].parent is None,
            r.env.scopes@[0].vals@.len() == 0,
            r.output@ == Seq::<char>::empty(),
            forall|n: Seq<char>| r.env.lookup(0, n) is None,
    {
        Interpreter { env: Environment::new(), output: String::new() }
    }

    /// Evaluates an expression to a value or a fatal diagnostic. The
    /// scope structure is preserved ([`expr_frames`]); a constant
    /// evaluates to itself, and a variable reference to whatever the
    /// scope chain resolves it to.
    fn execute_expr<A: Fn(NumOp, u64, u64) -> u64 + Copy, C: Fn(NumCmp, u64, u64) -> bool + Copy>(
        &mut self,
        expr: &Expr,
        arith: A,
        cmp: C,
    ) -> (r: Result<Literal, Error>)
        requires
            old(self).env.wf(),
            arith_total(arith),
            cmp_total(cmp),
        ensures
            final(self).env.wf(),
            expr_frames(*old(self), *final(self)),
            eval_rel(arith, cmp, old(self).env, *expr, final(self).env, r),
            r matches Err(e) ==> e.typing == ErrorType::Fatal,
        decreases expr, 0int,
    {
        let ghost s0 = *self;
        match expr {
            Expr::Binary(v1, t, v2) => {
                let ra = self.execute_expr(v1, arith, cmp);
                let ghost s1 = *self;
                let ghost ga = ra;
                let a = match ra {
                    Ok(a) => a,
                    Err(e) => {
                        proof {
                            assert(eval_rel(arith, cmp, s0.env, **v1, self.env, ga));
                            assert(mid_state(self.env, ga));
                            assert(eval_rel(arith, cmp, s0.env, *expr, self.env, Err::<
                                Literal,
                                Error,
                            >(e)));
                        }
                        return Err(e);
                    },
                };
                let rb = self.execute_expr(v2, arith, cmp);
                let ghost gb = rb;
                let b = match rb {
                    Ok(b) => b,
                    Err(e) => {
                        proof {
                            lemma_expr_frames_trans(s0, s1, *self);
                            assert(eval_rel(arith, cmp, s1.env, **v2, self.env, gb));
                            assert(mid_state(s1.env, ga));
                            assert(step_result(gb));
                            assert(eval_rel(arith, cmp, s0.env, *expr, self.env, Err::<
                                Literal,
                                Error,
                            >(e)));
                        }
                        return Err(e);
                    },
                };
                let rr = binary(t, a, b, arith, cmp);
                proof {
                    lemma_expr_frames_trans(s0, s1, *self);
                    assert(eval_rel(arith, cmp, s1.env, **v2, self.env, gb));
                    assert(mid_state(s1.env, ga));
                    assert(step_result(gb));
                    assert(eval_rel(arith, cmp, s0.env, *expr, self.env, rr));
                }
                rr
            },
            Expr::Unary(t, v) => {
                let ra = self.execute_expr(v, arith, cmp);
                let ghost ga = ra;
                let a = match ra {
                    Ok(a) => a,
                    Err(e) => {
                        proof {
                            assert(eval_rel(arith, cmp, s0.env, **v, self.env, ga));
                            assert(step_result(ga));
                            assert(eval_rel(arith, cmp, s0.env, *expr, self.env, Err::<
                                Literal,
                                Error,
                            >(e)));
                        }
                        return Err(e);
                    },
                };
                let rr = unary(t, a, arith);
                proof {
                    assert(eval_rel(arith, cmp, s0.env, **v, self.env, ga));
                    assert(step_result(ga));
                    assert(eval_rel(arith, cmp, s0.env, *expr, self.env, rr));
                }
                rr
            },
            Expr::Group(v) => self.execute_expr(v, arith, cmp),
            Expr::Variable(t) => self.env.get(t),
            Expr::Assign(t, v) => {
                let ra = self.execute_expr(v, arith, cmp);
                let ghost ga = ra;
                let val = match ra {
                    Ok(v) => v,
                    Err(e) => {
                        proof {
                            assert(eval_rel(arith, cmp, s0.env, **v, self.env, ga));
                            assert(mid_state(self.env, ga));
                            assert(eval_rel(arith, cmp, s0.env, *expr, self.env, Err::<
                                Literal,
                                Error,
                            >(e)));
                        }
                        return Err(e);
                    },
                };
                let ghost s1 = *self;
                match self.env.assign(t, &val) {
                    Ok(()) => {
                        proof {
                            let n = t.literal@->Ident_0;
                            lemma_resolving_some(s1.env, s1.env.current as int, n);
                            assert(expr_frames(s1, *self));
                            lemma_expr_frames_trans(s0, s1, *self);
                            assert(eval_rel(arith, cmp, s0.env, **v, s1.env, ga));
                            assert(mid_state(s1.env, ga));
                            assert(assign_outcome(*t, val, s1.env, self.env, Ok::<
                                Literal,
                                Error,
                            >(val)));
                            assert(eval_rel(arith, cmp, s0.env, *expr, self.env, Ok::<
                                Literal,
                                Error,
                            >(val)));
                        }
                        Ok(val)
                    },
                    Err(()) => {
                        let err = Error::fatal("trying to change non-existing variable", Some(t));
                        proof {
                            assert(eval_rel(arith, cmp, s0.env, **v, s1.env, ga));
                            assert(mid_state(s1.env, ga));
                            assert(assign_outcome(*t, val, s1.env, self.env, Err::<
                                Literal,
                                Error,
                            >(err)));
                            assert(eval_rel(arith, cmp, s0.env, *expr, self.env, Err::<
                                Literal,
                                Error,
                            >(err)));
                        }
                        Err(err)
                    },
                }
            },
            Expr::Constant(v) => Ok(v.clone()),
        }
    }

    /// Executes a variable declaration: evaluates the initializer and
    /// binds the name in the current scope, shadowing any binding of the
    /// same name in an enclosing scope.
    fn var<A: Fn(NumOp, u64, u64) -> u64 + Copy, C: Fn(NumCmp, u64, u64) -> bool + Copy>(
        &mut self,
        t: &Token,
        v: &Expr,
        arith: A,
        cmp: C,
    ) -> (r: Result<(), Error>)
        requires
            old(self).env.wf(),
            arith_total(arith),
            cmp_total(cmp),
        ensures
            final(self).env.wf(),
            frames_preserved(*old(self), *final(self)),
            final(self).env.scopes@.len() == old(self).env.scopes@.len(),
            final(self).output == old(self).output,
            r matches Err(e) ==> e.typing == ErrorType::Fatal,
            r is Ok ==> (t.literal@ matches LitView::Ident(n) && scope_find(
                final(self).env.scopes@[old(self).env.current as int].vals@,
                n,
            ) is Some),
            var_rel(arith, cmp, *old(self), *t, *v, *final(self), r),
        decreases v, 1int,
    {
        match &t.literal {
            Literal::Identifier(name) => {
                let re = self.execute_expr(v, arith, cmp);
                let ghost ge = re;
                let ghost s1 = *self;
                let expr = match re {
                    Ok(l) => {
                        proof {
                            assert(ge matches Ok(l2) && l2 == l);
                        }
                        l
                    },
                    Err(e) => {
                        proof {
                            assert(mid_state(self.env, ge));
                        }
                        return Err(e);
                    },
                };
                self.env.define(name.clone(), expr);
                proof {
                    assert(mid_state(s1.env, ge));
                    assert(env_defined(s1.env, self.env, name@, expr));
                }
                Ok(())
            },
            _ => Err(Error::fatal("wrong the hell literal", Some(t))),
        }
    }

    /// Executes a print statement: evaluates the expression and renders
    /// the value onto the output. A string is rendered with its `\n`
    /// escapes converted, a number through the embedder's rendering
    /// closure, a boolean as `true` or `false`, nil as `nil`; an
    /// identifier value would be an evaluator invariant violation and is
    /// a fatal diagnostic. On any fatal outcome nothing is emitted.
    #[verifier::rlimit(50)]
    fn print<
        A: Fn(NumOp, u64, u64) -> u64 + Copy,
        C: Fn(NumCmp, u64, u64) -> bool + Copy,
        R: Fn(u64) -> String + Copy,
    >(&mut self, v: &Expr, arith: A, cmp: C, render: R) -> (r: Result<(), Error>)
        requires
            old(self).env.wf(),
            arith_total(arith),
            cmp_total(cmp),
            render_total(render),
        ensures
            final(self).env.wf(),
            frames_preserved(*old(self), *final(self)),
            final(self).env.scopes@.len() == old(self).env.scopes@.len(),
            old(self).output@.is_prefix_of(final(self).output@),
            r matches Err(e) ==> e.typing == ErrorType::Fatal && final(self).output == old(
                self,
            ).output,
            print_rel(arith, cmp, render, *old(self), *v, *final(self), r),
        decreases v, 1int,
    {
        let rv = self.execute_expr(v, arith, cmp);
        let ghost gv = rv;
        let val = match rv {
            Ok(l) => {
                proof {
                    assert(gv matches Ok(l2) && l2 == l);
                }
                l
            },
            Err(e) => {
                proof {
                    assert(step_result(gv));
                }
                return Err(e);
            },
        };
        let ghost gval = val;
        match val {
            Literal::String(s) => {
                proof {
                    assert(gval matches Literal::String(s2) && s2 == s);
                }
                let text = unescape_newlines(&s);
                self.output.append(text.as_str());
            },
            Literal::Float(b) => {
                proof {
                    assert(gval matches Literal::Float(b2) && b2 == b);
                }
                let text = render(b);
                let ghost gt = text;
                self.output.append(text.as_str());
                proof {
                    assert(call_ensures(render, (b,), gt));
                }
            },
            Literal::Bool(b) => {
                proof {
                    assert(gval matches Literal::Bool(b2) && b2 == b);
                }
                if b {
                    self.output.append("true");
                } else {
                    self.output.append("false");
                }
            },
            Literal::Nil => {
                proof {
                    assert(gval matches Literal::Nil);
                }
                self.output.append("nil");
            },
            Literal::Identifier(_) => {
                proof {
                    assert(gval matches Literal::Identifier(_));
                    assert(step_result(gv));
                }
                return Err(Error::fatal("tried to print an identifier", None));
            },
        }
        proof {
            assert(step_result(gv));
            assert(gv matches Ok(v2) && v2 == gval);
            assert(eval_rel(arith, cmp, old(self).env, *v, self.env, gv));
            if gval is String {
                let sd = gval->String_0;
                assert(self.output@ == old(self).output@ + unescape(sd@));
                assert(print_outcome(render, gval, old(self).output@, self.output@, Ok::<
                    (),
                    Error,
                >(())));
            } else if gval is Bool {
                let bd = gval->Bool_0;
                assert(self.output@ == old(self).output@ + (if bd { "true"@ } else { "false"@ }));
                assert(print_outcome(render, gval, old(self).output@, self.output@, Ok::<
                    (),
                    Error,
                >(())));
            } else if gval is Float {
                let fd = gval->Float_0;
                assert(exists|txt: String| #![trigger call_ensures(render, (fd,), txt)] call_ensures(render, (fd,), txt) && self.output@ == old(self).output@ + txt@);
                let txt0 = choose|txt: String|
                    call_ensures(render, (fd,), txt) && self.output@ == old(self).output@ + txt@;
                assert(call_ensures(render, (gval@->Float_0,), txt0));
                assert(print_outcome(render, gval, old(self).output@, self.output@, Ok::<
                    (),
                    Error,
                >(())));
            } else {
                assert(gval is Nil);
                assert(self.output@ == old(self).output@ + "nil"@);
                assert(print_outcome(render, gval, old(self).output@, self.output@, Ok::<
                    (),
                    Error,
                >(())));
            }
        }
        Ok(())
    }

    /// Executes one statement. Failure leaves every scope that existed
    /// before with its parent and its domain intact (apart from
    /// declarations in the scope that was current), and the statement's
    /// own child scopes unreachable.
    fn execute_stmt<
        A: Fn(NumOp, u64, u64) -> u64 + Copy,
        C: Fn(NumCmp, u64, u64) -> bool + Copy,
        R: Fn(u64) -> String + Copy,
    >(&mut self, stmt: &Stmt, arith: A, cmp: C, render: R) -> (r: Result<(), Error>)
        requires
            old(self).env.wf(),
            arith_total(arith),
            cmp_total(cmp),
            render_total(render),
        ensures
            final(self).env.wf(),
            frames_preserved(*old(self), *final(self)),
            old(self).output@.is_prefix_of(final(self).output@),
            r matches Err(e) ==> e.typing == ErrorType::Fatal,
            stmt matches Stmt::Print(_) && r is Err ==> final(self).output == old(self).output,
            stmt_rel(arith, cmp, render, *old(self), *stmt, *final(self), r),
        decreases stmt, 1int,
    {
        match stmt {
            Stmt::Variable(t, v) => {
                let rr = self.var(t, v, arith, cmp);
                proof {
                    assert(var_rel(arith, cmp, *old(self), *t, *v, *self, rr));
                    assert((*stmt) matches Stmt::Variable(t2, v2) && t2 == *t && v2 == *v);
                    assert(stmt_rel(arith, cmp, render, *old(self), *stmt, *self, rr));
                }
                rr
            },
            Stmt::Print(v) => {
                let rr = self.print(v, arith, cmp, render);
                proof {
                    assert(stmt_rel(arith, cmp, render, *old(self), *stmt, *self, rr));
                }
                rr
            },
            Stmt::Expression(v) => {
                let rv = self.execute_expr(v, arith, cmp);
                let ghost gv = rv;
                proof {
                    assert(step_result(gv));
                }
                let rr: Result<(), Error> = match rv {
                    Ok(_) => Ok(()),
                    Err(e) => {
                        proof {
                            assert(gv matches Err(e2) && e2 == e);
                        }
                        Err(e)
                    },
                };
                proof {
                    assert(exprstmt_rel(arith, cmp, *old(self), *v, *self, rr));
                    assert(stmt_rel(arith, cmp, render, *old(self), *stmt, *self, rr));
                }
                rr
            },
            Stmt::Block(v) => {
                let rr = self.block(v, arith, cmp, render);
                proof {
                    assert(stmt_rel(arith, cmp, render, *old(self), *stmt, *self, rr));
                }
                rr
            },
        }
    }

    /// Executes a block: runs its statements against a fresh child scope
    /// and restores the scope that was current before the block on every
    /// exit path, error or not. The first failing statement ends the
    /// block. Declarations inside the block land in the child scope and
    /// do not leak out; writes the block made to outer bindings stay.
    fn block<
        A: Fn(NumOp, u64, u64) -> u64 + Copy,
        C: Fn(NumCmp, u64, u64) -> bool + Copy,
        R: Fn(u64) -> String + Copy,
    >(&mut self, stmts: &Vec<Stmt>, arith: A, cmp: C, render: R) -> (r: Result<(), Error>)
        requires
            old(self).env.wf(),
            arith_total(arith),
            cmp_total(cmp),
            render_total(render),
        ensures
            final(self).env.wf(),
            frames_preserved(*old(self), *final(self)),
            old(self).output@.is_prefix_of(final(self).output@),
            r matches Err(e) ==> e.typing == ErrorType::Fatal,
            block_rel(arith, cmp, render, *old(self), *stmts, *final(self), r),
        decreases stmts, 0int,
    {
        let prev = self.env.enter_scope();
        let ghost entry = *self;
        let mut i: usize = 0;
        let n = stmts.len();
        while i < n
            invariant
                n == stmts@.len(),
                i <= n,
                entry.env.wf(),
                self.env.wf(),
                arith_total(arith),
                cmp_total(cmp),
                render_total(render),
                frames_preserved(entry, *self),
                entry.env.current as int == entry.env.scopes@.len() - 1,
                prev < entry.env.scopes@.len(),
                entry.output == old(self).output,
                entry.env.scopes@.len() == old(self).env.scopes@.len() + 1,
                prev == old(self).env.current,
                forall|j: int|
                    0 <= j < old(self).env.scopes@.len() ==> entry.env.scopes@[j] == (
                    #[trigger] old(self).env.scopes@[j]),
                entry.env.scopes@.last().parent == Some(prev),
                entry.env.scopes@.last().vals@.len() == 0,
                entry.output@.is_prefix_of(self.output@),
                forall|post2: Interpreter, r2: Result<(), Error>|
                    stmts_rel(arith, cmp, render, *stmts, i as int, *self, post2, r2) ==> (
                    #[trigger] stmts_rel(arith, cmp, render, *stmts, 0, entry, post2, r2)),
            decreases n - i,
        {
            let ghost mid = *self;
            let rs = self.execute_stmt(&stmts[i], arith, cmp, render);
            let ghost gs = rs;
            match rs {
                Ok(()) => {
                    proof {
                        lemma_frames_trans(entry, mid, *self);
                        assert forall|post2: Interpreter, r2: Result<(), Error>|
                            stmts_rel(
                                arith,
                                cmp,
                                render,
                                *stmts,
                                i as int + 1,
                                *self,
                                post2,
                                r2,
                            ) implies #[trigger] stmts_rel(
                            arith,
                            cmp,
                            render,
                            *stmts,
                            0,
                            entry,
                            post2,
                            r2,
                        ) by {
                            assert(seq_step(*self, gs));
                            assert(stmts_rel(arith, cmp, render, *stmts, i as int, mid, post2, r2));
                        }
                    }
                },
                Err(e) => {
                    proof {
                        lemma_frames_trans(entry, mid, *self);
                        assert(seq_step(*self, gs));
                        assert(stmts_rel(arith, cmp, render, *stmts, i as int, mid, *self, Err::<
                            (),
                            Error,
                        >(e)));
                        assert(stmts_rel(arith, cmp, render, *stmts, 0, entry, *self, Err::<
                            (),
                            Error,
                        >(e)));
                    }
                    let ghost inner = *self;
                    self.env.exit_scope(prev);
                    proof {
                        assert(frames_preserved(*old(self), *self));
                        assert(block_states(entry, inner, Err::<(), Error>(e)));
                        assert(block_rel(arith, cmp, render, *old(self), *stmts, *self, Err::<
                            (),
                            Error,
                        >(e)));
                    }
                    return Err(e);
                },
            }
            i = i + 1;
        }
        proof {
            assert(stmts_rel(arith, cmp, render, *stmts, n as int, *self, *self, Ok::<
                (),
                Error,
            >(())));
            assert(stmts_rel(arith, cmp, render, *stmts, 0, entry, *self, Ok::<(), Error>(())));
        }
        let ghost inner = *self;
        self.env.exit_scope(prev);
        proof {
            assert(frames_preserved(*old(self), *self));
            assert(block_states(entry, inner, Ok::<(), Error>(())));
            assert(block_rel(arith, cmp, render, *old(self), *stmts, *self, Ok::<(), Error>(())));
        }
        Ok(())
    }

    /// Executes a statement sequence: a failing statement is recorded as
    /// a diagnostic and execution goes on with the next statement, so
    /// one bad statement cannot stop a whole program.
    pub fn interpret<
        A: Fn(NumOp, u64, u64) -> u64 + Copy,
        C: Fn(NumCmp, u64, u64) -> bool + Copy,
        R: Fn(u64) -> String + Copy,
    >(&mut self, stmts: &Vec<Stmt>, arith: A, cmp: C, render: R) -> (diags: Vec<Error>)
        requires
            old(self).env.wf(),
            arith_total(arith),
            cmp_total(cmp),
            render_total(render),
        ensures
            final(self).env.wf(),
            frames_preserved(*old(self), *final(self)),
            old(self).output@.is_prefix_of(final(self).output@),
            forall|i: int|
                0 <= i < diags@.len() ==> (#[trigger] diags@[i]).typing == ErrorType::Fatal,
            interp_rel(arith, cmp, render, *stmts, 0, *old(self), *final(self), diags@),
    {
        let mut diags: Vec<Error> = Vec::new();
        let ghost entry = *self;
        let mut i: usize = 0;
        let n = stmts.len();
        while i < n
            invariant
                n == stmts@.len(),
                i <= n,
                self.env.wf(),
                arith_total(arith),
                cmp_total(cmp),
                render_total(render),
                frames_preserved(entry, *self),
                entry == *old(self),
                entry.output@.is_prefix_of(self.output@),
                forall|k: int|
                    0 <= k < diags@.len() ==> (#[trigger] diags@[k]).typing == ErrorType::Fatal,
                forall|post2: Interpreter, rest: Seq<Error>|
                    interp_rel(arith, cmp, render, *stmts, i as int, *self, post2, rest) ==> (
                    #[trigger] interp_rel(arith, cmp, render, *stmts, 0, entry, post2, diags@
                        + rest)),
            decreases n - i,
        {
            let ghost mid = *self;
            let ghost diags0 = diags@;
            let rs = self.execute_stmt(&stmts[i], arith, cmp, render);
            let ghost gs = rs;
            match rs {
                Ok(()) => {
                    proof {
                        assert forall|post2: Interpreter, rest: Seq<Error>|
                            interp_rel(
                                arith,
                                cmp,
                                render,
                                *stmts,
                                i as int + 1,
                                *self,
                                post2,
                                rest,
                            ) implies #[trigger] interp_rel(
                            arith,
                            cmp,
                            render,
                            *stmts,
                            0,
                            entry,
                            post2,
                            diags@ + rest,
                        ) by {
                            assert(run_step(*self, gs, rest));
                            assert(interp_rel(
                                arith,
                                cmp,
                                render,
                                *stmts,
                                i as int,
                                mid,
                                post2,
                                rest,
                            ));
                        }
                    }
                },
                Err(e) => {
                    proof {
                        assert(gs matches Err(e2) && e2 == e);
                    }
                    diags.push(e);
                    proof {
                        assert forall|post2: Interpreter, rest: Seq<Error>|
                            interp_rel(
                                arith,
                                cmp,
                                render,
                                *stmts,
                                i as int + 1,
                                *self,
                                post2,
                                rest,
                            ) implies #[trigger] interp_rel(
                            arith,
                            cmp,
                            render,
                            *stmts,
                            0,
                            entry,
                            post2,
                            diags@ + rest,
                        ) by {
                            assert(run_step(*self, gs, rest));
                            let e2 = gs->Err_0;
                            assert(seq![e2] + rest =~= Seq::<Error>::empty().push(e2) + rest);
                            assert(interp_rel(
                                arith,
                                cmp,
                                render,
                                *stmts,
                                i as int,
                                mid,
                                post2,
                                seq![e2] + rest,
                            ));
                            assert(diags0 + (seq![e2] + rest) =~= diags@ + rest);
                        }
                    }
                },
            }
            proof {
                lemma_frames_trans(entry, mid, *self);
            }
            i = i + 1;
        }
        proof {
            assert(interp_rel(arith, cmp, render, *stmts, n as int, *self, *self, Seq::<
                Error,
            >::empty()));
            assert(diags@ + Seq::<Error>::empty() =~= diags@);
            assert(interp_rel(arith, cmp, render, *stmts, 0, entry, *self, diags@));
        }
        diags
    }
}

} // verus!
