//! Executable views of stored nodes: the expression and continuation
//! variants that `fetch` and `fetch_cont` return, thunks, and numbers.

use crate::field::fe;
use crate::field::fe_from_u64;
use crate::ptr::ContPtr;
use crate::ptr::Ptr;
use crate::tags::Op1;
use crate::tags::Op2;
use crate::tags::Rel2;
use vstd::prelude::*;

verus! {

/// A number: a machine integer injected into the field.  Numeric equality
/// is field equality, which the injection preserves.
#[derive(Debug, Copy, Clone, PartialEq, Eq, Hash, Structural)]
pub struct Num {
    pub val: u64,
}

impl Num {
    pub fn new(val: u64) -> (r: Num)
        ensures
            r.val == val,
    {
        Num { val }
    }

    /// The number as a field element.
    pub fn into_scalar(&self) -> (r: Vec<u8>)
        ensures
            r@ == fe(self.val),
    {
        fe_from_u64(self.val)
    }
}

/// A suspended value: an expression together with the continuation it was
/// suspended under.
#[derive(Debug, Copy, Clone, PartialEq, Eq, Hash, Structural)]
pub struct Thunk {
    pub value: Ptr,
    pub continuation: ContPtr,
}

impl Thunk {
    pub fn new(value: Ptr, continuation: ContPtr) -> (r: Thunk)
        ensures
            r == (Thunk { value, continuation }),
    {
        Thunk { value, continuation }
    }
}

/// An immutable view of one expression node, one table deep: children stay
/// pointers, interned strings are returned as owned copies.
#[derive(Debug)]
pub enum Expression {
    Nil,
    Cons(Ptr, Ptr),
    Sym(String),
    /// arg, body, closed env
    Fun(Ptr, Ptr, Ptr),
    Num(Num),
    Str(String),
    Thunk(Thunk),
}

impl PartialEq for Expression {
    fn eq(&self, o: &Expression) -> (r: bool) {
        match (self, o) {
            (Expression::Nil, Expression::Nil) => true,
            (Expression::Cons(a, b), Expression::Cons(c, d)) => *a == *c && *b == *d,
            (Expression::Sym(s), Expression::Sym(t)) => *s == *t,
            (Expression::Fun(a, b, c), Expression::Fun(d, e, f)) => *a == *d && *b == *e && *c
                == *f,
            (Expression::Num(n), Expression::Num(m)) => *n == *m,
            (Expression::Str(s), Expression::Str(t)) => *s == *t,
            (Expression::Thunk(s), Expression::Thunk(t)) => *s == *t,
            _ => false,
        }
    }
}

impl vstd::std_specs::cmp::PartialEqSpecImpl for Expression {
    open spec fn obeys_eq_spec() -> bool {
        true
    }

    open spec fn eq_spec(&self, o: &Expression) -> bool {
        match (*self, *o) {
            (Expression::Nil, Expression::Nil) => true,
            (Expression::Cons(a, b), Expression::Cons(c, d)) => a == c && b == d,
            (Expression::Sym(s), Expression::Sym(t)) => s@ == t@,
            (Expression::Fun(a, b, c), Expression::Fun(d, e, f)) => a == d && b == e && c == f,
            (Expression::Num(n), Expression::Num(m)) => n == m,
            (Expression::Str(s), Expression::Str(t)) => s@ == t@,
            (Expression::Thunk(s), Expression::Thunk(t)) => s == t,
            _ => false,
        }
    }
}

impl Expression {
    /// Whether this is a symbol whose name starts with a colon.
    pub fn is_keyword_sym(&self) -> (r: bool)
        ensures
            r == match self {
                Expression::Sym(s) => s@.len() > 0 && s@[0] == ':',
                _ => false,
            },
    {
        match self {
            Expression::Sym(s) => {
                let str0 = s.as_str();
                if str0.unicode_len() > 0 {
                    str0.get_char(0) == ':'
                } else {
                    false
                }
            },
            _ => false,
        }
    }

    /// The string payload, if this is a string.
    pub fn as_str(&self) -> (r: Option<&str>)
        ensures
            match self {
                Expression::Str(s) => r is Some && r->0@ == s@,
                _ => r is None,
            },
    {
        match self {
            Expression::Str(s) => Some(s.as_str()),
            _ => None,
        }
    }

    /// The symbol's name, if this is a symbol.
    pub fn as_sym_str(&self) -> (r: Option<&str>)
        ensures
            match self {
                Expression::Sym(s) => r is Some && r->0@ == s@,
                _ => r is None,
            },
    {
        match self {
            Expression::Sym(s) => Some(s.as_str()),
            _ => None,
        }
    }
}

/// An immutable view of one continuation frame, one table deep.
#[derive(Debug, Copy, Clone, PartialEq, Eq, Hash, Structural)]
pub enum Continuation {
    Outermost,
    Simple(ContPtr),
    /// The unevaluated argument and the saved env.
    Call(Ptr, Ptr, ContPtr),
    /// The function and the saved env.
    Call2(Ptr, Ptr, ContPtr),
    /// The saved env.
    Tail(Ptr, ContPtr),
    Error,
    /// The saved env.
    Lookup(Ptr, ContPtr),
    Unop(Op1, ContPtr),
    /// The saved env and unevaluated argument.
    Binop(Op2, Ptr, Ptr, ContPtr),
    /// First argument.
    Binop2(Op2, Ptr, ContPtr),
    /// The saved env and unevaluated arguments.
    Relop(Rel2, Ptr, Ptr, ContPtr),
    /// The first argument.
    Relop2(Rel2, Ptr, ContPtr),
    /// Unevaluated arguments.
    If(Ptr, ContPtr),
    /// The var, the body, and the saved env.
    LetStar(Ptr, Ptr, Ptr, ContPtr),
    /// The var, the body, and the saved env.
    LetRecStar(Ptr, Ptr, Ptr, ContPtr),
    Dummy,
    Terminal,
}

} // verus!
