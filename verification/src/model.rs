//! The mathematical model of the store's contents: every expression and
//! continuation denotes a finite tree, and every tree has one digest.  The
//! per-variant digest rules here are the wire contract with the arithmetic
//! circuit that consumes scalar pointers.

use crate::field::fe;
use crate::poseidon::poseidon4_of;
use crate::poseidon::poseidon6_of;
use crate::poseidon::poseidon8_of;
use crate::tags::cont_tag_u64;
use crate::tags::op1_u64;
use crate::tags::op2_u64;
use crate::tags::rel2_u64;
use crate::tags::tag_u64;
use crate::tags::ContTag;
use crate::tags::Op1;
use crate::tags::Op2;
use crate::tags::Rel2;
use crate::tags::Tag;
use vstd::prelude::*;
use vstd::utf8::encode_utf8;

verus! {

/// The denotation of an expression pointer: the expression's transitive
/// content as a tree.  Symbol and string leaves carry their characters;
/// numbers carry their value.
pub enum ExprV {
    Nil,
    Cons(Box<ExprV>, Box<ExprV>),
    Sym(Seq<char>),
    Str(Seq<char>),
    Num(u64),
    /// arg (a symbol), body, closed env
    Fun(Box<ExprV>, Box<ExprV>, Box<ExprV>),
    Thunk(Box<ExprV>, Box<ContV>),
}

/// The denotation of a continuation pointer.
pub enum ContV {
    Outermost,
    Simple(Box<ContV>),
    /// The unevaluated argument and the saved env.
    Call(Box<ExprV>, Box<ExprV>, Box<ContV>),
    /// The function and the saved env.
    Call2(Box<ExprV>, Box<ExprV>, Box<ContV>),
    /// The saved env.
    Tail(Box<ExprV>, Box<ContV>),
    Error,
    /// The saved env.
    Lookup(Box<ExprV>, Box<ContV>),
    Unop(Op1, Box<ContV>),
    /// The saved env and unevaluated argument.
    Binop(Op2, Box<ExprV>, Box<ExprV>, Box<ContV>),
    /// First argument.
    Binop2(Op2, Box<ExprV>, Box<ContV>),
    /// The saved env and unevaluated arguments.
    Relop(Rel2, Box<ExprV>, Box<ExprV>, Box<ContV>),
    /// The first argument.
    Relop2(Rel2, Box<ExprV>, Box<ContV>),
    /// Unevaluated arguments.
    If(Box<ExprV>, Box<ContV>),
    /// The var, the body, and the saved env.
    LetStar(Box<ExprV>, Box<ExprV>, Box<ExprV>, Box<ContV>),
    /// The var, the body, and the saved env.
    LetRecStar(Box<ExprV>, Box<ExprV>, Box<ExprV>, Box<ContV>),
    Dummy,
    Terminal,
}

/// The tag an expression tree carries.
pub open spec fn exprv_tag(e: ExprV) -> Tag {
    match e {
        ExprV::Nil => Tag::Nil,
        ExprV::Cons(_, _) => Tag::Cons,
        ExprV::Sym(_) => Tag::Sym,
        ExprV::Str(_) => Tag::Str,
        ExprV::Num(_) => Tag::Num,
        ExprV::Fun(_, _, _) => Tag::Fun,
        ExprV::Thunk(_, _) => Tag::Thunk,
    }
}

/// The tag a continuation tree carries.
pub open spec fn contv_tag(c: ContV) -> ContTag {
    match c {
        ContV::Outermost => ContTag::Outermost,
        ContV::Simple(_) => ContTag::Simple,
        ContV::Call(_, _, _) => ContTag::Call,
        ContV::Call2(_, _, _) => ContTag::Call2,
        ContV::Tail(_, _) => ContTag::Tail,
        ContV::Error => ContTag::Error,
        ContV::Lookup(_, _) => ContTag::Lookup,
        ContV::Unop(_, _) => ContTag::Unop,
        ContV::Binop(_, _, _, _) => ContTag::Binop,
        ContV::Binop2(_, _, _) => ContTag::Binop2,
        ContV::Relop(_, _, _, _) => ContTag::Relop,
        ContV::Relop2(_, _, _) => ContTag::Relop2,
        ContV::If(_, _) => ContTag::If,
        ContV::LetStar(_, _, _, _) => ContTag::LetStar,
        ContV::LetRecStar(_, _, _, _) => ContTag::LetRecStar,
        ContV::Dummy => ContTag::Dummy,
        ContV::Terminal => ContTag::Terminal,
    }
}

/// The chunk element fed to the string hash: the character's codepoint as a
/// field element, or zero past the end of the string.
pub open spec fn chunk_elem(cs: Seq<char>, k: int) -> Seq<u8> {
    if 0 <= k < cs.len() {
        fe((cs[k] as u32) as u64)
    } else {
        fe(0)
    }
}

/// One folding step of the string hash: absorb up to seven codepoints.
pub open spec fn str_digest_loop(acc: Seq<u8>, cs: Seq<char>) -> Seq<u8>
    decreases cs.len(),
{
    if cs.len() == 0 {
        acc
    } else {
        let pre = seq![
            acc,
            chunk_elem(cs, 0),
            chunk_elem(cs, 1),
            chunk_elem(cs, 2),
            chunk_elem(cs, 3),
            chunk_elem(cs, 4),
            chunk_elem(cs, 5),
            chunk_elem(cs, 6),
        ];
        let rest = if cs.len() <= 7 {
            Seq::<char>::empty()
        } else {
            cs.skip(7)
        };
        str_digest_loop(poseidon8_of(pre), rest)
    }
}

/// The UTF-8 byte length of a string.
pub open spec fn str_byte_len(s: Seq<char>) -> nat {
    encode_utf8(s).len()
}

/// The digest of a string: start from its byte length as a field element,
/// then fold the codepoints in chunks of seven, the final chunk padded with
/// zeros.  The empty string's digest is the length prefix itself, `fe(0)`.
pub open spec fn str_digest(s: Seq<char>) -> Seq<u8> {
    str_digest_loop(fe((str_byte_len(s) as usize) as u64), s)
}

/// The digest of an expression tree.
pub open spec fn expr_digest(e: ExprV) -> Seq<u8>
    decreases e, 0int,
{
    match e {
        ExprV::Nil => str_digest("NIL"@),
        ExprV::Sym(s) => str_digest(s),
        ExprV::Str(s) => str_digest(s),
        ExprV::Num(n) => fe(n),
        ExprV::Cons(a, d) => poseidon4_of(
            seq![
                fe(tag_u64(exprv_tag(*a))),
                expr_digest(*a),
                fe(tag_u64(exprv_tag(*d))),
                expr_digest(*d),
            ],
        ),
        ExprV::Fun(a, b, env) => poseidon6_of(
            seq![
                fe(tag_u64(exprv_tag(*a))),
                expr_digest(*a),
                fe(tag_u64(exprv_tag(*b))),
                expr_digest(*b),
                fe(tag_u64(exprv_tag(*env))),
                expr_digest(*env),
            ],
        ),
        ExprV::Thunk(v, k) => poseidon4_of(
            seq![
                fe(tag_u64(exprv_tag(*v))),
                expr_digest(*v),
                fe(cont_tag_u64(contv_tag(*k))),
                cont_digest(*k),
            ],
        ),
    }
}

/// The two scalar components of an expression tree: tag, then digest.
pub open spec fn exprv_comps(e: ExprV) -> Seq<Seq<u8>>
    decreases e, 1int,
{
    seq![fe(tag_u64(exprv_tag(e))), expr_digest(e)]
}

/// The two scalar components of a continuation tree: tag, then digest.
pub open spec fn contv_comps(c: ContV) -> Seq<Seq<u8>>
    decreases c, 3int,
{
    seq![fe(cont_tag_u64(contv_tag(c))), cont_digest(c)]
}

/// The default slot of a continuation preimage: two zero field elements.
pub open spec fn def_comps() -> Seq<Seq<u8>> {
    seq![fe(0), fe(0)]
}

/// The slot an operator occupies in a continuation preimage: the operator
/// as a field element, then zero.
pub open spec fn op_comps(v: u64) -> Seq<Seq<u8>> {
    seq![fe(v), fe(0)]
}

/// The 8-element preimage of a continuation's digest: four 2-element slots
/// in the fixed per-variant layout, flattened slot-major.
pub open spec fn cont_preimage(c: ContV) -> Seq<Seq<u8>>
    decreases c, 1int,
{
    match c {
        ContV::Outermost => def_comps() + def_comps() + def_comps() + def_comps(),
        ContV::Error => def_comps() + def_comps() + def_comps() + def_comps(),
        ContV::Dummy => def_comps() + def_comps() + def_comps() + def_comps(),
        ContV::Terminal => def_comps() + def_comps() + def_comps() + def_comps(),
        ContV::Simple(k) => contv_comps(*k) + def_comps() + def_comps() + def_comps(),
        ContV::Call(arg, env, k) => exprv_comps(*env) + exprv_comps(*arg) + contv_comps(*k)
            + def_comps(),
        ContV::Call2(f, env, k) => exprv_comps(*env) + exprv_comps(*f) + contv_comps(*k)
            + def_comps(),
        ContV::Tail(env, k) => exprv_comps(*env) + contv_comps(*k) + def_comps() + def_comps(),
        ContV::Lookup(env, k) => exprv_comps(*env) + contv_comps(*k) + def_comps() + def_comps(),
        ContV::Unop(op, k) => op_comps(op1_u64(op)) + contv_comps(*k) + def_comps() + def_comps(),
        ContV::Binop(op, env, args, k) => op_comps(op2_u64(op)) + exprv_comps(*env) + exprv_comps(
            *args,
        ) + contv_comps(*k),
        ContV::Binop2(op, arg1, k) => op_comps(op2_u64(op)) + exprv_comps(*arg1) + contv_comps(*k)
            + def_comps(),
        ContV::Relop(rel, env, args, k) => op_comps(rel2_u64(rel)) + exprv_comps(*env)
            + exprv_comps(*args) + contv_comps(*k),
        ContV::Relop2(rel, arg1, k) => op_comps(rel2_u64(rel)) + exprv_comps(*arg1) + contv_comps(
            *k,
        ) + def_comps(),
        ContV::If(args, k) => exprv_comps(*args) + contv_comps(*k) + def_comps() + def_comps(),
        ContV::LetStar(var, body, env, k) => exprv_comps(*var) + exprv_comps(*body) + exprv_comps(
            *env,
        ) + contv_comps(*k),
        ContV::LetRecStar(var, body, env, k) => exprv_comps(*var) + exprv_comps(*body)
            + exprv_comps(*env) + contv_comps(*k),
    }
}

/// The digest of a continuation tree: the Poseidon hash of its preimage.
pub open spec fn cont_digest(c: ContV) -> Seq<u8>
    decreases c, 2int,
{
    poseidon8_of(cont_preimage(c))
}

/// The 4-element preimage of a thunk's digest.
pub open spec fn thunk_preimage(v: ExprV, k: ContV) -> Seq<Seq<u8>> {
    exprv_comps(v) + contv_comps(k)
}

/// The 4-element preimage of a cons cell's digest.
pub open spec fn cons_preimage(a: ExprV, d: ExprV) -> Seq<Seq<u8>> {
    seq![
        fe(tag_u64(exprv_tag(a))),
        expr_digest(a),
        fe(tag_u64(exprv_tag(d))),
        expr_digest(d),
    ]
}

/// The 6-element preimage of a function node's digest.
pub open spec fn fun_preimage(a: ExprV, b: ExprV, env: ExprV) -> Seq<Seq<u8>> {
    seq![
        fe(tag_u64(exprv_tag(a))),
        expr_digest(a),
        fe(tag_u64(exprv_tag(b))),
        expr_digest(b),
        fe(tag_u64(exprv_tag(env))),
        expr_digest(env),
    ]
}

/// The scalar pointer of an expression tree: tag and digest as field
/// elements.
pub open spec fn expr_scalar(e: ExprV) -> (Seq<u8>, Seq<u8>) {
    (fe(tag_u64(exprv_tag(e))), expr_digest(e))
}

/// The scalar pointer of a continuation tree.
pub open spec fn cont_scalar(c: ContV) -> (Seq<u8>, Seq<u8>) {
    (fe(cont_tag_u64(contv_tag(c))), cont_digest(c))
}

} // verus!
