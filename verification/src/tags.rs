//! The 16-bit tag universe: five disjoint blocks for expression tags,
//! continuation tags, unary ops, binary ops and relational ops.  The numeric
//! values are part of the external contract and must not change.

use crate::field::fe;
use crate::field::fe_from_u64;
use vstd::prelude::*;

verus! {

#[derive(Debug, Copy, Clone, PartialEq, Eq, Hash, Structural)]
pub enum Tag {
    Nil,
    Cons,
    Sym,
    Fun,
    Num,
    Thunk,
    Str,
}

#[derive(Debug, Copy, Clone, PartialEq, Eq, Hash, Structural)]
pub enum ContTag {
    Outermost,
    Simple,
    Call,
    Call2,
    Tail,
    Error,
    Lookup,
    Unop,
    Binop,
    Binop2,
    Relop,
    Relop2,
    If,
    LetStar,
    LetRecStar,
    Dummy,
    Terminal,
}

#[derive(Debug, Copy, Clone, PartialEq, Eq, Hash, Structural)]
pub enum Op1 {
    Car,
    Cdr,
    Atom,
}

#[derive(Debug, Copy, Clone, PartialEq, Eq, Hash, Structural)]
pub enum Op2 {
    Sum,
    Diff,
    Product,
    Quotient,
    Cons,
}

#[derive(Debug, Copy, Clone, PartialEq, Eq, Hash, Structural)]
pub enum Rel2 {
    Equal,
    NumEqual,
}

pub open spec fn tag_u64(t: Tag) -> u64 {
    match t {
        Tag::Nil => 0,
        Tag::Cons => 1,
        Tag::Sym => 2,
        Tag::Fun => 3,
        Tag::Num => 4,
        Tag::Thunk => 5,
        Tag::Str => 6,
    }
}

pub open spec fn cont_tag_u64(t: ContTag) -> u64 {
    match t {
        ContTag::Outermost => 0x1000,
        ContTag::Simple => 0x1001,
        ContTag::Call => 0x1002,
        ContTag::Call2 => 0x1003,
        ContTag::Tail => 0x1004,
        ContTag::Error => 0x1005,
        ContTag::Lookup => 0x1006,
        ContTag::Unop => 0x1007,
        ContTag::Binop => 0x1008,
        ContTag::Binop2 => 0x1009,
        ContTag::Relop => 0x100a,
        ContTag::Relop2 => 0x100b,
        ContTag::If => 0x100c,
        ContTag::LetStar => 0x100d,
        ContTag::LetRecStar => 0x100e,
        ContTag::Dummy => 0x100f,
        ContTag::Terminal => 0x1010,
    }
}

pub open spec fn op1_u64(t: Op1) -> u64 {
    match t {
        Op1::Car => 0x2000,
        Op1::Cdr => 0x2001,
        Op1::Atom => 0x2002,
    }
}

pub open spec fn op2_u64(t: Op2) -> u64 {
    match t {
        Op2::Sum => 0x3000,
        Op2::Diff => 0x3001,
        Op2::Product => 0x3002,
        Op2::Quotient => 0x3003,
        Op2::Cons => 0x3004,
    }
}

pub open spec fn rel2_u64(t: Rel2) -> u64 {
    match t {
        Rel2::Equal => 0x4000,
        Rel2::NumEqual => 0x4001,
    }
}

impl Tag {
    pub fn to_u64(&self) -> (r: u64)
        ensures
            r == tag_u64(*self),
    {
        match self {
            Tag::Nil => 0,
            Tag::Cons => 1,
            Tag::Sym => 2,
            Tag::Fun => 3,
            Tag::Num => 4,
            Tag::Thunk => 5,
            Tag::Str => 6,
        }
    }

    /// The tag as a field element, by zero-extension of its 16-bit value.
    pub fn as_field(&self) -> (r: Vec<u8>)
        ensures
            r@ == fe(tag_u64(*self)),
    {
        fe_from_u64(self.to_u64())
    }
}

impl ContTag {
    pub fn to_u64(&self) -> (r: u64)
        ensures
            r == cont_tag_u64(*self),
    {
        match self {
            ContTag::Outermost => 0x1000,
            ContTag::Simple => 0x1001,
            ContTag::Call => 0x1002,
            ContTag::Call2 => 0x1003,
            ContTag::Tail => 0x1004,
            ContTag::Error => 0x1005,
            ContTag::Lookup => 0x1006,
            ContTag::Unop => 0x1007,
            ContTag::Binop => 0x1008,
            ContTag::Binop2 => 0x1009,
            ContTag::Relop => 0x100a,
            ContTag::Relop2 => 0x100b,
            ContTag::If => 0x100c,
            ContTag::LetStar => 0x100d,
            ContTag::LetRecStar => 0x100e,
            ContTag::Dummy => 0x100f,
            ContTag::Terminal => 0x1010,
        }
    }

    /// The tag as a field element, by zero-extension of its 16-bit value.
    pub fn as_field(&self) -> (r: Vec<u8>)
        ensures
            r@ == fe(cont_tag_u64(*self)),
    {
        fe_from_u64(self.to_u64())
    }
}

impl Op1 {
    pub fn to_u64(&self) -> (r: u64)
        ensures
            r == op1_u64(*self),
    {
        match self {
            Op1::Car => 0x2000,
            Op1::Cdr => 0x2001,
            Op1::Atom => 0x2002,
        }
    }

    pub fn as_field(&self) -> (r: Vec<u8>)
        ensures
            r@ == fe(op1_u64(*self)),
    {
        fe_from_u64(self.to_u64())
    }
}

impl Op2 {
    pub fn to_u64(&self) -> (r: u64)
        ensures
            r == op2_u64(*self),
    {
        match self {
            Op2::Sum => 0x3000,
            Op2::Diff => 0x3001,
            Op2::Product => 0x3002,
            Op2::Quotient => 0x3003,
            Op2::Cons => 0x3004,
        }
    }

    pub fn as_field(&self) -> (r: Vec<u8>)
        ensures
            r@ == fe(op2_u64(*self)),
    {
        fe_from_u64(self.to_u64())
    }
}

impl Rel2 {
    pub fn to_u64(&self) -> (r: u64)
        ensures
            r == rel2_u64(*self),
    {
        match self {
            Rel2::Equal => 0x4000,
            Rel2::NumEqual => 0x4001,
        }
    }

    pub fn as_field(&self) -> (r: Vec<u8>)
        ensures
            r@ == fe(rel2_u64(*self)),
    {
        fe_from_u64(self.to_u64())
    }
}

} // verus!
