//! Typed pointers (a tag and a raw table index) and scalar pointers (a tag
//! and a content hash, both as field elements).

use crate::field::fe;
use crate::field::fe_from_u64;
use crate::tags::cont_tag_u64;
use crate::tags::tag_u64;
use crate::tags::ContTag;
use crate::tags::Tag;
use vstd::prelude::*;

verus! {

/// An opaque dense index into one of the store's tables.  It carries no tag
/// and is meaningful only together with one.
#[derive(Debug, Copy, Clone, PartialEq, Eq, Hash, Structural)]
pub struct RawPtr {
    pub idx: usize,
}

impl RawPtr {
    pub fn new(p: usize) -> (r: RawPtr)
        ensures
            r.idx == p,
    {
        RawPtr { idx: p }
    }
}

/// A typed pointer to an expression node.
#[derive(Debug, Copy, Clone, PartialEq, Eq, Hash, Structural)]
pub struct Ptr {
    pub tag: Tag,
    pub raw: RawPtr,
}

impl Ptr {
    pub fn new(tag: Tag, raw: RawPtr) -> (r: Ptr)
        ensures
            r == (Ptr { tag, raw }),
    {
        Ptr { tag, raw }
    }

    pub fn is_nil(&self) -> (r: bool)
        ensures
            r == (self.tag is Nil),
    {
        matches!(self.tag, Tag::Nil)
    }

    pub fn tag(&self) -> (r: Tag)
        ensures
            r == self.tag,
    {
        self.tag
    }

    /// The pointer's tag as a field element.
    pub fn tag_field(&self) -> (r: Vec<u8>)
        ensures
            r@ == fe(tag_u64(self.tag)),
    {
        fe_from_u64(self.tag.to_u64())
    }
}

/// A typed pointer to a continuation frame.  A distinct type from `Ptr` so
/// the two tag classes can never be confused.
#[derive(Debug, Copy, Clone, PartialEq, Eq, Hash, Structural)]
pub struct ContPtr {
    pub tag: ContTag,
    pub raw: RawPtr,
}

impl ContPtr {
    pub fn new(tag: ContTag, raw: RawPtr) -> (r: ContPtr)
        ensures
            r == (ContPtr { tag, raw }),
    {
        ContPtr { tag, raw }
    }

    pub fn is_error(&self) -> (r: bool)
        ensures
            r == (self.tag is Error),
    {
        matches!(self.tag, ContTag::Error)
    }

    pub fn tag(&self) -> (r: ContTag)
        ensures
            r == self.tag,
    {
        self.tag
    }

    /// The pointer's tag as a field element.
    pub fn tag_field(&self) -> (r: Vec<u8>)
        ensures
            r@ == fe(cont_tag_u64(self.tag)),
    {
        fe_from_u64(self.tag.to_u64())
    }
}

/// The content-addressed identity of an expression: the tag and the Poseidon
/// digest of the node's transitive content, both as field elements.
#[derive(Debug)]
pub struct ScalarPtr {
    tag: Vec<u8>,
    hash: Vec<u8>,
}

impl View for ScalarPtr {
    type V = (Seq<u8>, Seq<u8>);

    closed spec fn view(&self) -> (Seq<u8>, Seq<u8>) {
        (self.tag@, self.hash@)
    }
}

impl PartialEq for ScalarPtr {
    fn eq(&self, o: &ScalarPtr) -> (r: bool) {
        let t = self.tag == o.tag;
        let h = self.hash == o.hash;
        proof {
            assert(t == (self.tag@ =~= o.tag@));
            assert(h == (self.hash@ =~= o.hash@));
        }
        t && h
    }
}

impl vstd::std_specs::cmp::PartialEqSpecImpl for ScalarPtr {
    open spec fn obeys_eq_spec() -> bool {
        true
    }

    open spec fn eq_spec(&self, o: &ScalarPtr) -> bool {
        self@ == o@
    }
}

impl ScalarPtr {
    pub fn from_parts(tag: Vec<u8>, value: Vec<u8>) -> (r: ScalarPtr)
        ensures
            r@ == (tag@, value@),
    {
        ScalarPtr { tag, hash: value }
    }

    pub fn tag(&self) -> (r: &Vec<u8>)
        ensures
            r@ == self@.0,
    {
        &self.tag
    }

    pub fn value(&self) -> (r: &Vec<u8>)
        ensures
            r@ == self@.1,
    {
        &self.hash
    }

    /// The wire format of a scalar pointer: the tag, then the hash.
    pub fn into_hash_components(self) -> (r: (Vec<u8>, Vec<u8>))
        ensures
            (r.0@, r.1@) == self@,
    {
        (self.tag, self.hash)
    }
}

/// The content-addressed identity of a continuation frame.
#[derive(Debug)]
pub struct ScalarContPtr {
    tag: Vec<u8>,
    hash: Vec<u8>,
}

impl View for ScalarContPtr {
    type V = (Seq<u8>, Seq<u8>);

    closed spec fn view(&self) -> (Seq<u8>, Seq<u8>) {
        (self.tag@, self.hash@)
    }
}

impl PartialEq for ScalarContPtr {
    fn eq(&self, o: &ScalarContPtr) -> (r: bool) {
        let t = self.tag == o.tag;
        let h = self.hash == o.hash;
        proof {
            assert(t == (self.tag@ =~= o.tag@));
            assert(h == (self.hash@ =~= o.hash@));
        }
        t && h
    }
}

impl vstd::std_specs::cmp::PartialEqSpecImpl for ScalarContPtr {
    open spec fn obeys_eq_spec() -> bool {
        true
    }

    open spec fn eq_spec(&self, o: &ScalarContPtr) -> bool {
        self@ == o@
    }
}

impl ScalarContPtr {
    pub fn from_parts(tag: Vec<u8>, value: Vec<u8>) -> (r: ScalarContPtr)
        ensures
            r@ == (tag@, value@),
    {
        ScalarContPtr { tag, hash: value }
    }

    pub fn tag(&self) -> (r: &Vec<u8>)
        ensures
            r@ == self@.0,
    {
        &self.tag
    }

    pub fn value(&self) -> (r: &Vec<u8>)
        ensures
            r@ == self@.1,
    {
        &self.hash
    }

    /// The wire format of a scalar pointer: the tag, then the hash.
    pub fn into_hash_components(self) -> (r: (Vec<u8>, Vec<u8>))
        ensures
            (r.0@, r.1@) == self@,
    {
        (self.tag, self.hash)
    }
}

} // verus!
