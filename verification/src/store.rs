//! The store: the arena that owns every expression node, continuation
//! frame, symbol and string, and maintains the bijection between in-memory
//! nodes and their scalar pointers.
//!
//! Verification strategy: each valid typed pointer denotes a finite tree
//! (`ExprV` / `ContV`), kept in a ghost map alongside the tables.  The
//! store's invariant ties every table entry to its denotation and states
//! that denotation is injective — structurally equal content always shares
//! one pointer.  Hash results are specified as pure functions of the
//! denoted tree, which makes determinism and reverse-map round-trips
//! provable.

use crate::cache::map_extends;
use crate::field::fe_from_u64;
use crate::cache::PoseidonCache;
use crate::expr::Continuation;
use crate::expr::Expression;
use crate::expr::Num;
use crate::expr::Thunk;
use crate::model::cont_digest;
use crate::model::cont_preimage;
use crate::model::cont_scalar;
use crate::model::expr_digest;
use crate::model::expr_scalar;
use crate::model::ContV;
use crate::model::ExprV;
use crate::poseidon::poseidon4_of;
use crate::poseidon::poseidon6_of;
use crate::poseidon::poseidon8_of;
use crate::ptr::ContPtr;
use crate::ptr::Ptr;
use crate::ptr::RawPtr;
use crate::ptr::ScalarContPtr;
use crate::ptr::ScalarPtr;
use crate::strutil::upcase_ascii;
use crate::strutil::upper_seq;
use crate::tables::cache_empty;
use crate::tables::cache_entries;
use crate::tables::rev_empty;
use crate::tables::rev_entries;
use crate::tables::rev_get;
use crate::tables::rev_insert;
use crate::tables::rev_new;
use crate::tables::str_entries;
use crate::tables::str_entries_empty;
use crate::tables::str_entries_has_name;
use crate::tables::str_table_get;
use crate::tables::str_table_intern;
use crate::tables::str_table_new;
use crate::tables::str_table_resolve;
use crate::tables::table_entries;
use crate::tables::table_get;
use crate::tables::table_insert;
use crate::tables::table_len;
use crate::tables::table_new;
use crate::tables::Key8;
use crate::tables::RevMap;
use crate::tables::StrTable;
use crate::tables::Table;
use crate::tags::cont_tag_u64;
use crate::tags::op1_u64;
use crate::tags::op2_u64;
use crate::tags::rel2_u64;
use crate::tags::tag_u64;
use crate::tags::ContTag;
use crate::tags::Op1;
use crate::tags::Op2;
use crate::tags::Rel2;
use crate::tags::Tag;
use vstd::prelude::*;
use vstd::string::StringExecFns;

verus! {

/// A pointer's table key words: its tag value and its raw index.
pub open spec fn enc_e(p: Ptr) -> (u64, u64) {
    (tag_u64(p.tag), p.raw.idx as u64)
}

/// A continuation pointer's table key words.
pub open spec fn enc_k(k: ContPtr) -> (u64, u64) {
    (cont_tag_u64(k.tag), k.raw.idx as u64)
}

proof fn lemma_enc_e_inj(p: Ptr, q: Ptr)
    requires
        enc_e(p) == enc_e(q),
    ensures
        p == q,
{
    assert(p.tag == q.tag) by {
        match p.tag {
            Tag::Nil => assert(q.tag is Nil),
            Tag::Cons => assert(q.tag is Cons),
            Tag::Sym => assert(q.tag is Sym),
            Tag::Fun => assert(q.tag is Fun),
            Tag::Num => assert(q.tag is Num),
            Tag::Thunk => assert(q.tag is Thunk),
            Tag::Str => assert(q.tag is Str),
        }
    }
}

proof fn lemma_enc_k_inj(p: ContPtr, q: ContPtr)
    requires
        enc_k(p) == enc_k(q),
    ensures
        p == q,
{
    assert(p.tag == q.tag) by {
        match p.tag {
            ContTag::Outermost => assert(q.tag is Outermost),
            ContTag::Simple => assert(q.tag is Simple),
            ContTag::Call => assert(q.tag is Call),
            ContTag::Call2 => assert(q.tag is Call2),
            ContTag::Tail => assert(q.tag is Tail),
            ContTag::Error => assert(q.tag is Error),
            ContTag::Lookup => assert(q.tag is Lookup),
            ContTag::Unop => assert(q.tag is Unop),
            ContTag::Binop => assert(q.tag is Binop),
            ContTag::Binop2 => assert(q.tag is Binop2),
            ContTag::Relop => assert(q.tag is Relop),
            ContTag::Relop2 => assert(q.tag is Relop2),
            ContTag::If => assert(q.tag is If),
            ContTag::LetStar => assert(q.tag is LetStar),
            ContTag::LetRecStar => assert(q.tag is LetRecStar),
            ContTag::Dummy => assert(q.tag is Dummy),
            ContTag::Terminal => assert(q.tag is Terminal),
        }
    }
}

/// The canonical upper-case name of nil.
pub open spec fn nil_name() -> Seq<char> {
    "NIL"@
}

/// The canonical upper-case name of the truth symbol.
pub open spec fn t_name() -> Seq<char> {
    "T"@
}

spec fn outermost_name() -> Seq<char> {
    "OUTERMOST"@
}

spec fn error_name() -> Seq<char> {
    "ERROR"@
}

spec fn dummy_name() -> Seq<char> {
    "DUMMY"@
}

spec fn terminal_name() -> Seq<char> {
    "TERMINAL"@
}

spec fn pnil(id: usize) -> Ptr {
    Ptr { tag: Tag::Nil, raw: RawPtr { idx: id } }
}

spec fn psym(id: usize) -> Ptr {
    Ptr { tag: Tag::Sym, raw: RawPtr { idx: id } }
}

spec fn pstr(id: usize) -> Ptr {
    Ptr { tag: Tag::Str, raw: RawPtr { idx: id } }
}

spec fn pcons(i: int) -> Ptr {
    Ptr { tag: Tag::Cons, raw: RawPtr { idx: i as usize } }
}

spec fn pnum(i: int) -> Ptr {
    Ptr { tag: Tag::Num, raw: RawPtr { idx: i as usize } }
}

spec fn pfun(i: int) -> Ptr {
    Ptr { tag: Tag::Fun, raw: RawPtr { idx: i as usize } }
}

spec fn pthunk(i: int) -> Ptr {
    Ptr { tag: Tag::Thunk, raw: RawPtr { idx: i as usize } }
}

spec fn kptr(t: ContTag, i: int) -> ContPtr {
    ContPtr { tag: t, raw: RawPtr { idx: i as usize } }
}

/// An interner's entries carry strictly increasing ids and pairwise
/// distinct strings.
spec fn interner_ok(e: Seq<(usize, Seq<char>)>) -> bool {
    &&& forall|i: int, j: int| #![trigger e[i], e[j]] 0 <= i < j < e.len() ==> e[i].0 < e[j].0
    &&& forall|i: int, j: int| #![trigger e[i], e[j]] 0 <= i < j < e.len() ==> e[i].1 != e[j].1
}

/// The mirror vector lists exactly the interner's ids, in order.
spec fn mirror_ok(e: Seq<(usize, Seq<char>)>, ids: Seq<usize>) -> bool {
    &&& ids.len() == e.len()
    &&& forall|j: int| #![trigger ids[j]] 0 <= j < e.len() ==> ids[j] == e[j].0
}

spec fn id_in(e: Seq<(usize, Seq<char>)>, id: usize) -> bool {
    exists|j: int| 0 <= j < e.len() && (#[trigger] e[j]).0 == id
}

/// Whether the entry for an id carries the given string.
pub open spec fn name_at(e: Seq<(usize, Seq<char>)>, id: usize, name: Seq<char>) -> bool {
    exists|j: int| 0 <= j < e.len() && #[trigger] e[j] == (id, name)
}

/// Whether an id names a valid non-nil symbol.
spec fn sym_id_ok(e: Seq<(usize, Seq<char>)>, id: usize) -> bool {
    exists|j: int| 0 <= j < e.len() && (#[trigger] e[j]).0 == id && e[j].1 != nil_name()
}

/// The denotation a freshly interned symbol gets.
pub open spec fn sym_den_val(name: Seq<char>) -> ExprV {
    if name == nil_name() {
        ExprV::Nil
    } else {
        ExprV::Sym(name)
    }
}

// ---------------------------------------------------------------------
// Table keys: each payload flattened to eight words.
// ---------------------------------------------------------------------
spec fn key_cons(a: Ptr, b: Ptr) -> Key8 {
    (enc_e(a).0, enc_e(a).1, enc_e(b).0, enc_e(b).1, 0, 0, 0, 0)
}

spec fn key_num(n: u64) -> Key8 {
    (n, 0, 0, 0, 0, 0, 0, 0)
}

spec fn key_fun(a: Ptr, b: Ptr, c: Ptr) -> Key8 {
    (enc_e(a).0, enc_e(a).1, enc_e(b).0, enc_e(b).1, enc_e(c).0, enc_e(c).1, 0, 0)
}

spec fn key_e_k(a: Ptr, k: ContPtr) -> Key8 {
    (enc_e(a).0, enc_e(a).1, enc_k(k).0, enc_k(k).1, 0, 0, 0, 0)
}

spec fn key_k(k: ContPtr) -> Key8 {
    (enc_k(k).0, enc_k(k).1, 0, 0, 0, 0, 0, 0)
}

spec fn key_ee_k(a: Ptr, b: Ptr, k: ContPtr) -> Key8 {
    (enc_e(a).0, enc_e(a).1, enc_e(b).0, enc_e(b).1, enc_k(k).0, enc_k(k).1, 0, 0)
}

spec fn key_op_k(op: u64, k: ContPtr) -> Key8 {
    (op, enc_k(k).0, enc_k(k).1, 0, 0, 0, 0, 0)
}

spec fn key_op_e_k(op: u64, a: Ptr, k: ContPtr) -> Key8 {
    (op, enc_e(a).0, enc_e(a).1, enc_k(k).0, enc_k(k).1, 0, 0, 0)
}

spec fn key_op_ee_k(op: u64, a: Ptr, b: Ptr, k: ContPtr) -> Key8 {
    (op, enc_e(a).0, enc_e(a).1, enc_e(b).0, enc_e(b).1, enc_k(k).0, enc_k(k).1, 0)
}

spec fn key_eee_k(a: Ptr, b: Ptr, c: Ptr, k: ContPtr) -> Key8 {
    (
        enc_e(a).0,
        enc_e(a).1,
        enc_e(b).0,
        enc_e(b).1,
        enc_e(c).0,
        enc_e(c).1,
        enc_k(k).0,
        enc_k(k).1,
    )
}

// ---------------------------------------------------------------------
// Per-table invariants, parameterized over the table's entries, the
// decoded payload list, and the denotation maps.
// ---------------------------------------------------------------------
spec fn sym_entry_ok(e: Seq<(usize, Seq<char>)>, nil_id: usize, d: Map<Ptr, ExprV>, j: int) -> bool {
    if e[j].1 == nil_name() {
        &&& e[j].0 == nil_id
        &&& d.contains_key(pnil(e[j].0))
        &&& d[pnil(e[j].0)] == ExprV::Nil
    } else {
        &&& d.contains_key(psym(e[j].0))
        &&& d[psym(e[j].0)] == ExprV::Sym(e[j].1)
    }
}

spec fn sym_den_ok(e: Seq<(usize, Seq<char>)>, nil_id: usize, d: Map<Ptr, ExprV>) -> bool {
    forall|j: int| 0 <= j < e.len() ==> #[trigger] sym_entry_ok(e, nil_id, d, j)
}

spec fn str_entry_ok(e: Seq<(usize, Seq<char>)>, d: Map<Ptr, ExprV>, j: int) -> bool {
    &&& d.contains_key(pstr(e[j].0))
    &&& d[pstr(e[j].0)] == ExprV::Str(e[j].1)
}

spec fn str_den_ok(e: Seq<(usize, Seq<char>)>, d: Map<Ptr, ExprV>) -> bool {
    forall|j: int| 0 <= j < e.len() ==> #[trigger] str_entry_ok(e, d, j)
}

spec fn cons_entry_ok(e: Seq<Key8>, l: Seq<(Ptr, Ptr)>, d: Map<Ptr, ExprV>, j: int) -> bool {
    &&& e[j] == key_cons(l[j].0, l[j].1)
    &&& d.contains_key(l[j].0)
    &&& d.contains_key(l[j].1)
    &&& d.contains_key(pcons(j))
    &&& d[pcons(j)] == ExprV::Cons(Box::new(d[l[j].0]), Box::new(d[l[j].1]))
}

spec fn cons_tab_ok(e: Seq<Key8>, l: Seq<(Ptr, Ptr)>, d: Map<Ptr, ExprV>) -> bool {
    &&& e.len() == l.len()
    &&& forall|j: int| 0 <= j < l.len() ==> #[trigger] cons_entry_ok(e, l, d, j)
}

spec fn num_entry_ok(e: Seq<Key8>, l: Seq<u64>, d: Map<Ptr, ExprV>, j: int) -> bool {
    &&& e[j] == key_num(l[j])
    &&& d.contains_key(pnum(j))
    &&& d[pnum(j)] == ExprV::Num(l[j])
}

spec fn num_tab_ok(e: Seq<Key8>, l: Seq<u64>, d: Map<Ptr, ExprV>) -> bool {
    &&& e.len() == l.len()
    &&& forall|j: int| 0 <= j < l.len() ==> #[trigger] num_entry_ok(e, l, d, j)
}

spec fn fun_entry_ok(e: Seq<Key8>, l: Seq<(Ptr, Ptr, Ptr)>, d: Map<Ptr, ExprV>, j: int) -> bool {
    &&& e[j] == key_fun(l[j].0, l[j].1, l[j].2)
    &&& d.contains_key(l[j].0)
    &&& d.contains_key(l[j].1)
    &&& d.contains_key(l[j].2)
    &&& l[j].0.tag is Sym
    &&& d.contains_key(pfun(j))
    &&& d[pfun(j)] == ExprV::Fun(Box::new(d[l[j].0]), Box::new(d[l[j].1]), Box::new(d[l[j].2]))
}

spec fn fun_tab_ok(e: Seq<Key8>, l: Seq<(Ptr, Ptr, Ptr)>, d: Map<Ptr, ExprV>) -> bool {
    &&& e.len() == l.len()
    &&& forall|j: int| 0 <= j < l.len() ==> #[trigger] fun_entry_ok(e, l, d, j)
}

spec fn thunk_entry_ok(
    e: Seq<Key8>,
    l: Seq<(Ptr, ContPtr)>,
    d: Map<Ptr, ExprV>,
    dk: Map<ContPtr, ContV>,
    j: int,
) -> bool {
    &&& e[j] == key_e_k(l[j].0, l[j].1)
    &&& d.contains_key(l[j].0)
    &&& dk.contains_key(l[j].1)
    &&& d.contains_key(pthunk(j))
    &&& d[pthunk(j)] == ExprV::Thunk(Box::new(d[l[j].0]), Box::new(dk[l[j].1]))
}

spec fn thunk_tab_ok(
    e: Seq<Key8>,
    l: Seq<(Ptr, ContPtr)>,
    d: Map<Ptr, ExprV>,
    dk: Map<ContPtr, ContV>,
) -> bool {
    &&& e.len() == l.len()
    &&& forall|j: int| 0 <= j < l.len() ==> #[trigger] thunk_entry_ok(e, l, d, dk, j)
}

spec fn simple_entry_ok(e: Seq<Key8>, l: Seq<ContPtr>, dk: Map<ContPtr, ContV>, j: int) -> bool {
    &&& e[j] == key_k(l[j])
    &&& dk.contains_key(l[j])
    &&& dk.contains_key(kptr(ContTag::Simple, j))
    &&& dk[kptr(ContTag::Simple, j)] == ContV::Simple(Box::new(dk[l[j]]))
}

spec fn simple_tab_ok(e: Seq<Key8>, l: Seq<ContPtr>, dk: Map<ContPtr, ContV>) -> bool {
    &&& e.len() == l.len()
    &&& forall|j: int| 0 <= j < l.len() ==> #[trigger] simple_entry_ok(e, l, dk, j)
}

spec fn call_entry_ok(
    e: Seq<Key8>,
    l: Seq<(Ptr, Ptr, ContPtr)>,
    d: Map<Ptr, ExprV>,
    dk: Map<ContPtr, ContV>,
    j: int,
) -> bool {
    &&& e[j] == key_ee_k(l[j].0, l[j].1, l[j].2)
    &&& d.contains_key(l[j].0)
    &&& d.contains_key(l[j].1)
    &&& dk.contains_key(l[j].2)
    &&& dk.contains_key(kptr(ContTag::Call, j))
    &&& dk[kptr(ContTag::Call, j)] == ContV::Call(
        Box::new(d[l[j].0]),
        Box::new(d[l[j].1]),
        Box::new(dk[l[j].2]),
    )
}

spec fn call_tab_ok(
    e: Seq<Key8>,
    l: Seq<(Ptr, Ptr, ContPtr)>,
    d: Map<Ptr, ExprV>,
    dk: Map<ContPtr, ContV>,
) -> bool {
    &&& e.len() == l.len()
    &&& forall|j: int| 0 <= j < l.len() ==> #[trigger] call_entry_ok(e, l, d, dk, j)
}

spec fn call2_entry_ok(
    e: Seq<Key8>,
    l: Seq<(Ptr, Ptr, ContPtr)>,
    d: Map<Ptr, ExprV>,
    dk: Map<ContPtr, ContV>,
    j: int,
) -> bool {
    &&& e[j] == key_ee_k(l[j].0, l[j].1, l[j].2)
    &&& d.contains_key(l[j].0)
    &&& d.contains_key(l[j].1)
    &&& dk.contains_key(l[j].2)
    &&& dk.contains_key(kptr(ContTag::Call2, j))
    &&& dk[kptr(ContTag::Call2, j)] == ContV::Call2(
        Box::new(d[l[j].0]),
        Box::new(d[l[j].1]),
        Box::new(dk[l[j].2]),
    )
}

spec fn call2_tab_ok(
    e: Seq<Key8>,
    l: Seq<(Ptr, Ptr, ContPtr)>,
    d: Map<Ptr, ExprV>,
    dk: Map<ContPtr, ContV>,
) -> bool {
    &&& e.len() == l.len()
    &&& forall|j: int| 0 <= j < l.len() ==> #[trigger] call2_entry_ok(e, l, d, dk, j)
}

spec fn tail_entry_ok(
    e: Seq<Key8>,
    l: Seq<(Ptr, ContPtr)>,
    d: Map<Ptr, ExprV>,
    dk: Map<ContPtr, ContV>,
    j: int,
) -> bool {
    &&& e[j] == key_e_k(l[j].0, l[j].1)
    &&& d.contains_key(l[j].0)
    &&& dk.contains_key(l[j].1)
    &&& dk.contains_key(kptr(ContTag::Tail, j))
    &&& dk[kptr(ContTag::Tail, j)] == ContV::Tail(Box::new(d[l[j].0]), Box::new(dk[l[j].1]))
}

spec fn tail_tab_ok(
    e: Seq<Key8>,
    l: Seq<(Ptr, ContPtr)>,
    d: Map<Ptr, ExprV>,
    dk: Map<ContPtr, ContV>,
) -> bool {
    &&& e.len() == l.len()
    &&& forall|j: int| 0 <= j < l.len() ==> #[trigger] tail_entry_ok(e, l, d, dk, j)
}

spec fn lookup_entry_ok(
    e: Seq<Key8>,
    l: Seq<(Ptr, ContPtr)>,
    d: Map<Ptr, ExprV>,
    dk: Map<ContPtr, ContV>,
    j: int,
) -> bool {
    &&& e[j] == key_e_k(l[j].0, l[j].1)
    &&& d.contains_key(l[j].0)
    &&& dk.contains_key(l[j].1)
    &&& dk.contains_key(kptr(ContTag::Lookup, j))
    &&& dk[kptr(ContTag::Lookup, j)] == ContV::Lookup(Box::new(d[l[j].0]), Box::new(dk[l[j].1]))
}

spec fn lookup_tab_ok(
    e: Seq<Key8>,
    l: Seq<(Ptr, ContPtr)>,
    d: Map<Ptr, ExprV>,
    dk: Map<ContPtr, ContV>,
) -> bool {
    &&& e.len() == l.len()
    &&& forall|j: int| 0 <= j < l.len() ==> #[trigger] lookup_entry_ok(e, l, d, dk, j)
}

spec fn unop_entry_ok(e: Seq<Key8>, l: Seq<(Op1, ContPtr)>, dk: Map<ContPtr, ContV>, j: int) -> bool {
    &&& e[j] == key_op_k(op1_u64(l[j].0), l[j].1)
    &&& dk.contains_key(l[j].1)
    &&& dk.contains_key(kptr(ContTag::Unop, j))
    &&& dk[kptr(ContTag::Unop, j)] == ContV::Unop(l[j].0, Box::new(dk[l[j].1]))
}

spec fn unop_tab_ok(e: Seq<Key8>, l: Seq<(Op1, ContPtr)>, dk: Map<ContPtr, ContV>) -> bool {
    &&& e.len() == l.len()
    &&& forall|j: int| 0 <= j < l.len() ==> #[trigger] unop_entry_ok(e, l, dk, j)
}

spec fn binop_entry_ok(
    e: Seq<Key8>,
    l: Seq<(Op2, Ptr, Ptr, ContPtr)>,
    d: Map<Ptr, ExprV>,
    dk: Map<ContPtr, ContV>,
    j: int,
) -> bool {
    &&& e[j] == key_op_ee_k(op2_u64(l[j].0), l[j].1, l[j].2, l[j].3)
    &&& d.contains_key(l[j].1)
    &&& d.contains_key(l[j].2)
    &&& dk.contains_key(l[j].3)
    &&& dk.contains_key(kptr(ContTag::Binop, j))
    &&& dk[kptr(ContTag::Binop, j)] == ContV::Binop(
        l[j].0,
        Box::new(d[l[j].1]),
        Box::new(d[l[j].2]),
        Box::new(dk[l[j].3]),
    )
}

spec fn binop_tab_ok(
    e: Seq<Key8>,
    l: Seq<(Op2, Ptr, Ptr, ContPtr)>,
    d: Map<Ptr, ExprV>,
    dk: Map<ContPtr, ContV>,
) -> bool {
    &&& e.len() == l.len()
    &&& forall|j: int| 0 <= j < l.len() ==> #[trigger] binop_entry_ok(e, l, d, dk, j)
}

spec fn binop2_entry_ok(
    e: Seq<Key8>,
    l: Seq<(Op2, Ptr, ContPtr)>,
    d: Map<Ptr, ExprV>,
    dk: Map<ContPtr, ContV>,
    j: int,
) -> bool {
    &&& e[j] == key_op_e_k(op2_u64(l[j].0), l[j].1, l[j].2)
    &&& d.contains_key(l[j].1)
    &&& dk.contains_key(l[j].2)
    &&& dk.contains_key(kptr(ContTag::Binop2, j))
    &&& dk[kptr(ContTag::Binop2, j)] == ContV::Binop2(
        l[j].0,
        Box::new(d[l[j].1]),
        Box::new(dk[l[j].2]),
    )
}

spec fn binop2_tab_ok(
    e: Seq<Key8>,
    l: Seq<(Op2, Ptr, ContPtr)>,
    d: Map<Ptr, ExprV>,
    dk: Map<ContPtr, ContV>,
) -> bool {
    &&& e.len() == l.len()
    &&& forall|j: int| 0 <= j < l.len() ==> #[trigger] binop2_entry_ok(e, l, d, dk, j)
}

spec fn relop_entry_ok(
    e: Seq<Key8>,
    l: Seq<(Rel2, Ptr, Ptr, ContPtr)>,
    d: Map<Ptr, ExprV>,
    dk: Map<ContPtr, ContV>,
    j: int,
) -> bool {
    &&& e[j] == key_op_ee_k(rel2_u64(l[j].0), l[j].1, l[j].2, l[j].3)
    &&& d.contains_key(l[j].1)
    &&& d.contains_key(l[j].2)
    &&& dk.contains_key(l[j].3)
    &&& dk.contains_key(kptr(ContTag::Relop, j))
    &&& dk[kptr(ContTag::Relop, j)] == ContV::Relop(
        l[j].0,
        Box::new(d[l[j].1]),
        Box::new(d[l[j].2]),
        Box::new(dk[l[j].3]),
    )
}

spec fn relop_tab_ok(
    e: Seq<Key8>,
    l: Seq<(Rel2, Ptr, Ptr, ContPtr)>,
    d: Map<Ptr, ExprV>,
    dk: Map<ContPtr, ContV>,
) -> bool {
    &&& e.len() == l.len()
    &&& forall|j: int| 0 <= j < l.len() ==> #[trigger] relop_entry_ok(e, l, d, dk, j)
}

spec fn relop2_entry_ok(
    e: Seq<Key8>,
    l: Seq<(Rel2, Ptr, ContPtr)>,
    d: Map<Ptr, ExprV>,
    dk: Map<ContPtr, ContV>,
    j: int,
) -> bool {
    &&& e[j] == key_op_e_k(rel2_u64(l[j].0), l[j].1, l[j].2)
    &&& d.contains_key(l[j].1)
    &&& dk.contains_key(l[j].2)
    &&& dk.contains_key(kptr(ContTag::Relop2, j))
    &&& dk[kptr(ContTag::Relop2, j)] == ContV::Relop2(
        l[j].0,
        Box::new(d[l[j].1]),
        Box::new(dk[l[j].2]),
    )
}

spec fn relop2_tab_ok(
    e: Seq<Key8>,
    l: Seq<(Rel2, Ptr, ContPtr)>,
    d: Map<Ptr, ExprV>,
    dk: Map<ContPtr, ContV>,
) -> bool {
    &&& e.len() == l.len()
    &&& forall|j: int| 0 <= j < l.len() ==> #[trigger] relop2_entry_ok(e, l, d, dk, j)
}

spec fn if_entry_ok(
    e: Seq<Key8>,
    l: Seq<(Ptr, ContPtr)>,
    d: Map<Ptr, ExprV>,
    dk: Map<ContPtr, ContV>,
    j: int,
) -> bool {
    &&& e[j] == key_e_k(l[j].0, l[j].1)
    &&& d.contains_key(l[j].0)
    &&& dk.contains_key(l[j].1)
    &&& dk.contains_key(kptr(ContTag::If, j))
    &&& dk[kptr(ContTag::If, j)] == ContV::If(Box::new(d[l[j].0]), Box::new(dk[l[j].1]))
}

spec fn if_tab_ok(
    e: Seq<Key8>,
    l: Seq<(Ptr, ContPtr)>,
    d: Map<Ptr, ExprV>,
    dk: Map<ContPtr, ContV>,
) -> bool {
    &&& e.len() == l.len()
    &&& forall|j: int| 0 <= j < l.len() ==> #[trigger] if_entry_ok(e, l, d, dk, j)
}

spec fn let_star_entry_ok(
    e: Seq<Key8>,
    l: Seq<(Ptr, Ptr, Ptr, ContPtr)>,
    d: Map<Ptr, ExprV>,
    dk: Map<ContPtr, ContV>,
    j: int,
) -> bool {
    &&& e[j] == key_eee_k(l[j].0, l[j].1, l[j].2, l[j].3)
    &&& d.contains_key(l[j].0)
    &&& d.contains_key(l[j].1)
    &&& d.contains_key(l[j].2)
    &&& dk.contains_key(l[j].3)
    &&& dk.contains_key(kptr(ContTag::LetStar, j))
    &&& dk[kptr(ContTag::LetStar, j)] == ContV::LetStar(
        Box::new(d[l[j].0]),
        Box::new(d[l[j].1]),
        Box::new(d[l[j].2]),
        Box::new(dk[l[j].3]),
    )
}

spec fn let_star_tab_ok(
    e: Seq<Key8>,
    l: Seq<(Ptr, Ptr, Ptr, ContPtr)>,
    d: Map<Ptr, ExprV>,
    dk: Map<ContPtr, ContV>,
) -> bool {
    &&& e.len() == l.len()
    &&& forall|j: int| 0 <= j < l.len() ==> #[trigger] let_star_entry_ok(e, l, d, dk, j)
}

spec fn let_rec_star_entry_ok(
    e: Seq<Key8>,
    l: Seq<(Ptr, Ptr, Ptr, ContPtr)>,
    d: Map<Ptr, ExprV>,
    dk: Map<ContPtr, ContV>,
    j: int,
) -> bool {
    &&& e[j] == key_eee_k(l[j].0, l[j].1, l[j].2, l[j].3)
    &&& d.contains_key(l[j].0)
    &&& d.contains_key(l[j].1)
    &&& d.contains_key(l[j].2)
    &&& dk.contains_key(l[j].3)
    &&& dk.contains_key(kptr(ContTag::LetRecStar, j))
    &&& dk[kptr(ContTag::LetRecStar, j)] == ContV::LetRecStar(
        Box::new(d[l[j].0]),
        Box::new(d[l[j].1]),
        Box::new(d[l[j].2]),
        Box::new(dk[l[j].3]),
    )
}

spec fn let_rec_star_tab_ok(
    e: Seq<Key8>,
    l: Seq<(Ptr, Ptr, Ptr, ContPtr)>,
    d: Map<Ptr, ExprV>,
    dk: Map<ContPtr, ContV>,
) -> bool {
    &&& e.len() == l.len()
    &&& forall|j: int| 0 <= j < l.len() ==> #[trigger] let_rec_star_entry_ok(e, l, d, dk, j)
}

/// The abstract state of a store: the denotation of every valid pointer,
/// the interned strings, the reverse scalar maps and the hash caches.
pub struct StoreModel {
    /// Symbol interner entries: id and (upper-cased) name, in insertion
    /// order.
    pub syms: Seq<(usize, Seq<char>)>,
    /// String interner entries.
    pub strs: Seq<(usize, Seq<char>)>,
    /// The tree each valid expression pointer denotes.
    pub exprs: Map<Ptr, ExprV>,
    /// The tree each valid continuation pointer denotes.
    pub conts: Map<ContPtr, ContV>,
    /// The reverse map: a scalar expression pointer's components to the
    /// words of the typed pointer it was created from.
    pub scalar_exprs: Map<(Seq<u8>, Seq<u8>), (u64, u64)>,
    /// The reverse map for continuations.
    pub scalar_conts: Map<(Seq<u8>, Seq<u8>), (u64, u64)>,
    /// The arity-4 Poseidon cache.
    pub cache4: Map<Seq<Seq<u8>>, Seq<u8>>,
    /// The arity-6 Poseidon cache.
    pub cache6: Map<Seq<Seq<u8>>, Seq<u8>>,
    /// The arity-8 Poseidon cache.
    pub cache8: Map<Seq<Seq<u8>>, Seq<u8>>,
}

/// The store.  Interning is single-writer through `&mut self`; tables grow
/// monotonically and slot indices are stable.
pub struct Store {
    pub(crate) cons_store: Table,
    pub(crate) sym_store: StrTable,
    pub(crate) num_store: Table,
    pub(crate) fun_store: Table,
    pub(crate) str_store: StrTable,
    pub(crate) thunk_store: Table,

    pub(crate) simple_store: Table,
    pub(crate) call_store: Table,
    pub(crate) call2_store: Table,
    pub(crate) tail_store: Table,
    pub(crate) lookup_store: Table,
    pub(crate) unop_store: Table,
    pub(crate) binop_store: Table,
    pub(crate) binop2_store: Table,
    pub(crate) relop_store: Table,
    pub(crate) relop2_store: Table,
    pub(crate) if_store: Table,
    pub(crate) let_star_store: Table,
    pub(crate) let_rec_star_store: Table,

    /// Mirror of the symbol interner's ids, for validity checks.
    pub(crate) sym_ids: Vec<usize>,
    /// Mirror of the string interner's ids.
    pub(crate) str_ids: Vec<usize>,
    /// The id of the symbol `NIL`, once interned.
    pub(crate) nil_id: usize,
    pub(crate) outermost_id: usize,
    pub(crate) error_id: usize,
    pub(crate) dummy_id: usize,
    pub(crate) terminal_id: usize,

    /// Reverse lookups: scalar expression pointer to typed pointer.
    pub(crate) scalar_ptr_map: RevMap,
    /// Reverse lookups for continuations.
    pub(crate) scalar_ptr_cont_map: RevMap,

    pub(crate) poseidon_cache: PoseidonCache,

    pub(crate) cons_list: Ghost<Seq<(Ptr, Ptr)>>,
    pub(crate) num_list: Ghost<Seq<u64>>,
    pub(crate) fun_list: Ghost<Seq<(Ptr, Ptr, Ptr)>>,
    pub(crate) thunk_list: Ghost<Seq<(Ptr, ContPtr)>>,
    pub(crate) simple_list: Ghost<Seq<ContPtr>>,
    pub(crate) call_list: Ghost<Seq<(Ptr, Ptr, ContPtr)>>,
    pub(crate) call2_list: Ghost<Seq<(Ptr, Ptr, ContPtr)>>,
    pub(crate) tail_list: Ghost<Seq<(Ptr, ContPtr)>>,
    pub(crate) lookup_list: Ghost<Seq<(Ptr, ContPtr)>>,
    pub(crate) unop_list: Ghost<Seq<(Op1, ContPtr)>>,
    pub(crate) binop_list: Ghost<Seq<(Op2, Ptr, Ptr, ContPtr)>>,
    pub(crate) binop2_list: Ghost<Seq<(Op2, Ptr, ContPtr)>>,
    pub(crate) relop_list: Ghost<Seq<(Rel2, Ptr, Ptr, ContPtr)>>,
    pub(crate) relop2_list: Ghost<Seq<(Rel2, Ptr, ContPtr)>>,
    pub(crate) if_list: Ghost<Seq<(Ptr, ContPtr)>>,
    pub(crate) let_star_list: Ghost<Seq<(Ptr, Ptr, Ptr, ContPtr)>>,
    pub(crate) let_rec_star_list: Ghost<Seq<(Ptr, Ptr, Ptr, ContPtr)>>,

    pub(crate) den_expr: Ghost<Map<Ptr, ExprV>>,
    pub(crate) den_cont: Ghost<Map<ContPtr, ContV>>,
    /// Whether the canonical nullary continuation slots have been fixed.
    pub(crate) anchors_set: Ghost<bool>,
}

impl View for Store {
    type V = StoreModel;

    closed spec fn view(&self) -> StoreModel {
        StoreModel {
            syms: str_entries(self.sym_store),
            strs: str_entries(self.str_store),
            exprs: self.den_expr@,
            conts: self.den_cont@,
            scalar_exprs: rev_entries(self.scalar_ptr_map),
            scalar_conts: rev_entries(self.scalar_ptr_cont_map),
            cache4: cache_entries(self.poseidon_cache.a4),
            cache6: cache_entries(self.poseidon_cache.a6),
            cache8: cache_entries(self.poseidon_cache.a8),
        }
    }
}

impl Store {
    spec fn syms(self) -> Seq<(usize, Seq<char>)> {
        str_entries(self.sym_store)
    }

    spec fn strs(self) -> Seq<(usize, Seq<char>)> {
        str_entries(self.str_store)
    }

    /// Which expression pointers are valid: their raw index names a live
    /// slot of their tag's table.
    spec fn vex(self, p: Ptr) -> bool {
        match p.tag {
            Tag::Nil => p.raw.idx == self.nil_id && name_at(self.syms(), self.nil_id, nil_name()),
            Tag::Sym => sym_id_ok(self.syms(), p.raw.idx),
            Tag::Str => id_in(self.strs(), p.raw.idx),
            Tag::Cons => 0 <= p.raw.idx < self.cons_list@.len(),
            Tag::Num => 0 <= p.raw.idx < self.num_list@.len(),
            Tag::Fun => 0 <= p.raw.idx < self.fun_list@.len(),
            Tag::Thunk => 0 <= p.raw.idx < self.thunk_list@.len(),
        }
    }

    /// Which continuation pointers are valid.
    spec fn vck(self, k: ContPtr) -> bool {
        match k.tag {
            ContTag::Outermost => self.anchors_set@ && k.raw.idx == self.outermost_id,
            ContTag::Error => self.anchors_set@ && k.raw.idx == self.error_id,
            ContTag::Dummy => self.anchors_set@ && k.raw.idx == self.dummy_id,
            ContTag::Terminal => self.anchors_set@ && k.raw.idx == self.terminal_id,
            ContTag::Simple => 0 <= k.raw.idx < self.simple_list@.len(),
            ContTag::Call => 0 <= k.raw.idx < self.call_list@.len(),
            ContTag::Call2 => 0 <= k.raw.idx < self.call2_list@.len(),
            ContTag::Tail => 0 <= k.raw.idx < self.tail_list@.len(),
            ContTag::Lookup => 0 <= k.raw.idx < self.lookup_list@.len(),
            ContTag::Unop => 0 <= k.raw.idx < self.unop_list@.len(),
            ContTag::Binop => 0 <= k.raw.idx < self.binop_list@.len(),
            ContTag::Binop2 => 0 <= k.raw.idx < self.binop2_list@.len(),
            ContTag::Relop => 0 <= k.raw.idx < self.relop_list@.len(),
            ContTag::Relop2 => 0 <= k.raw.idx < self.relop2_list@.len(),
            ContTag::If => 0 <= k.raw.idx < self.if_list@.len(),
            ContTag::LetStar => 0 <= k.raw.idx < self.let_star_list@.len(),
            ContTag::LetRecStar => 0 <= k.raw.idx < self.let_rec_star_list@.len(),
        }
    }

    /// The denotation maps hold exactly the valid pointers.
    spec fn dom_ok(self) -> bool {
        &&& forall|p: Ptr|
            #![trigger self.den_expr@.contains_key(p)]
            #![trigger self.vex(p)]
            self.den_expr@.contains_key(p) <==> self.vex(p)
        &&& forall|k: ContPtr|
            #![trigger self.den_cont@.contains_key(k)]
            #![trigger self.vck(k)]
            self.den_cont@.contains_key(k) <==> self.vck(k)
    }

    /// The nullary continuations denote their own constructors.
    spec fn nullary_cont_ok(self) -> bool {
        &&& self.den_cont@.contains_key(kptr(ContTag::Outermost, self.outermost_id as int))
            ==> self.den_cont@[kptr(ContTag::Outermost, self.outermost_id as int)]
            == ContV::Outermost
        &&& self.den_cont@.contains_key(kptr(ContTag::Error, self.error_id as int))
            ==> self.den_cont@[kptr(ContTag::Error, self.error_id as int)] == ContV::Error
        &&& self.den_cont@.contains_key(kptr(ContTag::Dummy, self.dummy_id as int))
            ==> self.den_cont@[kptr(ContTag::Dummy, self.dummy_id as int)] == ContV::Dummy
        &&& self.den_cont@.contains_key(kptr(ContTag::Terminal, self.terminal_id as int))
            ==> self.den_cont@[kptr(ContTag::Terminal, self.terminal_id as int)] == ContV::Terminal
    }

    /// Denotation is injective: structurally equal content shares one
    /// pointer.
    spec fn inj_expr(self) -> bool {
        forall|p: Ptr, q: Ptr|
            #![trigger self.den_expr@[p], self.den_expr@[q]]
            self.den_expr@.contains_key(p) && self.den_expr@.contains_key(q) && self.den_expr@[p]
                == self.den_expr@[q] ==> p == q
    }

    spec fn inj_cont(self) -> bool {
        forall|p: ContPtr, q: ContPtr|
            #![trigger self.den_cont@[p], self.den_cont@[q]]
            self.den_cont@.contains_key(p) && self.den_cont@.contains_key(q) && self.den_cont@[p]
                == self.den_cont@[q] ==> p == q
    }

    /// Every reverse-map entry was created from a valid pointer and
    /// carries that pointer's scalar.
    spec fn rev_expr_ok(self) -> bool {
        forall|key: (Seq<u8>, Seq<u8>)|
            #![trigger rev_entries(self.scalar_ptr_map).contains_key(key)]
            rev_entries(self.scalar_ptr_map).contains_key(key) ==> exists|p: Ptr|
                self.den_expr@.contains_key(p) && rev_entries(self.scalar_ptr_map)[key] == enc_e(p)
                    && key == crate::model::expr_scalar(self.den_expr@[p])
    }

    spec fn rev_cont_ok(self) -> bool {
        forall|key: (Seq<u8>, Seq<u8>)|
            #![trigger rev_entries(self.scalar_ptr_cont_map).contains_key(key)]
            rev_entries(self.scalar_ptr_cont_map).contains_key(key) ==> exists|p: ContPtr|
                self.den_cont@.contains_key(p) && rev_entries(self.scalar_ptr_cont_map)[key]
                    == enc_k(p) && key == crate::model::cont_scalar(self.den_cont@[p])
    }

    spec fn wf_base(self) -> bool {
        &&& interner_ok(self.syms())
        &&& interner_ok(self.strs())
        &&& mirror_ok(self.syms(), self.sym_ids@)
        &&& mirror_ok(self.strs(), self.str_ids@)
        &&& self.dom_ok()
        &&& sym_den_ok(self.syms(), self.nil_id, self.den_expr@)
        &&& str_den_ok(self.strs(), self.den_expr@)
        &&& cons_tab_ok(table_entries(self.cons_store), self.cons_list@, self.den_expr@)
        &&& num_tab_ok(table_entries(self.num_store), self.num_list@, self.den_expr@)
        &&& fun_tab_ok(table_entries(self.fun_store), self.fun_list@, self.den_expr@)
        &&& thunk_tab_ok(
            table_entries(self.thunk_store),
            self.thunk_list@,
            self.den_expr@,
            self.den_cont@,
        )
        &&& simple_tab_ok(table_entries(self.simple_store), self.simple_list@, self.den_cont@)
        &&& call_tab_ok(
            table_entries(self.call_store),
            self.call_list@,
            self.den_expr@,
            self.den_cont@,
        )
        &&& call2_tab_ok(
            table_entries(self.call2_store),
            self.call2_list@,
            self.den_expr@,
            self.den_cont@,
        )
        &&& tail_tab_ok(
            table_entries(self.tail_store),
            self.tail_list@,
            self.den_expr@,
            self.den_cont@,
        )
        &&& lookup_tab_ok(
            table_entries(self.lookup_store),
            self.lookup_list@,
            self.den_expr@,
            self.den_cont@,
        )
        &&& unop_tab_ok(table_entries(self.unop_store), self.unop_list@, self.den_cont@)
        &&& binop_tab_ok(
            table_entries(self.binop_store),
            self.binop_list@,
            self.den_expr@,
            self.den_cont@,
        )
        &&& binop2_tab_ok(
            table_entries(self.binop2_store),
            self.binop2_list@,
            self.den_expr@,
            self.den_cont@,
        )
        &&& relop_tab_ok(
            table_entries(self.relop_store),
            self.relop_list@,
            self.den_expr@,
            self.den_cont@,
        )
        &&& relop2_tab_ok(
            table_entries(self.relop2_store),
            self.relop2_list@,
            self.den_expr@,
            self.den_cont@,
        )
        &&& if_tab_ok(table_entries(self.if_store), self.if_list@, self.den_expr@, self.den_cont@)
        &&& let_star_tab_ok(
            table_entries(self.let_star_store),
            self.let_star_list@,
            self.den_expr@,
            self.den_cont@,
        )
        &&& let_rec_star_tab_ok(
            table_entries(self.let_rec_star_store),
            self.let_rec_star_list@,
            self.den_expr@,
            self.den_cont@,
        )
        &&& self.nullary_cont_ok()
        &&& self.inj_expr()
        &&& self.inj_cont()
        &&& self.rev_expr_ok()
        &&& self.rev_cont_ok()
        &&& self.poseidon_cache.wf()
    }

    /// The well-known symbols are present and the nullary continuation
    /// slots anchored to them.
    spec fn preloaded(self) -> bool {
        &&& name_at(self.syms(), self.nil_id, nil_name())
        &&& str_entries_has_name(self.syms(), t_name())
        &&& name_at(self.syms(), self.outermost_id, outermost_name())
        &&& name_at(self.syms(), self.error_id, error_name())
        &&& name_at(self.syms(), self.dummy_id, dummy_name())
        &&& name_at(self.syms(), self.terminal_id, terminal_name())
        &&& self.anchors_set@
    }

    /// The store's invariant: tables, denotations, reverse maps and hash
    /// caches agree, and the well-known symbols are preloaded.
    pub closed spec fn wf(self) -> bool {
        self.wf_base() && self.preloaded()
    }

    /// The termination measure of hashing an expression: its tree.
    pub closed spec fn expr_measure(self, p: Ptr) -> ExprV {
        self.den_expr@[p]
    }

    /// The termination measure of hashing a continuation: its tree.
    pub closed spec fn cont_measure(self, k: ContPtr) -> ContV {
        self.den_cont@[k]
    }
}


proof fn lemma_cons_tab_mono(e: Seq<Key8>, l: Seq<(Ptr, Ptr)>, d0: Map<Ptr, ExprV>, d1: Map<Ptr, ExprV>)
    requires
        cons_tab_ok(e, l, d0),
        map_extends(d0, d1),
    ensures
        cons_tab_ok(e, l, d1),
{
    assert forall|j: int| 0 <= j < l.len() implies cons_entry_ok(e, l, d1, j) by {
        assert(cons_entry_ok(e, l, d0, j));
        assert(d0.contains_key(l[j].0));
        assert(d0.contains_key(l[j].1));
        assert(d0.contains_key(pcons(j)));
    }
}

proof fn lemma_num_tab_mono(e: Seq<Key8>, l: Seq<u64>, d0: Map<Ptr, ExprV>, d1: Map<Ptr, ExprV>)
    requires
        num_tab_ok(e, l, d0),
        map_extends(d0, d1),
    ensures
        num_tab_ok(e, l, d1),
{
    assert forall|j: int| 0 <= j < l.len() implies num_entry_ok(e, l, d1, j) by {
        assert(num_entry_ok(e, l, d0, j));
        assert(d0.contains_key(pnum(j)));
    }
}

proof fn lemma_fun_tab_mono(e: Seq<Key8>, l: Seq<(Ptr, Ptr, Ptr)>, d0: Map<Ptr, ExprV>, d1: Map<Ptr, ExprV>)
    requires
        fun_tab_ok(e, l, d0),
        map_extends(d0, d1),
    ensures
        fun_tab_ok(e, l, d1),
{
    assert forall|j: int| 0 <= j < l.len() implies fun_entry_ok(e, l, d1, j) by {
        assert(fun_entry_ok(e, l, d0, j));
        assert(d0.contains_key(l[j].0));
        assert(d0.contains_key(l[j].1));
        assert(d0.contains_key(l[j].2));
        assert(d0.contains_key(pfun(j)));
    }
}

proof fn lemma_thunk_tab_mono(e: Seq<Key8>, l: Seq<(Ptr, ContPtr)>, d0: Map<Ptr, ExprV>, d1: Map<Ptr, ExprV>, dk0: Map<ContPtr, ContV>, dk1: Map<ContPtr, ContV>)
    requires
        thunk_tab_ok(e, l, d0, dk0),
        map_extends(d0, d1),
        map_extends(dk0, dk1),
    ensures
        thunk_tab_ok(e, l, d1, dk1),
{
    assert forall|j: int| 0 <= j < l.len() implies thunk_entry_ok(e, l, d1, dk1, j) by {
        assert(thunk_entry_ok(e, l, d0, dk0, j));
        assert(d0.contains_key(l[j].0));
        assert(dk0.contains_key(l[j].1));
        assert(d0.contains_key(pthunk(j)));
    }
}

proof fn lemma_simple_tab_mono(e: Seq<Key8>, l: Seq<ContPtr>, dk0: Map<ContPtr, ContV>, dk1: Map<ContPtr, ContV>)
    requires
        simple_tab_ok(e, l, dk0),
        map_extends(dk0, dk1),
    ensures
        simple_tab_ok(e, l, dk1),
{
    assert forall|j: int| 0 <= j < l.len() implies simple_entry_ok(e, l, dk1, j) by {
        assert(simple_entry_ok(e, l, dk0, j));
        assert(dk0.contains_key(l[j]));
        assert(dk0.contains_key(kptr(ContTag::Simple, j)));
    }
}

proof fn lemma_call_tab_mono(e: Seq<Key8>, l: Seq<(Ptr, Ptr, ContPtr)>, d0: Map<Ptr, ExprV>, d1: Map<Ptr, ExprV>, dk0: Map<ContPtr, ContV>, dk1: Map<ContPtr, ContV>)
    requires
        call_tab_ok(e, l, d0, dk0),
        map_extends(d0, d1),
        map_extends(dk0, dk1),
    ensures
        call_tab_ok(e, l, d1, dk1),
{
    assert forall|j: int| 0 <= j < l.len() implies call_entry_ok(e, l, d1, dk1, j) by {
        assert(call_entry_ok(e, l, d0, dk0, j));
        assert(d0.contains_key(l[j].0));
        assert(d0.contains_key(l[j].1));
        assert(dk0.contains_key(l[j].2));
        assert(dk0.contains_key(kptr(ContTag::Call, j)));
    }
}

proof fn lemma_call2_tab_mono(e: Seq<Key8>, l: Seq<(Ptr, Ptr, ContPtr)>, d0: Map<Ptr, ExprV>, d1: Map<Ptr, ExprV>, dk0: Map<ContPtr, ContV>, dk1: Map<ContPtr, ContV>)
    requires
        call2_tab_ok(e, l, d0, dk0),
        map_extends(d0, d1),
        map_extends(dk0, dk1),
    ensures
        call2_tab_ok(e, l, d1, dk1),
{
    assert forall|j: int| 0 <= j < l.len() implies call2_entry_ok(e, l, d1, dk1, j) by {
        assert(call2_entry_ok(e, l, d0, dk0, j));
        assert(d0.contains_key(l[j].0));
        assert(d0.contains_key(l[j].1));
        assert(dk0.contains_key(l[j].2));
        assert(dk0.contains_key(kptr(ContTag::Call2, j)));
    }
}

proof fn lemma_tail_tab_mono(e: Seq<Key8>, l: Seq<(Ptr, ContPtr)>, d0: Map<Ptr, ExprV>, d1: Map<Ptr, ExprV>, dk0: Map<ContPtr, ContV>, dk1: Map<ContPtr, ContV>)
    requires
        tail_tab_ok(e, l, d0, dk0),
        map_extends(d0, d1),
        map_extends(dk0, dk1),
    ensures
        tail_tab_ok(e, l, d1, dk1),
{
    assert forall|j: int| 0 <= j < l.len() implies tail_entry_ok(e, l, d1, dk1, j) by {
        assert(tail_entry_ok(e, l, d0, dk0, j));
        assert(d0.contains_key(l[j].0));
        assert(dk0.contains_key(l[j].1));
        assert(dk0.contains_key(kptr(ContTag::Tail, j)));
    }
}

proof fn lemma_lookup_tab_mono(e: Seq<Key8>, l: Seq<(Ptr, ContPtr)>, d0: Map<Ptr, ExprV>, d1: Map<Ptr, ExprV>, dk0: Map<ContPtr, ContV>, dk1: Map<ContPtr, ContV>)
    requires
        lookup_tab_ok(e, l, d0, dk0),
        map_extends(d0, d1),
        map_extends(dk0, dk1),
    ensures
        lookup_tab_ok(e, l, d1, dk1),
{
    assert forall|j: int| 0 <= j < l.len() implies lookup_entry_ok(e, l, d1, dk1, j) by {
        assert(lookup_entry_ok(e, l, d0, dk0, j));
        assert(d0.contains_key(l[j].0));
        assert(dk0.contains_key(l[j].1));
        assert(dk0.contains_key(kptr(ContTag::Lookup, j)));
    }
}

proof fn lemma_unop_tab_mono(e: Seq<Key8>, l: Seq<(Op1, ContPtr)>, dk0: Map<ContPtr, ContV>, dk1: Map<ContPtr, ContV>)
    requires
        unop_tab_ok(e, l, dk0),
        map_extends(dk0, dk1),
    ensures
        unop_tab_ok(e, l, dk1),
{
    assert forall|j: int| 0 <= j < l.len() implies unop_entry_ok(e, l, dk1, j) by {
        assert(unop_entry_ok(e, l, dk0, j));
        assert(dk0.contains_key(l[j].1));
        assert(dk0.contains_key(kptr(ContTag::Unop, j)));
    }
}

proof fn lemma_binop_tab_mono(e: Seq<Key8>, l: Seq<(Op2, Ptr, Ptr, ContPtr)>, d0: Map<Ptr, ExprV>, d1: Map<Ptr, ExprV>, dk0: Map<ContPtr, ContV>, dk1: Map<ContPtr, ContV>)
    requires
        binop_tab_ok(e, l, d0, dk0),
        map_extends(d0, d1),
        map_extends(dk0, dk1),
    ensures
        binop_tab_ok(e, l, d1, dk1),
{
    assert forall|j: int| 0 <= j < l.len() implies binop_entry_ok(e, l, d1, dk1, j) by {
        assert(binop_entry_ok(e, l, d0, dk0, j));
        assert(d0.contains_key(l[j].1));
        assert(d0.contains_key(l[j].2));
        assert(dk0.contains_key(l[j].3));
        assert(dk0.contains_key(kptr(ContTag::Binop, j)));
    }
}

proof fn lemma_binop2_tab_mono(e: Seq<Key8>, l: Seq<(Op2, Ptr, ContPtr)>, d0: Map<Ptr, ExprV>, d1: Map<Ptr, ExprV>, dk0: Map<ContPtr, ContV>, dk1: Map<ContPtr, ContV>)
    requires
        binop2_tab_ok(e, l, d0, dk0),
        map_extends(d0, d1),
        map_extends(dk0, dk1),
    ensures
        binop2_tab_ok(e, l, d1, dk1),
{
    assert forall|j: int| 0 <= j < l.len() implies binop2_entry_ok(e, l, d1, dk1, j) by {
        assert(binop2_entry_ok(e, l, d0, dk0, j));
        assert(d0.contains_key(l[j].1));
        assert(dk0.contains_key(l[j].2));
        assert(dk0.contains_key(kptr(ContTag::Binop2, j)));
    }
}

proof fn lemma_relop_tab_mono(e: Seq<Key8>, l: Seq<(Rel2, Ptr, Ptr, ContPtr)>, d0: Map<Ptr, ExprV>, d1: Map<Ptr, ExprV>, dk0: Map<ContPtr, ContV>, dk1: Map<ContPtr, ContV>)
    requires
        relop_tab_ok(e, l, d0, dk0),
        map_extends(d0, d1),
        map_extends(dk0, dk1),
    ensures
        relop_tab_ok(e, l, d1, dk1),
{
    assert forall|j: int| 0 <= j < l.len() implies relop_entry_ok(e, l, d1, dk1, j) by {
        assert(relop_entry_ok(e, l, d0, dk0, j));
        assert(d0.contains_key(l[j].1));
        assert(d0.contains_key(l[j].2));
        assert(dk0.contains_key(l[j].3));
        assert(dk0.contains_key(kptr(ContTag::Relop, j)));
    }
}

proof fn lemma_relop2_tab_mono(e: Seq<Key8>, l: Seq<(Rel2, Ptr, ContPtr)>, d0: Map<Ptr, ExprV>, d1: Map<Ptr, ExprV>, dk0: Map<ContPtr, ContV>, dk1: Map<ContPtr, ContV>)
    requires
        relop2_tab_ok(e, l, d0, dk0),
        map_extends(d0, d1),
        map_extends(dk0, dk1),
    ensures
        relop2_tab_ok(e, l, d1, dk1),
{
    assert forall|j: int| 0 <= j < l.len() implies relop2_entry_ok(e, l, d1, dk1, j) by {
        assert(relop2_entry_ok(e, l, d0, dk0, j));
        assert(d0.contains_key(l[j].1));
        assert(dk0.contains_key(l[j].2));
        assert(dk0.contains_key(kptr(ContTag::Relop2, j)));
    }
}

proof fn lemma_if_tab_mono(e: Seq<Key8>, l: Seq<(Ptr, ContPtr)>, d0: Map<Ptr, ExprV>, d1: Map<Ptr, ExprV>, dk0: Map<ContPtr, ContV>, dk1: Map<ContPtr, ContV>)
    requires
        if_tab_ok(e, l, d0, dk0),
        map_extends(d0, d1),
        map_extends(dk0, dk1),
    ensures
        if_tab_ok(e, l, d1, dk1),
{
    assert forall|j: int| 0 <= j < l.len() implies if_entry_ok(e, l, d1, dk1, j) by {
        assert(if_entry_ok(e, l, d0, dk0, j));
        assert(d0.contains_key(l[j].0));
        assert(dk0.contains_key(l[j].1));
        assert(dk0.contains_key(kptr(ContTag::If, j)));
    }
}

proof fn lemma_let_star_tab_mono(e: Seq<Key8>, l: Seq<(Ptr, Ptr, Ptr, ContPtr)>, d0: Map<Ptr, ExprV>, d1: Map<Ptr, ExprV>, dk0: Map<ContPtr, ContV>, dk1: Map<ContPtr, ContV>)
    requires
        let_star_tab_ok(e, l, d0, dk0),
        map_extends(d0, d1),
        map_extends(dk0, dk1),
    ensures
        let_star_tab_ok(e, l, d1, dk1),
{
    assert forall|j: int| 0 <= j < l.len() implies let_star_entry_ok(e, l, d1, dk1, j) by {
        assert(let_star_entry_ok(e, l, d0, dk0, j));
        assert(d0.contains_key(l[j].0));
        assert(d0.contains_key(l[j].1));
        assert(d0.contains_key(l[j].2));
        assert(dk0.contains_key(l[j].3));
        assert(dk0.contains_key(kptr(ContTag::LetStar, j)));
    }
}

proof fn lemma_let_rec_star_tab_mono(e: Seq<Key8>, l: Seq<(Ptr, Ptr, Ptr, ContPtr)>, d0: Map<Ptr, ExprV>, d1: Map<Ptr, ExprV>, dk0: Map<ContPtr, ContV>, dk1: Map<ContPtr, ContV>)
    requires
        let_rec_star_tab_ok(e, l, d0, dk0),
        map_extends(d0, d1),
        map_extends(dk0, dk1),
    ensures
        let_rec_star_tab_ok(e, l, d1, dk1),
{
    assert forall|j: int| 0 <= j < l.len() implies let_rec_star_entry_ok(e, l, d1, dk1, j) by {
        assert(let_rec_star_entry_ok(e, l, d0, dk0, j));
        assert(d0.contains_key(l[j].0));
        assert(d0.contains_key(l[j].1));
        assert(d0.contains_key(l[j].2));
        assert(dk0.contains_key(l[j].3));
        assert(dk0.contains_key(kptr(ContTag::LetRecStar, j)));
    }
}

proof fn lemma_sym_den_mono(e: Seq<(usize, Seq<char>)>, nil_id: usize, d0: Map<Ptr, ExprV>, d1: Map<Ptr, ExprV>)
    requires
        sym_den_ok(e, nil_id, d0),
        map_extends(d0, d1),
    ensures
        sym_den_ok(e, nil_id, d1),
{
    assert forall|j: int| 0 <= j < e.len() implies sym_entry_ok(e, nil_id, d1, j) by {
        assert(sym_entry_ok(e, nil_id, d0, j));
        if e[j].1 == nil_name() {
            assert(d0.contains_key(pnil(e[j].0)));
        } else {
            assert(d0.contains_key(psym(e[j].0)));
        }
    }
}

proof fn lemma_str_den_mono(e: Seq<(usize, Seq<char>)>, d0: Map<Ptr, ExprV>, d1: Map<Ptr, ExprV>)
    requires
        str_den_ok(e, d0),
        map_extends(d0, d1),
    ensures
        str_den_ok(e, d1),
{
    assert forall|j: int| 0 <= j < e.len() implies str_entry_ok(e, d1, j) by {
        assert(str_entry_ok(e, d0, j));
        assert(d0.contains_key(pstr(e[j].0)));
    }
}


impl Store {
    /// A valid pointer's denotation carries the pointer's tag.
    proof fn lemma_tag_agree_expr(self, q: Ptr)
        requires
            self.wf_base(),
            self.vex(q),
        ensures
            self.den_expr@.contains_key(q),
            crate::model::exprv_tag(self.den_expr@[q]) == q.tag,
    {
        assert(self.den_expr@.contains_key(q));
        match q.tag {
            Tag::Nil => {
                let e = self.syms();
                let j = choose|j: int|
                    0 <= j < e.len() && #[trigger] e[j] == (self.nil_id, nil_name());
                assert(sym_entry_ok(e, self.nil_id, self.den_expr@, j));
                assert(q == pnil(self.nil_id));
            },
            Tag::Sym => {
                let e = self.syms();
                let j = choose|j: int|
                    0 <= j < e.len() && (#[trigger] e[j]).0 == q.raw.idx && e[j].1 != nil_name();
                assert(sym_entry_ok(e, self.nil_id, self.den_expr@, j));
                assert(q == psym(q.raw.idx));
            },
            Tag::Str => {
                let e = self.strs();
                let j = choose|j: int| 0 <= j < e.len() && (#[trigger] e[j]).0 == q.raw.idx;
                assert(str_entry_ok(e, self.den_expr@, j));
                assert(q == pstr(q.raw.idx));
            },
            Tag::Cons => {
                assert(cons_entry_ok(
                    table_entries(self.cons_store),
                    self.cons_list@,
                    self.den_expr@,
                    q.raw.idx as int,
                ));
                assert(q == pcons(q.raw.idx as int));
            },
            Tag::Num => {
                assert(num_entry_ok(
                    table_entries(self.num_store),
                    self.num_list@,
                    self.den_expr@,
                    q.raw.idx as int,
                ));
                assert(q == pnum(q.raw.idx as int));
            },
            Tag::Fun => {
                assert(fun_entry_ok(
                    table_entries(self.fun_store),
                    self.fun_list@,
                    self.den_expr@,
                    q.raw.idx as int,
                ));
                assert(q == pfun(q.raw.idx as int));
            },
            Tag::Thunk => {
                assert(thunk_entry_ok(
                    table_entries(self.thunk_store),
                    self.thunk_list@,
                    self.den_expr@,
                    self.den_cont@,
                    q.raw.idx as int,
                ));
                assert(q == pthunk(q.raw.idx as int));
            },
        }
    }

    /// A valid continuation pointer's denotation carries the pointer's tag.
    proof fn lemma_tag_agree_cont(self, q: ContPtr)
        requires
            self.wf_base(),
            self.vck(q),
        ensures
            self.den_cont@.contains_key(q),
            crate::model::contv_tag(self.den_cont@[q]) == q.tag,
    {
        assert(self.den_cont@.contains_key(q));
        match q.tag {
            ContTag::Outermost => {
                assert(q == kptr(ContTag::Outermost, self.outermost_id as int));
            },
            ContTag::Error => {
                assert(q == kptr(ContTag::Error, self.error_id as int));
            },
            ContTag::Dummy => {
                assert(q == kptr(ContTag::Dummy, self.dummy_id as int));
            },
            ContTag::Terminal => {
                assert(q == kptr(ContTag::Terminal, self.terminal_id as int));
            },
            ContTag::Simple => {
                assert(simple_entry_ok(
                    table_entries(self.simple_store),
                    self.simple_list@,
                    self.den_cont@,
                    q.raw.idx as int,
                ));
                assert(q == kptr(ContTag::Simple, q.raw.idx as int));
            },
            ContTag::Call => {
                assert(call_entry_ok(
                    table_entries(self.call_store),
                    self.call_list@,
                    self.den_expr@,
                    self.den_cont@,
                    q.raw.idx as int,
                ));
                assert(q == kptr(ContTag::Call, q.raw.idx as int));
            },
            ContTag::Call2 => {
                assert(call2_entry_ok(
                    table_entries(self.call2_store),
                    self.call2_list@,
                    self.den_expr@,
                    self.den_cont@,
                    q.raw.idx as int,
                ));
                assert(q == kptr(ContTag::Call2, q.raw.idx as int));
            },
            ContTag::Tail => {
                assert(tail_entry_ok(
                    table_entries(self.tail_store),
                    self.tail_list@,
                    self.den_expr@,
                    self.den_cont@,
                    q.raw.idx as int,
                ));
                assert(q == kptr(ContTag::Tail, q.raw.idx as int));
            },
            ContTag::Lookup => {
                assert(lookup_entry_ok(
                    table_entries(self.lookup_store),
                    self.lookup_list@,
                    self.den_expr@,
                    self.den_cont@,
                    q.raw.idx as int,
                ));
                assert(q == kptr(ContTag::Lookup, q.raw.idx as int));
            },
            ContTag::Unop => {
                assert(unop_entry_ok(
                    table_entries(self.unop_store),
                    self.unop_list@,
                    self.den_cont@,
                    q.raw.idx as int,
                ));
                assert(q == kptr(ContTag::Unop, q.raw.idx as int));
            },
            ContTag::Binop => {
                assert(binop_entry_ok(
                    table_entries(self.binop_store),
                    self.binop_list@,
                    self.den_expr@,
                    self.den_cont@,
                    q.raw.idx as int,
                ));
                assert(q == kptr(ContTag::Binop, q.raw.idx as int));
            },
            ContTag::Binop2 => {
                assert(binop2_entry_ok(
                    table_entries(self.binop2_store),
                    self.binop2_list@,
                    self.den_expr@,
                    self.den_cont@,
                    q.raw.idx as int,
                ));
                assert(q == kptr(ContTag::Binop2, q.raw.idx as int));
            },
            ContTag::Relop => {
                assert(relop_entry_ok(
                    table_entries(self.relop_store),
                    self.relop_list@,
                    self.den_expr@,
                    self.den_cont@,
                    q.raw.idx as int,
                ));
                assert(q == kptr(ContTag::Relop, q.raw.idx as int));
            },
            ContTag::Relop2 => {
                assert(relop2_entry_ok(
                    table_entries(self.relop2_store),
                    self.relop2_list@,
                    self.den_expr@,
                    self.den_cont@,
                    q.raw.idx as int,
                ));
                assert(q == kptr(ContTag::Relop2, q.raw.idx as int));
            },
            ContTag::If => {
                assert(if_entry_ok(
                    table_entries(self.if_store),
                    self.if_list@,
                    self.den_expr@,
                    self.den_cont@,
                    q.raw.idx as int,
                ));
                assert(q == kptr(ContTag::If, q.raw.idx as int));
            },
            ContTag::LetStar => {
                assert(let_star_entry_ok(
                    table_entries(self.let_star_store),
                    self.let_star_list@,
                    self.den_expr@,
                    self.den_cont@,
                    q.raw.idx as int,
                ));
                assert(q == kptr(ContTag::LetStar, q.raw.idx as int));
            },
            ContTag::LetRecStar => {
                assert(let_rec_star_entry_ok(
                    table_entries(self.let_rec_star_store),
                    self.let_rec_star_list@,
                    self.den_expr@,
                    self.den_cont@,
                    q.raw.idx as int,
                ));
                assert(q == kptr(ContTag::LetRecStar, q.raw.idx as int));
            },
        }
    }
}

/// After extending the expression denotation with one fresh pointer whose
/// tree is new, the domain law, injectivity and the reverse maps hold
/// again, and old denotations are untouched.
proof fn lemma_den_insert_expr(s0: Store, s1: Store, r: Ptr, v: ExprV)
    requires
        s0.wf_base(),
        !s0.vex(r),
        s1.den_expr@ == s0.den_expr@.insert(r, v),
        s1.den_cont@ == s0.den_cont@,
        forall|p: Ptr| #![trigger s1.vex(p)] #![trigger s0.vex(p)]
            s1.vex(p) <==> (s0.vex(p) || p == r),
        forall|k: ContPtr| #![trigger s1.vck(k)] #![trigger s0.vck(k)] s1.vck(k) <==> s0.vck(k),
        forall|q: Ptr| #![trigger s0.den_expr@[q]]
            s0.den_expr@.contains_key(q) ==> s0.den_expr@[q] != v,
        rev_entries(s1.scalar_ptr_map) == rev_entries(s0.scalar_ptr_map),
        rev_entries(s1.scalar_ptr_cont_map) == rev_entries(s0.scalar_ptr_cont_map),
    ensures
        s1.dom_ok(),
        s1.inj_expr(),
        s1.inj_cont(),
        s1.rev_expr_ok(),
        s1.rev_cont_ok(),
        map_extends(s0.den_expr@, s1.den_expr@),
        map_extends(s0.den_cont@, s1.den_cont@),
        s1.den_expr@.contains_key(r),
        s1.den_expr@[r] == v,
{
    assert(!s0.den_expr@.contains_key(r));
    assert forall|q: Ptr| s0.den_expr@.contains_key(q) implies s1.den_expr@.contains_key(q)
        && s1.den_expr@[q] == s0.den_expr@[q] by {
        assert(q != r);
    }
    assert forall|p: Ptr| s1.den_expr@.contains_key(p) == s1.vex(p) by {
        if p == r {
        } else {
            assert(s1.den_expr@.contains_key(p) == s0.den_expr@.contains_key(p));
        }
    }
    assert forall|k: ContPtr| s1.den_cont@.contains_key(k) == s1.vck(k) by {
        assert(s1.den_cont@.contains_key(k) == s0.den_cont@.contains_key(k));
    }
    assert forall|p: Ptr, q: Ptr|
        s1.den_expr@.contains_key(p) && s1.den_expr@.contains_key(q) && s1.den_expr@[p]
            == s1.den_expr@[q] implies p == q by {
        if p == r && q == r {
        } else if p == r {
            assert(s0.den_expr@.contains_key(q));
            assert(s1.den_expr@[q] == s0.den_expr@[q]);
            assert(s0.den_expr@[q] != v);
        } else if q == r {
            assert(s0.den_expr@.contains_key(p));
            assert(s1.den_expr@[p] == s0.den_expr@[p]);
            assert(s0.den_expr@[p] != v);
        } else {
            assert(s0.den_expr@[p] == s1.den_expr@[p]);
            assert(s0.den_expr@[q] == s1.den_expr@[q]);
        }
    }
    assert forall|p: ContPtr, q: ContPtr|
        s1.den_cont@.contains_key(p) && s1.den_cont@.contains_key(q) && s1.den_cont@[p]
            == s1.den_cont@[q] implies p == q by {
        assert(s0.den_cont@[p] == s1.den_cont@[p]);
        assert(s0.den_cont@[q] == s1.den_cont@[q]);
    }
    assert forall|key: (Seq<u8>, Seq<u8>)|
        rev_entries(s1.scalar_ptr_map).contains_key(key) implies exists|p: Ptr|
        s1.den_expr@.contains_key(p) && rev_entries(s1.scalar_ptr_map)[key] == enc_e(p) && key
            == crate::model::expr_scalar(s1.den_expr@[p]) by {
        assert(rev_entries(s0.scalar_ptr_map).contains_key(key));
        let p = choose|p: Ptr|
            s0.den_expr@.contains_key(p) && rev_entries(s0.scalar_ptr_map)[key] == enc_e(p) && key
                == crate::model::expr_scalar(s0.den_expr@[p]);
        assert(s1.den_expr@.contains_key(p) && rev_entries(s1.scalar_ptr_map)[key] == enc_e(p)
            && key == crate::model::expr_scalar(s1.den_expr@[p]));
    }
    assert forall|key: (Seq<u8>, Seq<u8>)|
        rev_entries(s1.scalar_ptr_cont_map).contains_key(key) implies exists|p: ContPtr|
        s1.den_cont@.contains_key(p) && rev_entries(s1.scalar_ptr_cont_map)[key] == enc_k(p) && key
            == crate::model::cont_scalar(s1.den_cont@[p]) by {
        assert(rev_entries(s0.scalar_ptr_cont_map).contains_key(key));
        let p = choose|p: ContPtr|
            s0.den_cont@.contains_key(p) && rev_entries(s0.scalar_ptr_cont_map)[key] == enc_k(p)
                && key == crate::model::cont_scalar(s0.den_cont@[p]);
        assert(s1.den_cont@.contains_key(p) && rev_entries(s1.scalar_ptr_cont_map)[key] == enc_k(p)
            && key == crate::model::cont_scalar(s1.den_cont@[p]));
    }
}

/// The continuation analogue of `lemma_den_insert_expr`.
proof fn lemma_den_insert_cont(s0: Store, s1: Store, r: ContPtr, v: ContV)
    requires
        s0.wf_base(),
        !s0.vck(r),
        s1.den_cont@ == s0.den_cont@.insert(r, v),
        s1.den_expr@ == s0.den_expr@,
        forall|p: Ptr| #![trigger s1.vex(p)] #![trigger s0.vex(p)] s1.vex(p) <==> s0.vex(p),
        forall|k: ContPtr| #![trigger s1.vck(k)] #![trigger s0.vck(k)]
            s1.vck(k) <==> (s0.vck(k) || k == r),
        forall|q: ContPtr| #![trigger s0.den_cont@[q]]
            s0.den_cont@.contains_key(q) ==> s0.den_cont@[q] != v,
        rev_entries(s1.scalar_ptr_map) == rev_entries(s0.scalar_ptr_map),
        rev_entries(s1.scalar_ptr_cont_map) == rev_entries(s0.scalar_ptr_cont_map),
    ensures
        s1.dom_ok(),
        s1.inj_expr(),
        s1.inj_cont(),
        s1.rev_expr_ok(),
        s1.rev_cont_ok(),
        map_extends(s0.den_expr@, s1.den_expr@),
        map_extends(s0.den_cont@, s1.den_cont@),
        s1.den_cont@.contains_key(r),
        s1.den_cont@[r] == v,
{
    assert(!s0.den_cont@.contains_key(r));
    assert forall|q: ContPtr| s0.den_cont@.contains_key(q) implies s1.den_cont@.contains_key(q)
        && s1.den_cont@[q] == s0.den_cont@[q] by {
        assert(q != r);
    }
    assert forall|p: Ptr| s1.den_expr@.contains_key(p) == s1.vex(p) by {
        assert(s1.den_expr@.contains_key(p) == s0.den_expr@.contains_key(p));
    }
    assert forall|k: ContPtr| s1.den_cont@.contains_key(k) == s1.vck(k) by {
        if k == r {
        } else {
            assert(s1.den_cont@.contains_key(k) == s0.den_cont@.contains_key(k));
        }
    }
    assert forall|p: Ptr, q: Ptr|
        s1.den_expr@.contains_key(p) && s1.den_expr@.contains_key(q) && s1.den_expr@[p]
            == s1.den_expr@[q] implies p == q by {
        assert(s0.den_expr@[p] == s1.den_expr@[p]);
        assert(s0.den_expr@[q] == s1.den_expr@[q]);
    }
    assert forall|p: ContPtr, q: ContPtr|
        s1.den_cont@.contains_key(p) && s1.den_cont@.contains_key(q) && s1.den_cont@[p]
            == s1.den_cont@[q] implies p == q by {
        if p == r && q == r {
        } else if p == r {
            assert(s0.den_cont@.contains_key(q));
            assert(s1.den_cont@[q] == s0.den_cont@[q]);
            assert(s0.den_cont@[q] != v);
        } else if q == r {
            assert(s0.den_cont@.contains_key(p));
            assert(s1.den_cont@[p] == s0.den_cont@[p]);
            assert(s0.den_cont@[p] != v);
        } else {
            assert(s0.den_cont@[p] == s1.den_cont@[p]);
            assert(s0.den_cont@[q] == s1.den_cont@[q]);
        }
    }
    assert forall|key: (Seq<u8>, Seq<u8>)|
        rev_entries(s1.scalar_ptr_map).contains_key(key) implies exists|p: Ptr|
        s1.den_expr@.contains_key(p) && rev_entries(s1.scalar_ptr_map)[key] == enc_e(p) && key
            == crate::model::expr_scalar(s1.den_expr@[p]) by {
        assert(rev_entries(s0.scalar_ptr_map).contains_key(key));
        let p = choose|p: Ptr|
            s0.den_expr@.contains_key(p) && rev_entries(s0.scalar_ptr_map)[key] == enc_e(p) && key
                == crate::model::expr_scalar(s0.den_expr@[p]);
        assert(s1.den_expr@.contains_key(p) && rev_entries(s1.scalar_ptr_map)[key] == enc_e(p)
            && key == crate::model::expr_scalar(s1.den_expr@[p]));
    }
    assert forall|key: (Seq<u8>, Seq<u8>)|
        rev_entries(s1.scalar_ptr_cont_map).contains_key(key) implies exists|p: ContPtr|
        s1.den_cont@.contains_key(p) && rev_entries(s1.scalar_ptr_cont_map)[key] == enc_k(p) && key
            == crate::model::cont_scalar(s1.den_cont@[p]) by {
        assert(rev_entries(s0.scalar_ptr_cont_map).contains_key(key));
        let p = choose|p: ContPtr|
            s0.den_cont@.contains_key(p) && rev_entries(s0.scalar_ptr_cont_map)[key] == enc_k(p)
                && key == crate::model::cont_scalar(s0.den_cont@[p]);
        assert(s1.den_cont@.contains_key(p) && rev_entries(s1.scalar_ptr_cont_map)[key] == enc_k(p)
            && key == crate::model::cont_scalar(s1.den_cont@[p]));
    }
}


impl Store {
    /// Interns a symbol name exactly as given.  The name `NIL` yields the
    /// sole nil-tagged pointer; every other name yields a symbol pointer.
    fn intern_sym_impl(&mut self, name: &str) -> (r: Ptr)
        requires
            old(self).wf_base(),
        ensures
            final(self).wf_base(),
            r.tag == (if name@ == nil_name() { Tag::Nil } else { Tag::Sym }),
            final(self).den_expr@ == old(self).den_expr@.insert(r, sym_den_val(name@)),
            map_extends(old(self).den_expr@, final(self).den_expr@),
            final(self).den_expr@.contains_key(r),
            final(self).den_expr@[r] == sym_den_val(name@),
            final(self).syms() == old(self).syms() || final(self).syms() == old(self).syms().push(
                (r.raw.idx, name@),
            ),
            str_entries_has_name(old(self).syms(), name@) ==> final(self).syms() == old(
                self,
            ).syms(),
            !str_entries_has_name(old(self).syms(), name@) ==> final(self).syms() == old(
                self,
            ).syms().push((r.raw.idx, name@)),
            name_at(final(self).syms(), r.raw.idx, name@),
            forall|id: usize, nm: Seq<char>|
                name_at(old(self).syms(), id, nm) ==> name_at(final(self).syms(), id, nm),
            final(self).strs() == old(self).strs(),
            final(self).den_cont@ == old(self).den_cont@,
            final(self).anchors_set@ == old(self).anchors_set@,
            final(self).outermost_id == old(self).outermost_id,
            final(self).error_id == old(self).error_id,
            final(self).dummy_id == old(self).dummy_id,
            final(self).terminal_id == old(self).terminal_id,
            name@ == nil_name() ==> final(self).nil_id == r.raw.idx,
            name@ != nil_name() ==> final(self).nil_id == old(self).nil_id,
            rev_entries(final(self).scalar_ptr_map) == rev_entries(old(self).scalar_ptr_map),
            rev_entries(final(self).scalar_ptr_cont_map) == rev_entries(
                old(self).scalar_ptr_cont_map,
            ),
            cache_entries(final(self).poseidon_cache.a4) == cache_entries(
                old(self).poseidon_cache.a4,
            ),
            cache_entries(final(self).poseidon_cache.a6) == cache_entries(
                old(self).poseidon_cache.a6,
            ),
            cache_entries(final(self).poseidon_cache.a8) == cache_entries(
                old(self).poseidon_cache.a8,
            ),
    {
        let ghost s0 = *self;
        let nil_lit = String::from_str("NIL");
        let name_owned = String::from_str(name);
        let is_nil = name_owned == nil_lit;
        let got = str_table_get(&self.sym_store, name);
        match got {
            Some(id) => {
                let tag = if is_nil {
                    Tag::Nil
                } else {
                    Tag::Sym
                };
                let r = Ptr::new(tag, RawPtr::new(id));
                proof {
                    let e = s0.syms();
                    assert(e.contains((id, name@)));
                    let j = choose|j: int| 0 <= j < e.len() && #[trigger] e[j] == (id, name@);
                    assert(sym_entry_ok(e, s0.nil_id, s0.den_expr@, j));
                    if is_nil {
                        assert(e[j].1 == nil_name());
                        assert(id == s0.nil_id);
                        assert(name_at(e, s0.nil_id, nil_name()));
                        assert(s0.vex(r));
                    } else {
                        assert(sym_id_ok(e, id));
                        assert(s0.vex(r));
                    }
                    assert(s0.den_expr@.contains_key(r));
                    assert(s0.den_expr@[r] == sym_den_val(name@));
                    assert(self.den_expr@ =~= s0.den_expr@.insert(r, sym_den_val(name@)));
                    assert(map_extends(s0.den_expr@, self.den_expr@));
                    assert(str_entries_has_name(e, name@));
                    assert(name_at(self.syms(), r.raw.idx, name@));
                    assert forall|id2: usize, nm: Seq<char>| name_at(s0.syms(), id2, nm)
                        implies name_at(self.syms(), id2, nm) by {}
                }
                r
            },
            None => {
                let id = str_table_intern(&mut self.sym_store, name);
                self.sym_ids.push(id);
                let tag = if is_nil {
                    Tag::Nil
                } else {
                    Tag::Sym
                };
                if is_nil {
                    self.nil_id = id;
                }
                let r = Ptr::new(tag, RawPtr::new(id));
                self.den_expr = Ghost(self.den_expr@.insert(r, sym_den_val(name@)));
                proof {
                    let e0 = s0.syms();
                    let e1 = self.syms();
                    let v = sym_den_val(name@);
                    assert(e1 == e0.push((id, name@)));
                    assert(e1[e0.len() as int] == (id, name@));
                    assert forall|j: int| 0 <= j < e0.len() implies e1[j] == e0[j] by {}
                    // the fresh id exceeds every earlier id, and the name is new
                    assert forall|i: int| 0 <= i < e0.len() implies e0[i].0 < id && e0[i].1
                        != name@ by {
                        if e0[i].1 == name@ {
                            assert(str_entries_has_name(e0, name@));
                        }
                    }
                    assert forall|i: int, j: int|
                        #![trigger e1[i], e1[j]]
                        0 <= i < j < e1.len() implies e1[i].0 < e1[j].0 && e1[i].1 != e1[j].1 by {
                        if j < e0.len() {
                            assert(e1[i] == e0[i] && e1[j] == e0[j]);
                        } else {
                            assert(e1[i] == e0[i]);
                        }
                    }
                    assert(interner_ok(e1));
                    assert(mirror_ok(e1, self.sym_ids@)) by {
                        assert(self.sym_ids@ == s0.sym_ids@.push(id));
                        assert forall|j: int| 0 <= j < e1.len() implies self.sym_ids@[j]
                            == e1[j].0 by {
                            if j < e0.len() {
                                assert(s0.sym_ids@[j] == e0[j].0);
                            }
                        }
                    }
                    // the new pointer was not valid before
                    if is_nil {
                        assert(!name_at(e0, s0.nil_id, nil_name())) by {
                            if name_at(e0, s0.nil_id, nil_name()) {
                                assert(str_entries_has_name(e0, nil_name()));
                            }
                        }
                        assert(!s0.vex(r));
                    } else {
                        assert(!s0.vex(r)) by {
                            if sym_id_ok(e0, id) {
                                let j = choose|j: int|
                                    0 <= j < e0.len() && (#[trigger] e0[j]).0 == id && e0[j].1
                                        != nil_name();
                                assert(e0[j].0 < id);
                            }
                        }
                    }
                    // validity changes by exactly the new pointer
                    assert forall|p: Ptr|
                        #![trigger self.vex(p)]
                        #![trigger s0.vex(p)]
                        self.vex(p) <==> (s0.vex(p) || p == r) by {
                        match p.tag {
                            Tag::Nil => {
                                if is_nil {
                                    assert(name_at(e1, id, nil_name()));
                                    assert(!name_at(e0, s0.nil_id, nil_name())) by {
                                        if name_at(e0, s0.nil_id, nil_name()) {
                                            assert(str_entries_has_name(e0, nil_name()));
                                        }
                                    }
                                } else {
                                    assert(self.nil_id == s0.nil_id);
                                    if name_at(e1, self.nil_id, nil_name()) {
                                        let j = choose|j: int|
                                            0 <= j < e1.len() && #[trigger] e1[j] == (
                                            self.nil_id,
                                            nil_name(),
                                            );
                                        assert(j < e0.len());
                                        assert(name_at(e0, s0.nil_id, nil_name()));
                                    }
                                    if name_at(e0, s0.nil_id, nil_name()) {
                                        let j = choose|j: int|
                                            0 <= j < e0.len() && #[trigger] e0[j] == (
                                            s0.nil_id,
                                            nil_name(),
                                            );
                                        assert(e1[j] == e0[j]);
                                        assert(name_at(e1, self.nil_id, nil_name()));
                                    }
                                }
                            },
                            Tag::Sym => {
                                if sym_id_ok(e1, p.raw.idx) {
                                    let j = choose|j: int|
                                        0 <= j < e1.len() && (#[trigger] e1[j]).0 == p.raw.idx
                                            && e1[j].1 != nil_name();
                                    if j < e0.len() {
                                        assert(sym_id_ok(e0, p.raw.idx));
                                    } else {
                                        assert(p.raw.idx == id && name@ != nil_name());
                                        assert(p == r);
                                    }
                                }
                                if sym_id_ok(e0, p.raw.idx) {
                                    let j = choose|j: int|
                                        0 <= j < e0.len() && (#[trigger] e0[j]).0 == p.raw.idx
                                            && e0[j].1 != nil_name();
                                    assert(e1[j] == e0[j]);
                                    assert(sym_id_ok(e1, p.raw.idx));
                                }
                                if !is_nil && p.raw.idx == id {
                                    assert(sym_id_ok(e1, id));
                                }
                            },
                            _ => {},
                        }
                    }
                    assert forall|k: ContPtr|
                        #![trigger self.vck(k)]
                        #![trigger s0.vck(k)]
                        self.vck(k) <==> s0.vck(k) by {}
                    // no old tree equals the new symbol's tree
                    assert forall|q: Ptr|
                        #![trigger s0.den_expr@[q]]
                        s0.den_expr@.contains_key(q) implies s0.den_expr@[q] != v by {
                        assert(s0.vex(q));
                        s0.lemma_tag_agree_expr(q);
                        if s0.den_expr@[q] == v {
                            if is_nil {
                                assert(q.tag is Nil);
                                assert(name_at(e0, s0.nil_id, nil_name()));
                                assert(str_entries_has_name(e0, nil_name()));
                            } else {
                                assert(q.tag is Sym);
                                let j = choose|j: int|
                                    0 <= j < e0.len() && (#[trigger] e0[j]).0 == q.raw.idx
                                        && e0[j].1 != nil_name();
                                assert(sym_entry_ok(e0, s0.nil_id, s0.den_expr@, j));
                                assert(s0.den_expr@[psym(e0[j].0)] == ExprV::Sym(e0[j].1));
                                assert(psym(e0[j].0) == q);
                                assert(e0[j].1 == name@);
                                assert(str_entries_has_name(e0, name@));
                            }
                        }
                    }
                    lemma_den_insert_expr(s0, *self, r, v);
                    // remaining invariant pieces
                    assert(map_extends(s0.den_expr@, self.den_expr@));
                    assert forall|j: int| 0 <= j < e1.len() implies sym_entry_ok(
                        e1,
                        self.nil_id,
                        self.den_expr@,
                        j,
                    ) by {
                        if j < e0.len() {
                            assert(sym_entry_ok(e0, s0.nil_id, s0.den_expr@, j));
                            assert(e1[j] == e0[j]);
                            if e0[j].1 == nil_name() {
                                assert(!is_nil) by {
                                    if is_nil {
                                        assert(str_entries_has_name(e0, nil_name()));
                                    }
                                }
                                assert(s0.den_expr@.contains_key(pnil(e0[j].0)));
                            } else {
                                assert(s0.den_expr@.contains_key(psym(e0[j].0)));
                            }
                        } else {
                            assert(e1[j] == (id, name@));
                        }
                    }
                    lemma_str_den_mono(s0.strs(), s0.den_expr@, self.den_expr@);
                    lemma_cons_tab_mono(
                        table_entries(self.cons_store),
                        self.cons_list@,
                        s0.den_expr@,
                        self.den_expr@,
                    );
                    lemma_num_tab_mono(
                        table_entries(self.num_store),
                        self.num_list@,
                        s0.den_expr@,
                        self.den_expr@,
                    );
                    lemma_fun_tab_mono(
                        table_entries(self.fun_store),
                        self.fun_list@,
                        s0.den_expr@,
                        self.den_expr@,
                    );
                    lemma_thunk_tab_mono(
                        table_entries(self.thunk_store),
                        self.thunk_list@,
                        s0.den_expr@,
                        self.den_expr@,
                        s0.den_cont@,
                        self.den_cont@,
                    );
                    lemma_simple_tab_mono(
                        table_entries(self.simple_store),
                        self.simple_list@,
                        s0.den_cont@,
                        self.den_cont@,
                    );
                    lemma_call_tab_mono(
                        table_entries(self.call_store),
                        self.call_list@,
                        s0.den_expr@,
                        self.den_expr@,
                        s0.den_cont@,
                        self.den_cont@,
                    );
                    lemma_call2_tab_mono(
                        table_entries(self.call2_store),
                        self.call2_list@,
                        s0.den_expr@,
                        self.den_expr@,
                        s0.den_cont@,
                        self.den_cont@,
                    );
                    lemma_tail_tab_mono(
                        table_entries(self.tail_store),
                        self.tail_list@,
                        s0.den_expr@,
                        self.den_expr@,
                        s0.den_cont@,
                        self.den_cont@,
                    );
                    lemma_lookup_tab_mono(
                        table_entries(self.lookup_store),
                        self.lookup_list@,
                        s0.den_expr@,
                        self.den_expr@,
                        s0.den_cont@,
                        self.den_cont@,
                    );
                    lemma_unop_tab_mono(
                        table_entries(self.unop_store),
                        self.unop_list@,
                        s0.den_cont@,
                        self.den_cont@,
                    );
                    lemma_binop_tab_mono(
                        table_entries(self.binop_store),
                        self.binop_list@,
                        s0.den_expr@,
                        self.den_expr@,
                        s0.den_cont@,
                        self.den_cont@,
                    );
                    lemma_binop2_tab_mono(
                        table_entries(self.binop2_store),
                        self.binop2_list@,
                        s0.den_expr@,
                        self.den_expr@,
                        s0.den_cont@,
                        self.den_cont@,
                    );
                    lemma_relop_tab_mono(
                        table_entries(self.relop_store),
                        self.relop_list@,
                        s0.den_expr@,
                        self.den_expr@,
                        s0.den_cont@,
                        self.den_cont@,
                    );
                    lemma_relop2_tab_mono(
                        table_entries(self.relop2_store),
                        self.relop2_list@,
                        s0.den_expr@,
                        self.den_expr@,
                        s0.den_cont@,
                        self.den_cont@,
                    );
                    lemma_if_tab_mono(
                        table_entries(self.if_store),
                        self.if_list@,
                        s0.den_expr@,
                        self.den_expr@,
                        s0.den_cont@,
                        self.den_cont@,
                    );
                    lemma_let_star_tab_mono(
                        table_entries(self.let_star_store),
                        self.let_star_list@,
                        s0.den_expr@,
                        self.den_expr@,
                        s0.den_cont@,
                        self.den_cont@,
                    );
                    lemma_let_rec_star_tab_mono(
                        table_entries(self.let_rec_star_store),
                        self.let_rec_star_list@,
                        s0.den_expr@,
                        self.den_expr@,
                        s0.den_cont@,
                        self.den_cont@,
                    );
                    assert(name_at(e1, id, name@)) by {
                        assert(e1[e0.len() as int] == (id, name@));
                    }
                    assert forall|id2: usize, nm: Seq<char>| name_at(e0, id2, nm) implies name_at(
                        e1,
                        id2,
                        nm,
                    ) by {
                        let j = choose|j: int| 0 <= j < e0.len() && #[trigger] e0[j] == (id2, nm);
                        assert(e1[j] == e0[j]);
                    }
                }
                r
            },
        }
    }
}


impl Store {
    /// Interns a symbol name as given, without case conversion.  The name
    /// `NIL` yields the sole nil-tagged pointer.
    pub fn intern_sym(&mut self, name: &str) -> (r: Ptr)
        requires
            old(self).wf(),
        ensures
            final(self).wf(),
            r.tag == (if name@ == nil_name() { Tag::Nil } else { Tag::Sym }),
            final(self)@.exprs == old(self)@.exprs.insert(r, sym_den_val(name@)),
            final(self)@.exprs.contains_key(r),
            final(self)@.exprs[r] == sym_den_val(name@),
            final(self)@.conts == old(self)@.conts,
            final(self)@.strs == old(self)@.strs,
            final(self)@.scalar_exprs == old(self)@.scalar_exprs,
            final(self)@.scalar_conts == old(self)@.scalar_conts,
            final(self)@.cache4 == old(self)@.cache4,
            final(self)@.cache6 == old(self)@.cache6,
            final(self)@.cache8 == old(self)@.cache8,
            map_extends(old(self)@.exprs, final(self)@.exprs),
            map_extends(old(self)@.conts, final(self)@.conts),
            final(self)@.syms == old(self)@.syms || final(self)@.syms == old(self)@.syms.push(
                (r.raw.idx, name@),
            ),
            str_entries_has_name(old(self)@.syms, name@) ==> final(self)@.syms == old(
                self,
            )@.syms,
            str_entries_has_name(final(self)@.syms, name@),
            name_at(final(self)@.syms, r.raw.idx, name@),
    {
        let ghost s0 = *self;
        let r = self.intern_sym_impl(name);
        proof {
            if name@ == nil_name() {
                assert(str_entries_has_name(s0.syms(), nil_name())) by {
                    let j = choose|j: int|
                        0 <= j < s0.syms().len() && #[trigger] s0.syms()[j] == (
                        s0.nil_id,
                        nil_name(),
                        );
                }
                assert(self.syms() == s0.syms());
            }
            assert(name_at(self.syms(), self.nil_id, nil_name()));
            assert(name_at(self.syms(), self.outermost_id, outermost_name()));
            assert(name_at(self.syms(), self.error_id, error_name()));
            assert(name_at(self.syms(), self.dummy_id, dummy_name()));
            assert(name_at(self.syms(), self.terminal_id, terminal_name()));
            assert(str_entries_has_name(self.syms(), t_name())) by {
                let e0 = s0.syms();
                let e1 = self.syms();
                let j = choose|j: int| 0 <= j < e0.len() && (#[trigger] e0[j]).1 == t_name();
                if e1 != e0 {
                    assert(e1[j] == e0[j]);
                }
            }
            assert(self.preloaded());
            assert(str_entries_has_name(self@.syms, name@)) by {
                let e = self.syms();
                let j = choose|j: int| 0 <= j < e.len() && #[trigger] e[j] == (r.raw.idx, name@);
            }
        }
        r
    }

    /// Upper-cases the name (ASCII) and interns it.
    pub fn intern_sym_with_case_conversion(&mut self, name: &str) -> (r: Ptr)
        requires
            old(self).wf(),
        ensures
            final(self).wf(),
            r.tag == (if upper_seq(name@) == nil_name() { Tag::Nil } else { Tag::Sym }),
            final(self)@.exprs == old(self)@.exprs.insert(r, sym_den_val(upper_seq(name@))),
            final(self)@.exprs.contains_key(r),
            final(self)@.exprs[r] == sym_den_val(upper_seq(name@)),
            final(self)@.conts == old(self)@.conts,
            final(self)@.strs == old(self)@.strs,
            final(self)@.scalar_exprs == old(self)@.scalar_exprs,
            final(self)@.scalar_conts == old(self)@.scalar_conts,
            final(self)@.cache4 == old(self)@.cache4,
            final(self)@.cache6 == old(self)@.cache6,
            final(self)@.cache8 == old(self)@.cache8,
            map_extends(old(self)@.exprs, final(self)@.exprs),
            map_extends(old(self)@.conts, final(self)@.conts),
            final(self)@.syms == old(self)@.syms || final(self)@.syms == old(self)@.syms.push(
                (r.raw.idx, upper_seq(name@)),
            ),
            str_entries_has_name(old(self)@.syms, upper_seq(name@)) ==> final(self)@.syms == old(
                self,
            )@.syms,
            str_entries_has_name(final(self)@.syms, upper_seq(name@)),
            name_at(final(self)@.syms, r.raw.idx, upper_seq(name@)),
    {
        let up = upcase_ascii(name);
        self.intern_sym(up.as_str())
    }

    /// Interns a symbol with case conversion.
    pub fn sym(&mut self, name: &str) -> (r: Ptr)
        requires
            old(self).wf(),
        ensures
            final(self).wf(),
            r.tag == (if upper_seq(name@) == nil_name() { Tag::Nil } else { Tag::Sym }),
            final(self)@.exprs == old(self)@.exprs.insert(r, sym_den_val(upper_seq(name@))),
            final(self)@.exprs.contains_key(r),
            final(self)@.exprs[r] == sym_den_val(upper_seq(name@)),
            final(self)@.conts == old(self)@.conts,
            final(self)@.strs == old(self)@.strs,
            final(self)@.scalar_exprs == old(self)@.scalar_exprs,
            final(self)@.scalar_conts == old(self)@.scalar_conts,
            final(self)@.cache4 == old(self)@.cache4,
            final(self)@.cache6 == old(self)@.cache6,
            final(self)@.cache8 == old(self)@.cache8,
            map_extends(old(self)@.exprs, final(self)@.exprs),
            map_extends(old(self)@.conts, final(self)@.conts),
            final(self)@.syms == old(self)@.syms || final(self)@.syms == old(self)@.syms.push(
                (r.raw.idx, upper_seq(name@)),
            ),
            str_entries_has_name(old(self)@.syms, upper_seq(name@)) ==> final(self)@.syms == old(
                self,
            )@.syms,
            str_entries_has_name(final(self)@.syms, upper_seq(name@)),
            name_at(final(self)@.syms, r.raw.idx, upper_seq(name@)),
    {
        self.intern_sym_with_case_conversion(name)
    }

    /// The canonical nil pointer.  The preload guarantees it exists.
    pub fn get_nil(&self) -> (r: Ptr)
        requires
            self.wf(),
        ensures
            r.tag is Nil,
            self@.exprs.contains_key(r),
            self@.exprs[r] == ExprV::Nil,
    {
        let r = Ptr::new(Tag::Nil, RawPtr::new(self.nil_id));
        proof {
            assert(self.vex(r));
            let e = self.syms();
            let j = choose|j: int| 0 <= j < e.len() && #[trigger] e[j] == (self.nil_id, nil_name());
            assert(sym_entry_ok(e, self.nil_id, self.den_expr@, j));
        }
        r
    }

    /// The canonical truth symbol.  The preload guarantees it exists.
    pub fn get_t(&self) -> (r: Ptr)
        requires
            self.wf(),
        ensures
            r.tag is Sym,
            self@.exprs.contains_key(r),
            self@.exprs[r] == ExprV::Sym(t_name()),
    {
        proof {
            reveal_strlit("T");
            reveal_strlit("NIL");
        }
        let got = str_table_get(&self.sym_store, "T");
        match got {
            Some(id) => {
                let r = Ptr::new(Tag::Sym, RawPtr::new(id));
                proof {
                    let e = self.syms();
                    assert(t_name() == "T"@);
                    assert(e.contains((id, "T"@)));
                    let j = choose|j: int| 0 <= j < e.len() && #[trigger] e[j] == (id, "T"@);
                    assert(e[j] == (id, t_name()));
                    assert(t_name() != nil_name()) by {
                        reveal_strlit("T");
                        reveal_strlit("NIL");
                        assert(t_name().len() == 1);
                        assert(nil_name().len() == 3);
                    }
                    assert(sym_id_ok(e, id));
                    assert(self.vex(r));
                    assert(sym_entry_ok(e, self.nil_id, self.den_expr@, j));
                }
                r
            },
            None => {
                proof {
                    let e = self.syms();
                    let j = choose|j: int| 0 <= j < e.len() && (#[trigger] e[j]).1 == t_name();
                    assert(e.contains((e[j].0, t_name())));
                    assert(str_entries_has_name(e, t_name()));
                }
                vstd::pervasive::unreached()
            },
        }
    }

    /// Interns nil: the canonical nil pointer, already preloaded.
    pub fn intern_nil(&mut self) -> (r: Ptr)
        requires
            old(self).wf(),
        ensures
            final(self).wf(),
            r.tag is Nil,
            final(self)@ == old(self)@,
            final(self)@.exprs.contains_key(r),
            final(self)@.exprs[r] == ExprV::Nil,
    {
        let ghost s0 = *self;
        proof {
            assert(str_entries_has_name(s0.syms(), nil_name())) by {
                let j = choose|j: int|
                    0 <= j < s0.syms().len() && #[trigger] s0.syms()[j] == (s0.nil_id, nil_name());
            }
        }
        let r = self.intern_sym_impl("NIL");
        proof {
            assert(self.syms() == s0.syms());
            let e = s0.syms();
            let j = choose|j: int| 0 <= j < e.len() && #[trigger] e[j] == (r.raw.idx, nil_name());
            assert(sym_entry_ok(e, s0.nil_id, s0.den_expr@, j));
            assert(e[j].0 == s0.nil_id);
            assert(s0.den_expr@.contains_key(pnil(e[j].0)));
            assert(r == pnil(e[j].0));
            assert(self.den_expr@ =~= s0.den_expr@);
            assert(name_at(self.syms(), self.nil_id, nil_name()));
            assert(self.preloaded());
            assert(self@ == s0@);
        }
        r
    }

    /// The nil expression.
    pub fn nil(&mut self) -> (r: Ptr)
        requires
            old(self).wf(),
        ensures
            final(self).wf(),
            r.tag is Nil,
            final(self)@ == old(self)@,
            final(self)@.exprs.contains_key(r),
            final(self)@.exprs[r] == ExprV::Nil,
    {
        self.intern_nil()
    }

    /// The truth symbol.
    pub fn t(&mut self) -> (r: Ptr)
        requires
            old(self).wf(),
        ensures
            final(self).wf(),
            r.tag is Sym,
            final(self)@ == old(self)@,
            final(self)@.exprs.contains_key(r),
            final(self)@.exprs[r] == ExprV::Sym(t_name()),
    {
        let ghost s0 = *self;
        proof {
            reveal_strlit("T");
            reveal_strlit("NIL");
            assert(t_name().len() == 1);
            assert(nil_name().len() == 3);
            assert(t_name() != nil_name());
        }
        let r = self.intern_sym_impl("T");
        proof {
            assert(self.syms() == s0.syms());
            let e = s0.syms();
            let j = choose|j: int| 0 <= j < e.len() && #[trigger] e[j] == (r.raw.idx, t_name());
            assert(sym_entry_ok(e, s0.nil_id, s0.den_expr@, j));
            assert(s0.den_expr@.contains_key(psym(e[j].0)));
            assert(s0.den_expr@[psym(e[j].0)] == ExprV::Sym(t_name()));
            assert(r == psym(e[j].0));
            assert(self.den_expr@ =~= s0.den_expr@);
            assert(name_at(self.syms(), self.nil_id, nil_name()));
            assert(self.preloaded());
            assert(self@ == s0@);
        }
        r
    }
}

impl Store {
    /// A fresh store with every table empty and no preload.
    fn empty() -> (r: Store)
        ensures
            r.wf_base(),
            r.syms() == str_entries_empty(),
            r.strs() == str_entries_empty(),
            r.den_expr@ == Map::<Ptr, ExprV>::empty(),
            r.den_cont@ == Map::<ContPtr, ContV>::empty(),
            rev_entries(r.scalar_ptr_map) == rev_empty(),
            rev_entries(r.scalar_ptr_cont_map) == rev_empty(),
            cache_entries(r.poseidon_cache.a4) == cache_empty(),
            cache_entries(r.poseidon_cache.a6) == cache_empty(),
            cache_entries(r.poseidon_cache.a8) == cache_empty(),
            !r.anchors_set@,
    {
        let r = Store {
            cons_store: table_new(),
            sym_store: str_table_new(),
            num_store: table_new(),
            fun_store: table_new(),
            str_store: str_table_new(),
            thunk_store: table_new(),
            simple_store: table_new(),
            call_store: table_new(),
            call2_store: table_new(),
            tail_store: table_new(),
            lookup_store: table_new(),
            unop_store: table_new(),
            binop_store: table_new(),
            binop2_store: table_new(),
            relop_store: table_new(),
            relop2_store: table_new(),
            if_store: table_new(),
            let_star_store: table_new(),
            let_rec_star_store: table_new(),
            sym_ids: Vec::new(),
            str_ids: Vec::new(),
            nil_id: 0,
            outermost_id: 0,
            error_id: 0,
            dummy_id: 0,
            terminal_id: 0,
            scalar_ptr_map: rev_new(),
            scalar_ptr_cont_map: rev_new(),
            poseidon_cache: PoseidonCache::new(),
            cons_list: Ghost(Seq::empty()),
            num_list: Ghost(Seq::empty()),
            fun_list: Ghost(Seq::empty()),
            thunk_list: Ghost(Seq::empty()),
            simple_list: Ghost(Seq::empty()),
            call_list: Ghost(Seq::empty()),
            call2_list: Ghost(Seq::empty()),
            tail_list: Ghost(Seq::empty()),
            lookup_list: Ghost(Seq::empty()),
            unop_list: Ghost(Seq::empty()),
            binop_list: Ghost(Seq::empty()),
            binop2_list: Ghost(Seq::empty()),
            relop_list: Ghost(Seq::empty()),
            relop2_list: Ghost(Seq::empty()),
            if_list: Ghost(Seq::empty()),
            let_star_list: Ghost(Seq::empty()),
            let_rec_star_list: Ghost(Seq::empty()),
            den_expr: Ghost(Map::empty()),
            den_cont: Ghost(Map::empty()),
            anchors_set: Ghost(false),
        };
        proof {
            assert forall|p: Ptr| !r.vex(p) by {
                match p.tag {
                    Tag::Nil => assert(!name_at(r.syms(), r.nil_id, nil_name())),
                    Tag::Sym => assert(!sym_id_ok(r.syms(), p.raw.idx)),
                    Tag::Str => assert(!id_in(r.strs(), p.raw.idx)),
                    _ => {},
                }
            }
            assert forall|k: ContPtr| !r.vck(k) by {}
            assert(r.dom_ok());
        }
        r
    }

    /// Interns the first half of the well-known symbol list.
    #[verifier::rlimit(100)]
    #[verifier::spinoff_prover]
    fn preload_first(&mut self)
        requires
            old(self).wf_base(),
            old(self).syms() == str_entries_empty(),
        ensures
            final(self).wf_base(),
            sym_names(final(self).syms()) == preload_names().take(11),
            name_at(final(self).syms(), final(self).nil_id, nil_name()),
            str_entries_has_name(final(self).syms(), t_name()),
            final(self).strs() == old(self).strs(),
            final(self).den_cont@ == old(self).den_cont@,
            final(self).anchors_set@ == old(self).anchors_set@,
            forall|p: Ptr| #[trigger]
                final(self)@.exprs.contains_key(p) ==> (old(self)@.exprs.contains_key(p) || (
                p.tag is Nil) || (p.tag is Sym)),
            rev_entries(final(self).scalar_ptr_map) == rev_entries(old(self).scalar_ptr_map),
            rev_entries(final(self).scalar_ptr_cont_map) == rev_entries(
                old(self).scalar_ptr_cont_map,
            ),
            cache_entries(final(self).poseidon_cache.a4) == cache_entries(
                old(self).poseidon_cache.a4,
            ),
            cache_entries(final(self).poseidon_cache.a6) == cache_entries(
                old(self).poseidon_cache.a6,
            ),
            cache_entries(final(self).poseidon_cache.a8) == cache_entries(
                old(self).poseidon_cache.a8,
            ),
    {
        let ghost s0 = *self;
        proof {
            assert(sym_names(s0.syms()) =~= preload_names().take(0));
        }
        let ghost q0 = *self;
        let p_nil = self.intern_sym_impl("NIL");
        proof {
            lemma_preload_names_index();
            assert(!str_entries_has_name(q0.syms(), "NIL"@)) by {
                if str_entries_has_name(q0.syms(), "NIL"@) {
                    let j = choose|j: int|
                        0 <= j < q0.syms().len() && (#[trigger] q0.syms()[j]).1 == "NIL"@;
                    lemma_sym_names_index(q0.syms(), j);
                    assert(preload_names().take(0)[j] == preload_names()[j]);
                    lemma_preload_names_index();
                    assert(preload_names()[0] == "NIL"@);
                }
            }
            assert(self.syms() == q0.syms().push((p_nil.raw.idx, "NIL"@)));
            assert forall|i: int| 0 <= i < q0.syms().len() implies #[trigger] sym_names(
                q0.syms(),
            )[i] == q0.syms()[i].1 by {
                lemma_sym_names_index(q0.syms(), i);
            }
            assert forall|i: int| 0 <= i < self.syms().len() implies #[trigger] sym_names(
                self.syms(),
            )[i] == self.syms()[i].1 by {
                lemma_sym_names_index(self.syms(), i);
            }
            assert(sym_names(self.syms()) =~= preload_names().take(1));
        }
        let ghost q1 = *self;
        let p_t = self.intern_sym_impl("T");
        proof {
            lemma_preload_names_index();
            lemma_preload_fresh_1();
            assert(!str_entries_has_name(q1.syms(), "T"@)) by {
                if str_entries_has_name(q1.syms(), "T"@) {
                    let j = choose|j: int|
                        0 <= j < q1.syms().len() && (#[trigger] q1.syms()[j]).1 == "T"@;
                    lemma_sym_names_index(q1.syms(), j);
                    assert(preload_names().take(1)[j] == preload_names()[j]);
                    lemma_preload_names_index();
                    assert(preload_names()[1] == "T"@);
                }
            }
            assert(self.syms() == q1.syms().push((p_t.raw.idx, "T"@)));
            assert forall|i: int| 0 <= i < q1.syms().len() implies #[trigger] sym_names(
                q1.syms(),
            )[i] == q1.syms()[i].1 by {
                lemma_sym_names_index(q1.syms(), i);
            }
            assert forall|i: int| 0 <= i < self.syms().len() implies #[trigger] sym_names(
                self.syms(),
            )[i] == self.syms()[i].1 by {
                lemma_sym_names_index(self.syms(), i);
            }
            assert(sym_names(self.syms()) =~= preload_names().take(2));
        }
        let ghost q2 = *self;
        let _q2 = self.intern_sym_impl("QUOTE");
        proof {
            lemma_preload_names_index();
            lemma_preload_fresh_2();
            assert(!str_entries_has_name(q2.syms(), "QUOTE"@)) by {
                if str_entries_has_name(q2.syms(), "QUOTE"@) {
                    let j = choose|j: int|
                        0 <= j < q2.syms().len() && (#[trigger] q2.syms()[j]).1 == "QUOTE"@;
                    lemma_sym_names_index(q2.syms(), j);
                    assert(preload_names().take(2)[j] == preload_names()[j]);
                    lemma_preload_names_index();
                    assert(preload_names()[2] == "QUOTE"@);
                }
            }
            assert(self.syms() == q2.syms().push((_q2.raw.idx, "QUOTE"@)));
            assert forall|i: int| 0 <= i < q2.syms().len() implies #[trigger] sym_names(
                q2.syms(),
            )[i] == q2.syms()[i].1 by {
                lemma_sym_names_index(q2.syms(), i);
            }
            assert forall|i: int| 0 <= i < self.syms().len() implies #[trigger] sym_names(
                self.syms(),
            )[i] == self.syms()[i].1 by {
                lemma_sym_names_index(self.syms(), i);
            }
            assert(sym_names(self.syms()) =~= preload_names().take(3));
        }
        let ghost q3 = *self;
        let _q3 = self.intern_sym_impl("LAMBDA");
        proof {
            lemma_preload_names_index();
            lemma_preload_fresh_3();
            assert(!str_entries_has_name(q3.syms(), "LAMBDA"@)) by {
                if str_entries_has_name(q3.syms(), "LAMBDA"@) {
                    let j = choose|j: int|
                        0 <= j < q3.syms().len() && (#[trigger] q3.syms()[j]).1 == "LAMBDA"@;
                    lemma_sym_names_index(q3.syms(), j);
                    assert(preload_names().take(3)[j] == preload_names()[j]);
                    lemma_preload_names_index();
                    assert(preload_names()[3] == "LAMBDA"@);
                }
            }
            assert(self.syms() == q3.syms().push((_q3.raw.idx, "LAMBDA"@)));
            assert forall|i: int| 0 <= i < q3.syms().len() implies #[trigger] sym_names(
                q3.syms(),
            )[i] == q3.syms()[i].1 by {
                lemma_sym_names_index(q3.syms(), i);
            }
            assert forall|i: int| 0 <= i < self.syms().len() implies #[trigger] sym_names(
                self.syms(),
            )[i] == self.syms()[i].1 by {
                lemma_sym_names_index(self.syms(), i);
            }
            assert(sym_names(self.syms()) =~= preload_names().take(4));
        }
        let ghost q4 = *self;
        let _q4 = self.intern_sym_impl("_");
        proof {
            lemma_preload_names_index();
            lemma_preload_fresh_4();
            assert(!str_entries_has_name(q4.syms(), "_"@)) by {
                if str_entries_has_name(q4.syms(), "_"@) {
                    let j = choose|j: int|
                        0 <= j < q4.syms().len() && (#[trigger] q4.syms()[j]).1 == "_"@;
                    lemma_sym_names_index(q4.syms(), j);
                    assert(preload_names().take(4)[j] == preload_names()[j]);
                    lemma_preload_names_index();
                    assert(preload_names()[4] == "_"@);
                }
            }
            assert(self.syms() == q4.syms().push((_q4.raw.idx, "_"@)));
            assert forall|i: int| 0 <= i < q4.syms().len() implies #[trigger] sym_names(
                q4.syms(),
            )[i] == q4.syms()[i].1 by {
                lemma_sym_names_index(q4.syms(), i);
            }
            assert forall|i: int| 0 <= i < self.syms().len() implies #[trigger] sym_names(
                self.syms(),
            )[i] == self.syms()[i].1 by {
                lemma_sym_names_index(self.syms(), i);
            }
            assert(sym_names(self.syms()) =~= preload_names().take(5));
        }
        let ghost q5 = *self;
        let _q5 = self.intern_sym_impl("LET*");
        proof {
            lemma_preload_names_index();
            lemma_preload_fresh_5();
            assert(!str_entries_has_name(q5.syms(), "LET*"@)) by {
                if str_entries_has_name(q5.syms(), "LET*"@) {
                    let j = choose|j: int|
                        0 <= j < q5.syms().len() && (#[trigger] q5.syms()[j]).1 == "LET*"@;
                    lemma_sym_names_index(q5.syms(), j);
                    assert(preload_names().take(5)[j] == preload_names()[j]);
                    lemma_preload_names_index();
                    assert(preload_names()[5] == "LET*"@);
                }
            }
            assert(self.syms() == q5.syms().push((_q5.raw.idx, "LET*"@)));
            assert forall|i: int| 0 <= i < q5.syms().len() implies #[trigger] sym_names(
                q5.syms(),
            )[i] == q5.syms()[i].1 by {
                lemma_sym_names_index(q5.syms(), i);
            }
            assert forall|i: int| 0 <= i < self.syms().len() implies #[trigger] sym_names(
                self.syms(),
            )[i] == self.syms()[i].1 by {
                lemma_sym_names_index(self.syms(), i);
            }
            assert(sym_names(self.syms()) =~= preload_names().take(6));
        }
        let ghost q6 = *self;
        let _q6 = self.intern_sym_impl("LETREC*");
        proof {
            lemma_preload_names_index();
            lemma_preload_fresh_6();
            assert(!str_entries_has_name(q6.syms(), "LETREC*"@)) by {
                if str_entries_has_name(q6.syms(), "LETREC*"@) {
                    let j = choose|j: int|
                        0 <= j < q6.syms().len() && (#[trigger] q6.syms()[j]).1 == "LETREC*"@;
                    lemma_sym_names_index(q6.syms(), j);
                    assert(preload_names().take(6)[j] == preload_names()[j]);
                    lemma_preload_names_index();
                    assert(preload_names()[6] == "LETREC*"@);
                }
            }
            assert(self.syms() == q6.syms().push((_q6.raw.idx, "LETREC*"@)));
            assert forall|i: int| 0 <= i < q6.syms().len() implies #[trigger] sym_names(
                q6.syms(),
            )[i] == q6.syms()[i].1 by {
                lemma_sym_names_index(q6.syms(), i);
            }
            assert forall|i: int| 0 <= i < self.syms().len() implies #[trigger] sym_names(
                self.syms(),
            )[i] == self.syms()[i].1 by {
                lemma_sym_names_index(self.syms(), i);
            }
            assert(sym_names(self.syms()) =~= preload_names().take(7));
        }
        let ghost q7 = *self;
        let _q7 = self.intern_sym_impl("CAR");
        proof {
            lemma_preload_names_index();
            lemma_preload_fresh_7();
            assert(!str_entries_has_name(q7.syms(), "CAR"@)) by {
                if str_entries_has_name(q7.syms(), "CAR"@) {
                    let j = choose|j: int|
                        0 <= j < q7.syms().len() && (#[trigger] q7.syms()[j]).1 == "CAR"@;
                    lemma_sym_names_index(q7.syms(), j);
                    assert(preload_names().take(7)[j] == preload_names()[j]);
                    lemma_preload_names_index();
                    assert(preload_names()[7] == "CAR"@);
                }
            }
            assert(self.syms() == q7.syms().push((_q7.raw.idx, "CAR"@)));
            assert forall|i: int| 0 <= i < q7.syms().len() implies #[trigger] sym_names(
                q7.syms(),
            )[i] == q7.syms()[i].1 by {
                lemma_sym_names_index(q7.syms(), i);
            }
            assert forall|i: int| 0 <= i < self.syms().len() implies #[trigger] sym_names(
                self.syms(),
            )[i] == self.syms()[i].1 by {
                lemma_sym_names_index(self.syms(), i);
            }
            assert(sym_names(self.syms()) =~= preload_names().take(8));
        }
        let ghost q8 = *self;
        let _q8 = self.intern_sym_impl("CDR");
        proof {
            lemma_preload_names_index();
            lemma_preload_fresh_8();
            assert(!str_entries_has_name(q8.syms(), "CDR"@)) by {
                if str_entries_has_name(q8.syms(), "CDR"@) {
                    let j = choose|j: int|
                        0 <= j < q8.syms().len() && (#[trigger] q8.syms()[j]).1 == "CDR"@;
                    lemma_sym_names_index(q8.syms(), j);
                    assert(preload_names().take(8)[j] == preload_names()[j]);
                    lemma_preload_names_index();
                    assert(preload_names()[8] == "CDR"@);
                }
            }
            assert(self.syms() == q8.syms().push((_q8.raw.idx, "CDR"@)));
            assert forall|i: int| 0 <= i < q8.syms().len() implies #[trigger] sym_names(
                q8.syms(),
            )[i] == q8.syms()[i].1 by {
                lemma_sym_names_index(q8.syms(), i);
            }
            assert forall|i: int| 0 <= i < self.syms().len() implies #[trigger] sym_names(
                self.syms(),
            )[i] == self.syms()[i].1 by {
                lemma_sym_names_index(self.syms(), i);
            }
            assert(sym_names(self.syms()) =~= preload_names().take(9));
        }
        let ghost q9 = *self;
        let _q9 = self.intern_sym_impl("ATOM");
        proof {
            lemma_preload_names_index();
            lemma_preload_fresh_9();
            assert(!str_entries_has_name(q9.syms(), "ATOM"@)) by {
                if str_entries_has_name(q9.syms(), "ATOM"@) {
                    let j = choose|j: int|
                        0 <= j < q9.syms().len() && (#[trigger] q9.syms()[j]).1 == "ATOM"@;
                    lemma_sym_names_index(q9.syms(), j);
                    assert(preload_names().take(9)[j] == preload_names()[j]);
                    lemma_preload_names_index();
                    assert(preload_names()[9] == "ATOM"@);
                }
            }
            assert(self.syms() == q9.syms().push((_q9.raw.idx, "ATOM"@)));
            assert forall|i: int| 0 <= i < q9.syms().len() implies #[trigger] sym_names(
                q9.syms(),
            )[i] == q9.syms()[i].1 by {
                lemma_sym_names_index(q9.syms(), i);
            }
            assert forall|i: int| 0 <= i < self.syms().len() implies #[trigger] sym_names(
                self.syms(),
            )[i] == self.syms()[i].1 by {
                lemma_sym_names_index(self.syms(), i);
            }
            assert(sym_names(self.syms()) =~= preload_names().take(10));
        }
        let ghost q10 = *self;
        let _q10 = self.intern_sym_impl("+");
        proof {
            lemma_preload_names_index();
            lemma_preload_fresh_10();
            assert(!str_entries_has_name(q10.syms(), "+"@)) by {
                if str_entries_has_name(q10.syms(), "+"@) {
                    let j = choose|j: int|
                        0 <= j < q10.syms().len() && (#[trigger] q10.syms()[j]).1 == "+"@;
                    lemma_sym_names_index(q10.syms(), j);
                    assert(preload_names().take(10)[j] == preload_names()[j]);
                    lemma_preload_names_index();
                    assert(preload_names()[10] == "+"@);
                }
            }
            assert(self.syms() == q10.syms().push((_q10.raw.idx, "+"@)));
            assert forall|i: int| 0 <= i < q10.syms().len() implies #[trigger] sym_names(
                q10.syms(),
            )[i] == q10.syms()[i].1 by {
                lemma_sym_names_index(q10.syms(), i);
            }
            assert forall|i: int| 0 <= i < self.syms().len() implies #[trigger] sym_names(
                self.syms(),
            )[i] == self.syms()[i].1 by {
                lemma_sym_names_index(self.syms(), i);
            }
            assert(sym_names(self.syms()) =~= preload_names().take(11));
        }
        proof {
            assert(str_entries_has_name(self.syms(), t_name())) by {
                let e = self.syms();
                let j = choose|j: int| 0 <= j < e.len() && #[trigger] e[j] == (p_t.raw.idx, t_name());
            }
        }
    }

    /// Interns the second half of the well-known symbol list and records
    /// the four nullary continuation anchors.
    #[verifier::rlimit(100)]
    #[verifier::spinoff_prover]
    fn preload_second(&mut self)
        requires
            old(self).wf_base(),
            !old(self).anchors_set@,
            sym_names(old(self).syms()) == preload_names().take(11),
            name_at(old(self).syms(), old(self).nil_id, nil_name()),
            str_entries_has_name(old(self).syms(), t_name()),
        ensures
            final(self).wf_base(),
            sym_names(final(self).syms()) == preload_names(),
            name_at(final(self).syms(), final(self).nil_id, nil_name()),
            str_entries_has_name(final(self).syms(), t_name()),
            name_at(final(self).syms(), final(self).outermost_id, outermost_name()),
            name_at(final(self).syms(), final(self).error_id, error_name()),
            name_at(final(self).syms(), final(self).dummy_id, dummy_name()),
            name_at(final(self).syms(), final(self).terminal_id, terminal_name()),
            final(self).den_cont@ == old(self).den_cont@,
            final(self).anchors_set@ == old(self).anchors_set@,
            final(self).strs() == old(self).strs(),
            forall|p: Ptr| #[trigger]
                final(self)@.exprs.contains_key(p) ==> (old(self)@.exprs.contains_key(p) || (
                p.tag is Nil) || (p.tag is Sym)),
            rev_entries(final(self).scalar_ptr_map) == rev_entries(old(self).scalar_ptr_map),
            rev_entries(final(self).scalar_ptr_cont_map) == rev_entries(
                old(self).scalar_ptr_cont_map,
            ),
            cache_entries(final(self).poseidon_cache.a4) == cache_entries(
                old(self).poseidon_cache.a4,
            ),
            cache_entries(final(self).poseidon_cache.a6) == cache_entries(
                old(self).poseidon_cache.a6,
            ),
            cache_entries(final(self).poseidon_cache.a8) == cache_entries(
                old(self).poseidon_cache.a8,
            ),
    {
        let ghost s0 = *self;
        let ghost q11 = *self;
        proof {
            assert(sym_names(q11.syms()) == preload_names().take(11));
        }
        let _r0 = self.intern_sym_impl("-");
        proof {
            lemma_preload_names_index();
            lemma_preload_fresh_11();
            assert(!str_entries_has_name(q11.syms(), "-"@)) by {
                if str_entries_has_name(q11.syms(), "-"@) {
                    let j = choose|j: int|
                        0 <= j < q11.syms().len() && (#[trigger] q11.syms()[j]).1 == "-"@;
                    lemma_sym_names_index(q11.syms(), j);
                    assert(preload_names().take(11)[j] == preload_names()[j]);
                    lemma_preload_names_index();
                    assert(preload_names()[11] == "-"@);
                }
            }
            assert(self.syms() == q11.syms().push((_r0.raw.idx, "-"@)));
            assert forall|i: int| 0 <= i < q11.syms().len() implies #[trigger] sym_names(
                q11.syms(),
            )[i] == q11.syms()[i].1 by {
                lemma_sym_names_index(q11.syms(), i);
            }
            assert forall|i: int| 0 <= i < self.syms().len() implies #[trigger] sym_names(
                self.syms(),
            )[i] == self.syms()[i].1 by {
                lemma_sym_names_index(self.syms(), i);
            }
            assert(sym_names(self.syms()) =~= preload_names().take(12));
        }
        let ghost q12 = *self;
        let _r1 = self.intern_sym_impl("*");
        proof {
            lemma_preload_names_index();
            lemma_preload_fresh_12();
            assert(!str_entries_has_name(q12.syms(), "*"@)) by {
                if str_entries_has_name(q12.syms(), "*"@) {
                    let j = choose|j: int|
                        0 <= j < q12.syms().len() && (#[trigger] q12.syms()[j]).1 == "*"@;
                    lemma_sym_names_index(q12.syms(), j);
                    assert(preload_names().take(12)[j] == preload_names()[j]);
                    lemma_preload_names_index();
                    assert(preload_names()[12] == "*"@);
                }
            }
            assert(self.syms() == q12.syms().push((_r1.raw.idx, "*"@)));
            assert forall|i: int| 0 <= i < q12.syms().len() implies #[trigger] sym_names(
                q12.syms(),
            )[i] == q12.syms()[i].1 by {
                lemma_sym_names_index(q12.syms(), i);
            }
            assert forall|i: int| 0 <= i < self.syms().len() implies #[trigger] sym_names(
                self.syms(),
            )[i] == self.syms()[i].1 by {
                lemma_sym_names_index(self.syms(), i);
            }
            assert(sym_names(self.syms()) =~= preload_names().take(13));
        }
        let ghost q13 = *self;
        let _r2 = self.intern_sym_impl("/");
        proof {
            lemma_preload_names_index();
            lemma_preload_fresh_13();
            assert(!str_entries_has_name(q13.syms(), "/"@)) by {
                if str_entries_has_name(q13.syms(), "/"@) {
                    let j = choose|j: int|
                        0 <= j < q13.syms().len() && (#[trigger] q13.syms()[j]).1 == "/"@;
                    lemma_sym_names_index(q13.syms(), j);
                    assert(preload_names().take(13)[j] == preload_names()[j]);
                    lemma_preload_names_index();
                    assert(preload_names()[13] == "/"@);
                }
            }
            assert(self.syms() == q13.syms().push((_r2.raw.idx, "/"@)));
            assert forall|i: int| 0 <= i < q13.syms().len() implies #[trigger] sym_names(
                q13.syms(),
            )[i] == q13.syms()[i].1 by {
                lemma_sym_names_index(q13.syms(), i);
            }
            assert forall|i: int| 0 <= i < self.syms().len() implies #[trigger] sym_names(
                self.syms(),
            )[i] == self.syms()[i].1 by {
                lemma_sym_names_index(self.syms(), i);
            }
            assert(sym_names(self.syms()) =~= preload_names().take(14));
        }
        let ghost q14 = *self;
        let _r3 = self.intern_sym_impl("=");
        proof {
            lemma_preload_names_index();
            lemma_preload_fresh_14();
            assert(!str_entries_has_name(q14.syms(), "="@)) by {
                if str_entries_has_name(q14.syms(), "="@) {
                    let j = choose|j: int|
                        0 <= j < q14.syms().len() && (#[trigger] q14.syms()[j]).1 == "="@;
                    lemma_sym_names_index(q14.syms(), j);
                    assert(preload_names().take(14)[j] == preload_names()[j]);
                    lemma_preload_names_index();
                    assert(preload_names()[14] == "="@);
                }
            }
            assert(self.syms() == q14.syms().push((_r3.raw.idx, "="@)));
            assert forall|i: int| 0 <= i < q14.syms().len() implies #[trigger] sym_names(
                q14.syms(),
            )[i] == q14.syms()[i].1 by {
                lemma_sym_names_index(q14.syms(), i);
            }
            assert forall|i: int| 0 <= i < self.syms().len() implies #[trigger] sym_names(
                self.syms(),
            )[i] == self.syms()[i].1 by {
                lemma_sym_names_index(self.syms(), i);
            }
            assert(sym_names(self.syms()) =~= preload_names().take(15));
        }
        let ghost q15 = *self;
        let _r4 = self.intern_sym_impl("EQ");
        proof {
            lemma_preload_names_index();
            lemma_preload_fresh_15();
            assert(!str_entries_has_name(q15.syms(), "EQ"@)) by {
                if str_entries_has_name(q15.syms(), "EQ"@) {
                    let j = choose|j: int|
                        0 <= j < q15.syms().len() && (#[trigger] q15.syms()[j]).1 == "EQ"@;
                    lemma_sym_names_index(q15.syms(), j);
                    assert(preload_names().take(15)[j] == preload_names()[j]);
                    lemma_preload_names_index();
                    assert(preload_names()[15] == "EQ"@);
                }
            }
            assert(self.syms() == q15.syms().push((_r4.raw.idx, "EQ"@)));
            assert forall|i: int| 0 <= i < q15.syms().len() implies #[trigger] sym_names(
                q15.syms(),
            )[i] == q15.syms()[i].1 by {
                lemma_sym_names_index(q15.syms(), i);
            }
            assert forall|i: int| 0 <= i < self.syms().len() implies #[trigger] sym_names(
                self.syms(),
            )[i] == self.syms()[i].1 by {
                lemma_sym_names_index(self.syms(), i);
            }
            assert(sym_names(self.syms()) =~= preload_names().take(16));
        }
        let ghost q16 = *self;
        let _r5 = self.intern_sym_impl("CURRENT-ENV");
        proof {
            lemma_preload_names_index();
            lemma_preload_fresh_16();
            assert(!str_entries_has_name(q16.syms(), "CURRENT-ENV"@)) by {
                if str_entries_has_name(q16.syms(), "CURRENT-ENV"@) {
                    let j = choose|j: int|
                        0 <= j < q16.syms().len() && (#[trigger] q16.syms()[j]).1 == "CURRENT-ENV"@;
                    lemma_sym_names_index(q16.syms(), j);
                    assert(preload_names().take(16)[j] == preload_names()[j]);
                    lemma_preload_names_index();
                    assert(preload_names()[16] == "CURRENT-ENV"@);
                }
            }
            assert(self.syms() == q16.syms().push((_r5.raw.idx, "CURRENT-ENV"@)));
            assert forall|i: int| 0 <= i < q16.syms().len() implies #[trigger] sym_names(
                q16.syms(),
            )[i] == q16.syms()[i].1 by {
                lemma_sym_names_index(q16.syms(), i);
            }
            assert forall|i: int| 0 <= i < self.syms().len() implies #[trigger] sym_names(
                self.syms(),
            )[i] == self.syms()[i].1 by {
                lemma_sym_names_index(self.syms(), i);
            }
            assert(sym_names(self.syms()) =~= preload_names().take(17));
        }
        let ghost q17 = *self;
        let _r6 = self.intern_sym_impl("IF");
        proof {
            lemma_preload_names_index();
            lemma_preload_fresh_17();
            assert(!str_entries_has_name(q17.syms(), "IF"@)) by {
                if str_entries_has_name(q17.syms(), "IF"@) {
                    let j = choose|j: int|
                        0 <= j < q17.syms().len() && (#[trigger] q17.syms()[j]).1 == "IF"@;
                    lemma_sym_names_index(q17.syms(), j);
                    assert(preload_names().take(17)[j] == preload_names()[j]);
                    lemma_preload_names_index();
                    assert(preload_names()[17] == "IF"@);
                }
            }
            assert(self.syms() == q17.syms().push((_r6.raw.idx, "IF"@)));
            assert forall|i: int| 0 <= i < q17.syms().len() implies #[trigger] sym_names(
                q17.syms(),
            )[i] == q17.syms()[i].1 by {
                lemma_sym_names_index(q17.syms(), i);
            }
            assert forall|i: int| 0 <= i < self.syms().len() implies #[trigger] sym_names(
                self.syms(),
            )[i] == self.syms()[i].1 by {
                lemma_sym_names_index(self.syms(), i);
            }
            assert(sym_names(self.syms()) =~= preload_names().take(18));
        }
        let ghost q18 = *self;
        let p_term = self.intern_sym_impl("TERMINAL");
        proof {
            lemma_preload_names_index();
            lemma_preload_fresh_18();
            assert(!str_entries_has_name(q18.syms(), "TERMINAL"@)) by {
                if str_entries_has_name(q18.syms(), "TERMINAL"@) {
                    let j = choose|j: int|
                        0 <= j < q18.syms().len() && (#[trigger] q18.syms()[j]).1 == "TERMINAL"@;
                    lemma_sym_names_index(q18.syms(), j);
                    assert(preload_names().take(18)[j] == preload_names()[j]);
                    lemma_preload_names_index();
                    assert(preload_names()[18] == "TERMINAL"@);
                }
            }
            assert(self.syms() == q18.syms().push((p_term.raw.idx, "TERMINAL"@)));
            assert forall|i: int| 0 <= i < q18.syms().len() implies #[trigger] sym_names(
                q18.syms(),
            )[i] == q18.syms()[i].1 by {
                lemma_sym_names_index(q18.syms(), i);
            }
            assert forall|i: int| 0 <= i < self.syms().len() implies #[trigger] sym_names(
                self.syms(),
            )[i] == self.syms()[i].1 by {
                lemma_sym_names_index(self.syms(), i);
            }
            assert(sym_names(self.syms()) =~= preload_names().take(19));
        }
        let ghost q19 = *self;
        let p_dum = self.intern_sym_impl("DUMMY");
        proof {
            lemma_preload_names_index();
            lemma_preload_fresh_19();
            assert(!str_entries_has_name(q19.syms(), "DUMMY"@)) by {
                if str_entries_has_name(q19.syms(), "DUMMY"@) {
                    let j = choose|j: int|
                        0 <= j < q19.syms().len() && (#[trigger] q19.syms()[j]).1 == "DUMMY"@;
                    lemma_sym_names_index(q19.syms(), j);
                    assert(preload_names().take(19)[j] == preload_names()[j]);
                    lemma_preload_names_index();
                    assert(preload_names()[19] == "DUMMY"@);
                }
            }
            assert(self.syms() == q19.syms().push((p_dum.raw.idx, "DUMMY"@)));
            assert forall|i: int| 0 <= i < q19.syms().len() implies #[trigger] sym_names(
                q19.syms(),
            )[i] == q19.syms()[i].1 by {
                lemma_sym_names_index(q19.syms(), i);
            }
            assert forall|i: int| 0 <= i < self.syms().len() implies #[trigger] sym_names(
                self.syms(),
            )[i] == self.syms()[i].1 by {
                lemma_sym_names_index(self.syms(), i);
            }
            assert(sym_names(self.syms()) =~= preload_names().take(20));
        }
        let ghost q20 = *self;
        let p_out = self.intern_sym_impl("OUTERMOST");
        proof {
            lemma_preload_names_index();
            lemma_preload_fresh_20();
            assert(!str_entries_has_name(q20.syms(), "OUTERMOST"@)) by {
                if str_entries_has_name(q20.syms(), "OUTERMOST"@) {
                    let j = choose|j: int|
                        0 <= j < q20.syms().len() && (#[trigger] q20.syms()[j]).1 == "OUTERMOST"@;
                    lemma_sym_names_index(q20.syms(), j);
                    assert(preload_names().take(20)[j] == preload_names()[j]);
                    lemma_preload_names_index();
                    assert(preload_names()[20] == "OUTERMOST"@);
                }
            }
            assert(self.syms() == q20.syms().push((p_out.raw.idx, "OUTERMOST"@)));
            assert forall|i: int| 0 <= i < q20.syms().len() implies #[trigger] sym_names(
                q20.syms(),
            )[i] == q20.syms()[i].1 by {
                lemma_sym_names_index(q20.syms(), i);
            }
            assert forall|i: int| 0 <= i < self.syms().len() implies #[trigger] sym_names(
                self.syms(),
            )[i] == self.syms()[i].1 by {
                lemma_sym_names_index(self.syms(), i);
            }
            assert(sym_names(self.syms()) =~= preload_names().take(21));
        }
        let ghost q21 = *self;
        let p_err = self.intern_sym_impl("ERROR");
        proof {
            lemma_preload_names_index();
            lemma_preload_fresh_21();
            assert(!str_entries_has_name(q21.syms(), "ERROR"@)) by {
                if str_entries_has_name(q21.syms(), "ERROR"@) {
                    let j = choose|j: int|
                        0 <= j < q21.syms().len() && (#[trigger] q21.syms()[j]).1 == "ERROR"@;
                    lemma_sym_names_index(q21.syms(), j);
                    assert(preload_names().take(21)[j] == preload_names()[j]);
                    lemma_preload_names_index();
                    assert(preload_names()[21] == "ERROR"@);
                }
            }
            assert(self.syms() == q21.syms().push((p_err.raw.idx, "ERROR"@)));
            assert forall|i: int| 0 <= i < q21.syms().len() implies #[trigger] sym_names(
                q21.syms(),
            )[i] == q21.syms()[i].1 by {
                lemma_sym_names_index(q21.syms(), i);
            }
            assert forall|i: int| 0 <= i < self.syms().len() implies #[trigger] sym_names(
                self.syms(),
            )[i] == self.syms()[i].1 by {
                lemma_sym_names_index(self.syms(), i);
            }
            assert(sym_names(self.syms()) =~= preload_names().take(22));
        }
        let ghost s_pre = *self;
        self.outermost_id = p_out.raw.idx;
        self.error_id = p_err.raw.idx;
        self.dummy_id = p_dum.raw.idx;
        self.terminal_id = p_term.raw.idx;
        proof {
            let e0 = old(self).syms();
            let e1 = self.syms();
            let j0 = choose|j: int| 0 <= j < e0.len() && (#[trigger] e0[j]).1 == t_name();
            assert(e0[j0] == (e0[j0].0, t_name()));
            assert(name_at(e0, e0[j0].0, t_name()));
            assert(name_at(e1, e0[j0].0, t_name()));
            assert(str_entries_has_name(e1, t_name())) by {
                let jj = choose|j: int|
                    0 <= j < e1.len() && #[trigger] e1[j] == (e0[j0].0, t_name());
            }
            assert forall|k: ContPtr| self.vck(k) == s_pre.vck(k) by {}
            assert forall|p: Ptr| self.vex(p) == s_pre.vex(p) by {}
            assert(self.dom_ok());
            assert(!self.den_cont@.contains_key(
                kptr(ContTag::Outermost, self.outermost_id as int),
            ));
            assert(!self.den_cont@.contains_key(kptr(ContTag::Error, self.error_id as int)));
            assert(!self.den_cont@.contains_key(kptr(ContTag::Dummy, self.dummy_id as int)));
            assert(!self.den_cont@.contains_key(
                kptr(ContTag::Terminal, self.terminal_id as int),
            ));
            assert(self.wf_base());
            assert(sym_names(self.syms()) =~= preload_names()) by {
                assert(preload_names().take(22) =~= preload_names());
            }
        }
    }

    /// Fixes the four canonical nullary continuation slots.
    #[verifier::spinoff_prover]
    fn fix_anchors(&mut self)
        requires
            old(self).wf_base(),
            !old(self).anchors_set@,
            old(self).den_cont@ == Map::<ContPtr, ContV>::empty(),
            name_at(old(self).syms(), old(self).nil_id, nil_name()),
            str_entries_has_name(old(self).syms(), t_name()),
            name_at(old(self).syms(), old(self).outermost_id, outermost_name()),
            name_at(old(self).syms(), old(self).error_id, error_name()),
            name_at(old(self).syms(), old(self).dummy_id, dummy_name()),
            name_at(old(self).syms(), old(self).terminal_id, terminal_name()),
        ensures
            final(self).wf(),
            final(self)@.scalar_exprs == old(self)@.scalar_exprs,
            final(self)@.scalar_conts == old(self)@.scalar_conts,
            final(self)@.cache4 == old(self)@.cache4,
            final(self)@.cache6 == old(self)@.cache6,
            final(self)@.cache8 == old(self)@.cache8,
            map_extends(old(self)@.exprs, final(self)@.exprs),
            map_extends(old(self)@.conts, final(self)@.conts),
            final(self)@.syms == old(self)@.syms,
            final(self)@.strs == old(self)@.strs,
            final(self)@.exprs == old(self)@.exprs,
            forall|k: ContPtr| #[trigger]
                final(self)@.conts.contains_key(k) ==> (old(self)@.conts.contains_key(k) || (
                k.tag is Outermost) || (k.tag is Error) || (k.tag is Dummy) || (
                k.tag is Terminal)),
    {
        let ghost s_mid = *self;
        let ghost ko = kptr(ContTag::Outermost, s_mid.outermost_id as int);
        let ghost ke = kptr(ContTag::Error, s_mid.error_id as int);
        let ghost kd = kptr(ContTag::Dummy, s_mid.dummy_id as int);
        let ghost kt = kptr(ContTag::Terminal, s_mid.terminal_id as int);
        self.anchors_set = Ghost(true);
        self.den_cont = Ghost(
            self.den_cont@.insert(ko, ContV::Outermost).insert(ke, ContV::Error).insert(
                kd,
                ContV::Dummy,
            ).insert(kt, ContV::Terminal),
        );
        proof {
            let s = *self;
            let d0 = s_mid.den_cont@;
            let d1 = s.den_cont@;
            assert forall|k: ContPtr| d1.contains_key(k) == s.vck(k) by {
                if k == ko || k == ke || k == kd || k == kt {
                } else {
                    assert(!d0.contains_key(k));
                    match k.tag {
                        ContTag::Outermost => assert(!s.vck(k)),
                        ContTag::Error => assert(!s.vck(k)),
                        ContTag::Dummy => assert(!s.vck(k)),
                        ContTag::Terminal => assert(!s.vck(k)),
                        _ => assert(s.vck(k) == s_mid.vck(k)),
                    }
                }
            }
            assert forall|p: Ptr| s.den_expr@.contains_key(p) == s.vex(p) by {
                assert(s.vex(p) == s_mid.vex(p));
            }
            assert(s.dom_ok());
            assert(s.inj_cont());
            assert(s.inj_expr());
            assert(map_extends(s_mid.den_cont@, s.den_cont@));
            lemma_thunk_tab_mono(
                table_entries(s.thunk_store),
                s.thunk_list@,
                s_mid.den_expr@,
                s.den_expr@,
                s_mid.den_cont@,
                s.den_cont@,
            );
            lemma_simple_tab_mono(
                table_entries(s.simple_store),
                s.simple_list@,
                s_mid.den_cont@,
                s.den_cont@,
            );
            lemma_call_tab_mono(
                table_entries(s.call_store),
                s.call_list@,
                s_mid.den_expr@,
                s.den_expr@,
                s_mid.den_cont@,
                s.den_cont@,
            );
            lemma_call2_tab_mono(
                table_entries(s.call2_store),
                s.call2_list@,
                s_mid.den_expr@,
                s.den_expr@,
                s_mid.den_cont@,
                s.den_cont@,
            );
            lemma_tail_tab_mono(
                table_entries(s.tail_store),
                s.tail_list@,
                s_mid.den_expr@,
                s.den_expr@,
                s_mid.den_cont@,
                s.den_cont@,
            );
            lemma_lookup_tab_mono(
                table_entries(s.lookup_store),
                s.lookup_list@,
                s_mid.den_expr@,
                s.den_expr@,
                s_mid.den_cont@,
                s.den_cont@,
            );
            lemma_unop_tab_mono(
                table_entries(s.unop_store),
                s.unop_list@,
                s_mid.den_cont@,
                s.den_cont@,
            );
            lemma_binop_tab_mono(
                table_entries(s.binop_store),
                s.binop_list@,
                s_mid.den_expr@,
                s.den_expr@,
                s_mid.den_cont@,
                s.den_cont@,
            );
            lemma_binop2_tab_mono(
                table_entries(s.binop2_store),
                s.binop2_list@,
                s_mid.den_expr@,
                s.den_expr@,
                s_mid.den_cont@,
                s.den_cont@,
            );
            lemma_relop_tab_mono(
                table_entries(s.relop_store),
                s.relop_list@,
                s_mid.den_expr@,
                s.den_expr@,
                s_mid.den_cont@,
                s.den_cont@,
            );
            lemma_relop2_tab_mono(
                table_entries(s.relop2_store),
                s.relop2_list@,
                s_mid.den_expr@,
                s.den_expr@,
                s_mid.den_cont@,
                s.den_cont@,
            );
            lemma_if_tab_mono(
                table_entries(s.if_store),
                s.if_list@,
                s_mid.den_expr@,
                s.den_expr@,
                s_mid.den_cont@,
                s.den_cont@,
            );
            lemma_let_star_tab_mono(
                table_entries(s.let_star_store),
                s.let_star_list@,
                s_mid.den_expr@,
                s.den_expr@,
                s_mid.den_cont@,
                s.den_cont@,
            );
            lemma_let_rec_star_tab_mono(
                table_entries(s.let_rec_star_store),
                s.let_rec_star_list@,
                s_mid.den_expr@,
                s.den_expr@,
                s_mid.den_cont@,
                s.den_cont@,
            );
            assert(s.rev_cont_ok()) by {
                assert forall|key: (Seq<u8>, Seq<u8>)|
                    rev_entries(s.scalar_ptr_cont_map).contains_key(key) implies exists|p: ContPtr|
                    s.den_cont@.contains_key(p) && rev_entries(s.scalar_ptr_cont_map)[key]
                        == enc_k(p) && key == crate::model::cont_scalar(s.den_cont@[p]) by {
                    assert(rev_entries(s_mid.scalar_ptr_cont_map).contains_key(key));
                }
            }
            assert(s.wf_base());
            assert(s.preloaded());
        }
    }

    /// A new store, seeded with the well-known symbols in their canonical
    /// order.
    pub fn new() -> (r: Store)
        ensures
            r.wf(),
            sym_names(r@.syms) == preload_names(),
            r@.strs == str_entries_empty(),
            r@.scalar_exprs == rev_empty(),
            r@.scalar_conts == rev_empty(),
            r@.cache4 == cache_empty(),
            r@.cache6 == cache_empty(),
            r@.cache8 == cache_empty(),
            forall|p: Ptr| #[trigger]
                r@.exprs.contains_key(p) ==> ((p.tag is Nil) || (p.tag is Sym)),
            forall|k: ContPtr| #[trigger]
                r@.conts.contains_key(k) ==> ((k.tag is Outermost) || (k.tag is Error) || (
                k.tag is Dummy) || (k.tag is Terminal)),
    {
        let mut s = Store::empty();
        let ghost s_empty = s;
        s.preload_first();
        let ghost s_first = s;
        s.preload_second();
        let ghost s_second = s;
        s.fix_anchors();
        proof {
            assert forall|p: Ptr| s@.exprs.contains_key(p) implies ((p.tag is Nil) || (
            p.tag is Sym)) by {
                assert(s_second@.exprs.contains_key(p));
                if s_first@.exprs.contains_key(p) {
                    assert(s_empty@.exprs.contains_key(p) || (p.tag is Nil) || (p.tag is Sym));
                }
            }
            assert forall|k: ContPtr| s@.conts.contains_key(k) implies ((k.tag is Outermost)
                || (k.tag is Error) || (k.tag is Dummy) || (k.tag is Terminal)) by {
                if s_second@.conts.contains_key(k) {
                    assert(s_second.den_cont@ == s_empty.den_cont@);
                }
            }
        }
        s
    }
}

/// Every table condition survives pure denotation growth, as long as the
/// table itself is unchanged.
proof fn lemma_tabs_preserved(s0: Store, s1: Store)
    requires
        s0.wf_base(),
        map_extends(s0.den_expr@, s1.den_expr@),
        map_extends(s0.den_cont@, s1.den_cont@),
    ensures
        s1.syms() == s0.syms() && s1.nil_id == s0.nil_id ==> sym_den_ok(
            s1.syms(),
            s1.nil_id,
            s1.den_expr@,
        ),
        s1.strs() == s0.strs() ==> str_den_ok(s1.strs(), s1.den_expr@),
        table_entries(s1.cons_store) == table_entries(s0.cons_store) && s1.cons_list@
            == s0.cons_list@ ==> cons_tab_ok(
            table_entries(s1.cons_store),
            s1.cons_list@,
            s1.den_expr@,
        ),
        table_entries(s1.num_store) == table_entries(s0.num_store) && s1.num_list@
            == s0.num_list@ ==> num_tab_ok(
            table_entries(s1.num_store),
            s1.num_list@,
            s1.den_expr@,
        ),
        table_entries(s1.fun_store) == table_entries(s0.fun_store) && s1.fun_list@
            == s0.fun_list@ ==> fun_tab_ok(
            table_entries(s1.fun_store),
            s1.fun_list@,
            s1.den_expr@,
        ),
        table_entries(s1.thunk_store) == table_entries(s0.thunk_store) && s1.thunk_list@
            == s0.thunk_list@ ==> thunk_tab_ok(
            table_entries(s1.thunk_store),
            s1.thunk_list@,
            s1.den_expr@,
            s1.den_cont@,
        ),
        table_entries(s1.simple_store) == table_entries(s0.simple_store) && s1.simple_list@
            == s0.simple_list@ ==> simple_tab_ok(
            table_entries(s1.simple_store),
            s1.simple_list@,
            s1.den_cont@,
        ),
        table_entries(s1.call_store) == table_entries(s0.call_store) && s1.call_list@
            == s0.call_list@ ==> call_tab_ok(
            table_entries(s1.call_store),
            s1.call_list@,
            s1.den_expr@,
            s1.den_cont@,
        ),
        table_entries(s1.call2_store) == table_entries(s0.call2_store) && s1.call2_list@
            == s0.call2_list@ ==> call2_tab_ok(
            table_entries(s1.call2_store),
            s1.call2_list@,
            s1.den_expr@,
            s1.den_cont@,
        ),
        table_entries(s1.tail_store) == table_entries(s0.tail_store) && s1.tail_list@
            == s0.tail_list@ ==> tail_tab_ok(
            table_entries(s1.tail_store),
            s1.tail_list@,
            s1.den_expr@,
            s1.den_cont@,
        ),
        table_entries(s1.lookup_store) == table_entries(s0.lookup_store) && s1.lookup_list@
            == s0.lookup_list@ ==> lookup_tab_ok(
            table_entries(s1.lookup_store),
            s1.lookup_list@,
            s1.den_expr@,
            s1.den_cont@,
        ),
        table_entries(s1.unop_store) == table_entries(s0.unop_store) && s1.unop_list@
            == s0.unop_list@ ==> unop_tab_ok(
            table_entries(s1.unop_store),
            s1.unop_list@,
            s1.den_cont@,
        ),
        table_entries(s1.binop_store) == table_entries(s0.binop_store) && s1.binop_list@
            == s0.binop_list@ ==> binop_tab_ok(
            table_entries(s1.binop_store),
            s1.binop_list@,
            s1.den_expr@,
            s1.den_cont@,
        ),
        table_entries(s1.binop2_store) == table_entries(s0.binop2_store) && s1.binop2_list@
            == s0.binop2_list@ ==> binop2_tab_ok(
            table_entries(s1.binop2_store),
            s1.binop2_list@,
            s1.den_expr@,
            s1.den_cont@,
        ),
        table_entries(s1.relop_store) == table_entries(s0.relop_store) && s1.relop_list@
            == s0.relop_list@ ==> relop_tab_ok(
            table_entries(s1.relop_store),
            s1.relop_list@,
            s1.den_expr@,
            s1.den_cont@,
        ),
        table_entries(s1.relop2_store) == table_entries(s0.relop2_store) && s1.relop2_list@
            == s0.relop2_list@ ==> relop2_tab_ok(
            table_entries(s1.relop2_store),
            s1.relop2_list@,
            s1.den_expr@,
            s1.den_cont@,
        ),
        table_entries(s1.if_store) == table_entries(s0.if_store) && s1.if_list@ == s0.if_list@
            ==> if_tab_ok(table_entries(s1.if_store), s1.if_list@, s1.den_expr@, s1.den_cont@),
        table_entries(s1.let_star_store) == table_entries(s0.let_star_store) && s1.let_star_list@
            == s0.let_star_list@ ==> let_star_tab_ok(
            table_entries(s1.let_star_store),
            s1.let_star_list@,
            s1.den_expr@,
            s1.den_cont@,
        ),
        table_entries(s1.let_rec_star_store) == table_entries(s0.let_rec_star_store)
            && s1.let_rec_star_list@ == s0.let_rec_star_list@ ==> let_rec_star_tab_ok(
            table_entries(s1.let_rec_star_store),
            s1.let_rec_star_list@,
            s1.den_expr@,
            s1.den_cont@,
        ),
{
    if s1.syms() == s0.syms() && s1.nil_id == s0.nil_id {
        lemma_sym_den_mono(s0.syms(), s0.nil_id, s0.den_expr@, s1.den_expr@);
    }
    if s1.strs() == s0.strs() {
        lemma_str_den_mono(s0.strs(), s0.den_expr@, s1.den_expr@);
    }
    if table_entries(s1.cons_store) == table_entries(s0.cons_store) && s1.cons_list@
        == s0.cons_list@ {
        lemma_cons_tab_mono(
            table_entries(s0.cons_store),
            s0.cons_list@,
            s0.den_expr@,
            s1.den_expr@,
        );
    }
    if table_entries(s1.num_store) == table_entries(s0.num_store) && s1.num_list@
        == s0.num_list@ {
        lemma_num_tab_mono(table_entries(s0.num_store), s0.num_list@, s0.den_expr@, s1.den_expr@);
    }
    if table_entries(s1.fun_store) == table_entries(s0.fun_store) && s1.fun_list@
        == s0.fun_list@ {
        lemma_fun_tab_mono(table_entries(s0.fun_store), s0.fun_list@, s0.den_expr@, s1.den_expr@);
    }
    if table_entries(s1.thunk_store) == table_entries(s0.thunk_store) && s1.thunk_list@
        == s0.thunk_list@ {
        lemma_thunk_tab_mono(
            table_entries(s0.thunk_store),
            s0.thunk_list@,
            s0.den_expr@,
            s1.den_expr@,
            s0.den_cont@,
            s1.den_cont@,
        );
    }
    if table_entries(s1.simple_store) == table_entries(s0.simple_store) && s1.simple_list@
        == s0.simple_list@ {
        lemma_simple_tab_mono(
            table_entries(s0.simple_store),
            s0.simple_list@,
            s0.den_cont@,
            s1.den_cont@,
        );
    }
    if table_entries(s1.call_store) == table_entries(s0.call_store) && s1.call_list@
        == s0.call_list@ {
        lemma_call_tab_mono(
            table_entries(s0.call_store),
            s0.call_list@,
            s0.den_expr@,
            s1.den_expr@,
            s0.den_cont@,
            s1.den_cont@,
        );
    }
    if table_entries(s1.call2_store) == table_entries(s0.call2_store) && s1.call2_list@
        == s0.call2_list@ {
        lemma_call2_tab_mono(
            table_entries(s0.call2_store),
            s0.call2_list@,
            s0.den_expr@,
            s1.den_expr@,
            s0.den_cont@,
            s1.den_cont@,
        );
    }
    if table_entries(s1.tail_store) == table_entries(s0.tail_store) && s1.tail_list@
        == s0.tail_list@ {
        lemma_tail_tab_mono(
            table_entries(s0.tail_store),
            s0.tail_list@,
            s0.den_expr@,
            s1.den_expr@,
            s0.den_cont@,
            s1.den_cont@,
        );
    }
    if table_entries(s1.lookup_store) == table_entries(s0.lookup_store) && s1.lookup_list@
        == s0.lookup_list@ {
        lemma_lookup_tab_mono(
            table_entries(s0.lookup_store),
            s0.lookup_list@,
            s0.den_expr@,
            s1.den_expr@,
            s0.den_cont@,
            s1.den_cont@,
        );
    }
    if table_entries(s1.unop_store) == table_entries(s0.unop_store) && s1.unop_list@
        == s0.unop_list@ {
        lemma_unop_tab_mono(
            table_entries(s0.unop_store),
            s0.unop_list@,
            s0.den_cont@,
            s1.den_cont@,
        );
    }
    if table_entries(s1.binop_store) == table_entries(s0.binop_store) && s1.binop_list@
        == s0.binop_list@ {
        lemma_binop_tab_mono(
            table_entries(s0.binop_store),
            s0.binop_list@,
            s0.den_expr@,
            s1.den_expr@,
            s0.den_cont@,
            s1.den_cont@,
        );
    }
    if table_entries(s1.binop2_store) == table_entries(s0.binop2_store) && s1.binop2_list@
        == s0.binop2_list@ {
        lemma_binop2_tab_mono(
            table_entries(s0.binop2_store),
            s0.binop2_list@,
            s0.den_expr@,
            s1.den_expr@,
            s0.den_cont@,
            s1.den_cont@,
        );
    }
    if table_entries(s1.relop_store) == table_entries(s0.relop_store) && s1.relop_list@
        == s0.relop_list@ {
        lemma_relop_tab_mono(
            table_entries(s0.relop_store),
            s0.relop_list@,
            s0.den_expr@,
            s1.den_expr@,
            s0.den_cont@,
            s1.den_cont@,
        );
    }
    if table_entries(s1.relop2_store) == table_entries(s0.relop2_store) && s1.relop2_list@
        == s0.relop2_list@ {
        lemma_relop2_tab_mono(
            table_entries(s0.relop2_store),
            s0.relop2_list@,
            s0.den_expr@,
            s1.den_expr@,
            s0.den_cont@,
            s1.den_cont@,
        );
    }
    if table_entries(s1.if_store) == table_entries(s0.if_store) && s1.if_list@ == s0.if_list@ {
        lemma_if_tab_mono(
            table_entries(s0.if_store),
            s0.if_list@,
            s0.den_expr@,
            s1.den_expr@,
            s0.den_cont@,
            s1.den_cont@,
        );
    }
    if table_entries(s1.let_star_store) == table_entries(s0.let_star_store) && s1.let_star_list@
        == s0.let_star_list@ {
        lemma_let_star_tab_mono(
            table_entries(s0.let_star_store),
            s0.let_star_list@,
            s0.den_expr@,
            s1.den_expr@,
            s0.den_cont@,
            s1.den_cont@,
        );
    }
    if table_entries(s1.let_rec_star_store) == table_entries(s0.let_rec_star_store)
        && s1.let_rec_star_list@ == s0.let_rec_star_list@ {
        lemma_let_rec_star_tab_mono(
            table_entries(s0.let_rec_star_store),
            s0.let_rec_star_list@,
            s0.den_expr@,
            s1.den_expr@,
            s0.den_cont@,
            s1.den_cont@,
        );
    }
}

impl Store {
    fn eptr_words(p: &Ptr) -> (r: (u64, u64))
        ensures
            r == enc_e(*p),
    {
        (p.tag.to_u64(), p.raw.idx as u64)
    }

    fn kptr_words(k: &ContPtr) -> (r: (u64, u64))
        ensures
            r == enc_k(*k),
    {
        (k.tag.to_u64(), k.raw.idx as u64)
    }

    fn mk_key_cons(a: &Ptr, b: &Ptr) -> (k: Key8)
        ensures
            k == key_cons(*a, *b),
    {
        let x = Self::eptr_words(a);
        let y = Self::eptr_words(b);
        (x.0, x.1, y.0, y.1, 0, 0, 0, 0)
    }

    /// Interns a cons cell: structurally equal pairs share one slot.
    pub fn intern_cons(&mut self, car: Ptr, cdr: Ptr) -> (r: Ptr)
        requires
            old(self).wf(),
            old(self)@.exprs.contains_key(car),
            old(self)@.exprs.contains_key(cdr),
        ensures
            final(self).wf(),
            r.tag is Cons,
            final(self)@.exprs.contains_key(r),
            final(self)@.exprs[r] == ExprV::Cons(
                Box::new(old(self)@.exprs[car]),
                Box::new(old(self)@.exprs[cdr]),
            ),
            final(self)@.exprs == old(self)@.exprs.insert(
                r,
                ExprV::Cons(Box::new(old(self)@.exprs[car]), Box::new(old(self)@.exprs[cdr])),
            ),
            final(self)@.conts == old(self)@.conts,
            final(self)@.syms == old(self)@.syms,
            final(self)@.strs == old(self)@.strs,
            final(self)@.scalar_exprs == old(self)@.scalar_exprs,
            final(self)@.scalar_conts == old(self)@.scalar_conts,
            final(self)@.cache4 == old(self)@.cache4,
            final(self)@.cache6 == old(self)@.cache6,
            final(self)@.cache8 == old(self)@.cache8,
            map_extends(old(self)@.exprs, final(self)@.exprs),
            map_extends(old(self)@.conts, final(self)@.conts),
    {
        let ghost s0 = *self;
        let ghost v = ExprV::Cons(
            Box::new(s0.den_expr@[car]),
            Box::new(s0.den_expr@[cdr]),
        );
        let k = Self::mk_key_cons(&car, &cdr);
        let n = table_len(&self.cons_store);
        let idx = table_insert(&mut self.cons_store, k);
        let r = Ptr::new(Tag::Cons, RawPtr::new(idx));
        if idx < n {
            proof {
                assert(table_entries(s0.cons_store).contains(k));
                assert(cons_entry_ok(
                    table_entries(s0.cons_store),
                    s0.cons_list@,
                    s0.den_expr@,
                    idx as int,
                ));
                let a = s0.cons_list@[idx as int].0;
                let b = s0.cons_list@[idx as int].1;
                assert(key_cons(a, b) == key_cons(car, cdr));
                assert(enc_e(a) == enc_e(car));
                assert(enc_e(b) == enc_e(cdr));
                lemma_enc_e_inj(a, car);
                lemma_enc_e_inj(b, cdr);
                assert(s0.den_expr@[pcons(idx as int)] == v);
                assert(r == pcons(idx as int));
                assert(self.den_expr@ =~= s0.den_expr@.insert(r, v));
            }
            r
        } else {
            proof {
                assert(!table_entries(s0.cons_store).contains(k));
                assert(idx == n);
            }
            self.cons_list = Ghost(self.cons_list@.push((car, cdr)));
            self.den_expr = Ghost(self.den_expr@.insert(r, v));
            proof {
                let e0 = table_entries(s0.cons_store);
                let e1 = table_entries(self.cons_store);
                let l0 = s0.cons_list@;
                let l1 = self.cons_list@;
                assert(e1 == e0.push(k));
                assert(l1 == l0.push((car, cdr)));
                assert(!s0.vex(r));
                // validity grows by exactly the new pointer
                assert forall|p: Ptr|
                    #![trigger self.vex(p)]
                    #![trigger s0.vex(p)]
                    self.vex(p) <==> (s0.vex(p) || p == r) by {
                    match p.tag {
                        Tag::Cons => {
                            if p.raw.idx == n {
                                assert(p == r);
                            }
                        },
                        _ => {},
                    }
                }
                assert forall|kk: ContPtr|
                    #![trigger self.vck(kk)]
                    #![trigger s0.vck(kk)]
                    self.vck(kk) <==> s0.vck(kk) by {}
                // no old tree equals the new cons tree
                assert forall|q: Ptr|
                    #![trigger s0.den_expr@[q]]
                    s0.den_expr@.contains_key(q) implies s0.den_expr@[q] != v by {
                    assert(s0.vex(q));
                    s0.lemma_tag_agree_expr(q);
                    if s0.den_expr@[q] == v {
                        assert(q.tag is Cons);
                        let jq = q.raw.idx as int;
                        assert(cons_entry_ok(e0, l0, s0.den_expr@, jq));
                        assert(s0.den_expr@[pcons(jq)] == ExprV::Cons(
                            Box::new(s0.den_expr@[l0[jq].0]),
                            Box::new(s0.den_expr@[l0[jq].1]),
                        ));
                        assert(q == pcons(jq));
                        assert(s0.den_expr@[l0[jq].0] == s0.den_expr@[car]);
                        assert(s0.den_expr@[l0[jq].1] == s0.den_expr@[cdr]);
                        assert(l0[jq].0 == car);
                        assert(l0[jq].1 == cdr);
                        assert(e0[jq] == k);
                        assert(e0.contains(k));
                    }
                }
                lemma_den_insert_expr(s0, *self, r, v);
                lemma_tabs_preserved(s0, *self);
                // the grown cons table
                assert forall|j: int| 0 <= j < l1.len() implies cons_entry_ok(
                    e1,
                    l1,
                    self.den_expr@,
                    j,
                ) by {
                    if j < l0.len() {
                        assert(cons_entry_ok(e0, l0, s0.den_expr@, j));
                        assert(e1[j] == e0[j]);
                        assert(l1[j] == l0[j]);
                        assert(s0.den_expr@.contains_key(l0[j].0));
                        assert(s0.den_expr@.contains_key(l0[j].1));
                        assert(s0.den_expr@.contains_key(pcons(j)));
                    } else {
                        assert(j == l0.len());
                        assert(e1[j] == k);
                        assert(l1[j] == (car, cdr));
                        assert(self.den_expr@[car] == s0.den_expr@[car]);
                        assert(self.den_expr@[cdr] == s0.den_expr@[cdr]);
                        assert(pcons(j) == r);
                    }
                }
                assert(self.wf_base());
                assert(self.preloaded());
            }
            r
        }
    }
}


proof fn lemma_op1_inj(a: Op1, b: Op1)
    requires
        op1_u64(a) == op1_u64(b),
    ensures
        a == b,
{
    match a {
        Op1::Car => assert(b is Car),
        Op1::Cdr => assert(b is Cdr),
        Op1::Atom => assert(b is Atom),
    }
}

proof fn lemma_op2_inj(a: Op2, b: Op2)
    requires
        op2_u64(a) == op2_u64(b),
    ensures
        a == b,
{
    match a {
        Op2::Sum => assert(b is Sum),
        Op2::Diff => assert(b is Diff),
        Op2::Product => assert(b is Product),
        Op2::Quotient => assert(b is Quotient),
        Op2::Cons => assert(b is Cons),
    }
}

proof fn lemma_rel2_inj(a: Rel2, b: Rel2)
    requires
        rel2_u64(a) == rel2_u64(b),
    ensures
        a == b,
{
    match a {
        Rel2::Equal => assert(b is Equal),
        Rel2::NumEqual => assert(b is NumEqual),
    }
}

impl Store {
    /// Interns a number: equal values share one slot; the value is its own hash.
    pub fn intern_num(&mut self, m: Num) -> (r: Ptr)
        requires
            old(self).wf(),

        ensures
            final(self).wf(),
            r.tag is Num,
            final(self)@.exprs.contains_key(r),
            final(self)@.exprs[r] == ExprV::Num(m.val),
            final(self)@.exprs == old(self)@.exprs.insert(
                r,
                ExprV::Num(m.val),
            ),
            final(self)@.conts == old(self)@.conts,
            final(self)@.syms == old(self)@.syms,
            final(self)@.strs == old(self)@.strs,
            final(self)@.scalar_exprs == old(self)@.scalar_exprs,
            final(self)@.scalar_conts == old(self)@.scalar_conts,
            final(self)@.cache4 == old(self)@.cache4,
            final(self)@.cache6 == old(self)@.cache6,
            final(self)@.cache8 == old(self)@.cache8,
            map_extends(old(self)@.exprs, final(self)@.exprs),
            map_extends(old(self)@.conts, final(self)@.conts),
    {
        let ghost s0 = *self;
        let ghost v = ExprV::Num(m.val);
        let k = (m.val, 0u64, 0u64, 0u64, 0u64, 0u64, 0u64, 0u64);
        proof {
            assert(k == key_num(m.val));
        }
        let n = table_len(&self.num_store);
        let idx = table_insert(&mut self.num_store, k);
        let r = Ptr::new(Tag::Num, RawPtr::new(idx));
        if idx < n {
            proof {
                assert(table_entries(s0.num_store).contains(k));
                assert(num_entry_ok(
                    table_entries(s0.num_store), s0.num_list@, s0.den_expr@,
                    idx as int,
                ));
                assert(s0.num_list@[idx as int] == m.val);
                assert(s0.den_expr@[pnum(idx as int)] == v);
                assert(r == pnum(idx as int));
                assert(self.den_expr@ =~= s0.den_expr@.insert(r, v));
            }
            r
        } else {
            proof {
                assert(!table_entries(s0.num_store).contains(k));
                assert(idx == n);
            }
            self.num_list = Ghost(self.num_list@.push(m.val));
            self.den_expr = Ghost(self.den_expr@.insert(r, v));
            proof {
                let e0 = table_entries(s0.num_store);
                let e1 = table_entries(self.num_store);
                let l0 = s0.num_list@;
                let l1 = self.num_list@;
                assert(e1 == e0.push(k));
                assert(l1 == l0.push(m.val));
                assert(!s0.vex(r));
                assert forall|p: Ptr|
                    #![trigger self.vex(p)]
                    #![trigger s0.vex(p)]
                    self.vex(p) <==> (s0.vex(p) || p == r) by {
                    match p.tag {
                        Tag::Num => {
                            if p.raw.idx == n {
                                assert(p == r);
                            }
                        },
                        _ => {},
                    }
                }
                assert forall|kk: ContPtr|
                    #![trigger self.vck(kk)]
                    #![trigger s0.vck(kk)]
                    self.vck(kk) <==> s0.vck(kk) by {}
                assert forall|q: Ptr|
                    #![trigger s0.den_expr@[q]]
                    s0.den_expr@.contains_key(q) implies s0.den_expr@[q] != v by {
                    assert(s0.vex(q));
                    s0.lemma_tag_agree_expr(q);
                    if s0.den_expr@[q] == v {
                        assert(q.tag is Num);
                        let jq = q.raw.idx as int;
                        assert(num_entry_ok(
                            e0, l0, s0.den_expr@,
                            jq,
                        ));
                        assert(q == pnum(jq));
                        assert(l0[jq] == m.val);
                        assert(e0[jq] == k);
                        assert(e0.contains(k));
                    }
                }
                lemma_den_insert_expr(s0, *self, r, v);
                lemma_tabs_preserved(s0, *self);
                assert forall|j: int| 0 <= j < l1.len() implies num_entry_ok(
                    e1, l1, self.den_expr@,
                    j,
                ) by {
                    if j < l0.len() {
                        assert(num_entry_ok(
                            e0, l0, s0.den_expr@,
                            j,
                        ));
                        assert(e1[j] == e0[j]);
                        assert(l1[j] == l0[j]);
                    } else {
                        assert(j == l0.len());
                        assert(e1[j] == k);
                        assert(l1[j] == m.val);

                        assert(pnum(j) == r);
                    }
                }
                assert(self.wf_base());
                assert(self.preloaded());
            }
            r
        }
    }

    /// Interns a function node.  The argument must be a symbol.
    pub fn intern_fun(&mut self, arg: Ptr, body: Ptr, closed_env: Ptr) -> (r: Ptr)
        requires
            old(self).wf(),
            old(self)@.exprs.contains_key(arg),
            old(self)@.exprs.contains_key(body),
            old(self)@.exprs.contains_key(closed_env),
            arg.tag is Sym,
        ensures
            final(self).wf(),
            r.tag is Fun,
            final(self)@.exprs.contains_key(r),
            final(self)@.exprs[r] == ExprV::Fun(Box::new(old(self)@.exprs[arg]), Box::new(old(self)@.exprs[body]), Box::new(old(self)@.exprs[closed_env])),
            final(self)@.exprs == old(self)@.exprs.insert(
                r,
                ExprV::Fun(Box::new(old(self)@.exprs[arg]), Box::new(old(self)@.exprs[body]), Box::new(old(self)@.exprs[closed_env])),
            ),
            final(self)@.conts == old(self)@.conts,
            final(self)@.syms == old(self)@.syms,
            final(self)@.strs == old(self)@.strs,
            final(self)@.scalar_exprs == old(self)@.scalar_exprs,
            final(self)@.scalar_conts == old(self)@.scalar_conts,
            final(self)@.cache4 == old(self)@.cache4,
            final(self)@.cache6 == old(self)@.cache6,
            final(self)@.cache8 == old(self)@.cache8,
            map_extends(old(self)@.exprs, final(self)@.exprs),
            map_extends(old(self)@.conts, final(self)@.conts),
    {
        let ghost s0 = *self;
        let ghost v = ExprV::Fun(Box::new(s0.den_expr@[arg]), Box::new(s0.den_expr@[body]), Box::new(s0.den_expr@[closed_env]));
        let x = Self::eptr_words(&arg);
        let y = Self::eptr_words(&body);
        let z = Self::eptr_words(&closed_env);
        let k = (x.0, x.1, y.0, y.1, z.0, z.1, 0u64, 0u64);
        proof {
            assert(k == key_fun(arg, body, closed_env));
        }
        let n = table_len(&self.fun_store);
        let idx = table_insert(&mut self.fun_store, k);
        let r = Ptr::new(Tag::Fun, RawPtr::new(idx));
        if idx < n {
            proof {
                assert(table_entries(s0.fun_store).contains(k));
                assert(fun_entry_ok(
                    table_entries(s0.fun_store), s0.fun_list@, s0.den_expr@,
                    idx as int,
                ));
                assert(enc_e(s0.fun_list@[idx as int].0) == enc_e(arg));
                lemma_enc_e_inj(s0.fun_list@[idx as int].0, arg);
                assert(enc_e(s0.fun_list@[idx as int].1) == enc_e(body));
                lemma_enc_e_inj(s0.fun_list@[idx as int].1, body);
                assert(enc_e(s0.fun_list@[idx as int].2) == enc_e(closed_env));
                lemma_enc_e_inj(s0.fun_list@[idx as int].2, closed_env);
                assert(s0.den_expr@[pfun(idx as int)] == v);
                assert(r == pfun(idx as int));
                assert(self.den_expr@ =~= s0.den_expr@.insert(r, v));
            }
            r
        } else {
            proof {
                assert(!table_entries(s0.fun_store).contains(k));
                assert(idx == n);
            }
            self.fun_list = Ghost(self.fun_list@.push((arg, body, closed_env)));
            self.den_expr = Ghost(self.den_expr@.insert(r, v));
            proof {
                let e0 = table_entries(s0.fun_store);
                let e1 = table_entries(self.fun_store);
                let l0 = s0.fun_list@;
                let l1 = self.fun_list@;
                assert(e1 == e0.push(k));
                assert(l1 == l0.push((arg, body, closed_env)));
                assert(!s0.vex(r));
                assert forall|p: Ptr|
                    #![trigger self.vex(p)]
                    #![trigger s0.vex(p)]
                    self.vex(p) <==> (s0.vex(p) || p == r) by {
                    match p.tag {
                        Tag::Fun => {
                            if p.raw.idx == n {
                                assert(p == r);
                            }
                        },
                        _ => {},
                    }
                }
                assert forall|kk: ContPtr|
                    #![trigger self.vck(kk)]
                    #![trigger s0.vck(kk)]
                    self.vck(kk) <==> s0.vck(kk) by {}
                assert forall|q: Ptr|
                    #![trigger s0.den_expr@[q]]
                    s0.den_expr@.contains_key(q) implies s0.den_expr@[q] != v by {
                    assert(s0.vex(q));
                    s0.lemma_tag_agree_expr(q);
                    if s0.den_expr@[q] == v {
                        assert(q.tag is Fun);
                        let jq = q.raw.idx as int;
                        assert(fun_entry_ok(
                            e0, l0, s0.den_expr@,
                            jq,
                        ));
                        assert(q == pfun(jq));
                        assert(s0.den_expr@[l0[jq].0] == s0.den_expr@[arg]);
                        assert(l0[jq].0 == arg);
                        assert(s0.den_expr@[l0[jq].1] == s0.den_expr@[body]);
                        assert(l0[jq].1 == body);
                        assert(s0.den_expr@[l0[jq].2] == s0.den_expr@[closed_env]);
                        assert(l0[jq].2 == closed_env);
                        assert(e0[jq] == k);
                        assert(e0.contains(k));
                    }
                }
                lemma_den_insert_expr(s0, *self, r, v);
                lemma_tabs_preserved(s0, *self);
                assert forall|j: int| 0 <= j < l1.len() implies fun_entry_ok(
                    e1, l1, self.den_expr@,
                    j,
                ) by {
                    if j < l0.len() {
                        assert(fun_entry_ok(
                            e0, l0, s0.den_expr@,
                            j,
                        ));
                        assert(e1[j] == e0[j]);
                        assert(l1[j] == l0[j]);
                    } else {
                        assert(j == l0.len());
                        assert(e1[j] == k);
                        assert(l1[j] == (arg, body, closed_env));
                        assert(self.den_expr@[arg] == s0.den_expr@[arg]);
                        assert(self.den_expr@[body] == s0.den_expr@[body]);
                        assert(self.den_expr@[closed_env] == s0.den_expr@[closed_env]);
                        assert(pfun(j) == r);
                    }
                }
                assert(self.wf_base());
                assert(self.preloaded());
            }
            r
        }
    }

    /// Interns a thunk: a suspended value with its continuation.
    pub fn intern_thunk(&mut self, t: Thunk) -> (r: Ptr)
        requires
            old(self).wf(),
            old(self)@.exprs.contains_key(t.value),
            old(self)@.conts.contains_key(t.continuation),
        ensures
            final(self).wf(),
            r.tag is Thunk,
            final(self)@.exprs.contains_key(r),
            final(self)@.exprs[r] == ExprV::Thunk(Box::new(old(self)@.exprs[t.value]), Box::new(old(self)@.conts[t.continuation])),
            final(self)@.exprs == old(self)@.exprs.insert(
                r,
                ExprV::Thunk(Box::new(old(self)@.exprs[t.value]), Box::new(old(self)@.conts[t.continuation])),
            ),
            final(self)@.conts == old(self)@.conts,
            final(self)@.syms == old(self)@.syms,
            final(self)@.strs == old(self)@.strs,
            final(self)@.scalar_exprs == old(self)@.scalar_exprs,
            final(self)@.scalar_conts == old(self)@.scalar_conts,
            final(self)@.cache4 == old(self)@.cache4,
            final(self)@.cache6 == old(self)@.cache6,
            final(self)@.cache8 == old(self)@.cache8,
            map_extends(old(self)@.exprs, final(self)@.exprs),
            map_extends(old(self)@.conts, final(self)@.conts),
    {
        let ghost s0 = *self;
        let ghost v = ExprV::Thunk(Box::new(s0.den_expr@[t.value]), Box::new(s0.den_cont@[t.continuation]));
        let x = Self::eptr_words(&t.value);
        let z = Self::kptr_words(&t.continuation);
        let k = (x.0, x.1, z.0, z.1, 0u64, 0u64, 0u64, 0u64);
        proof {
            assert(k == key_e_k(t.value, t.continuation));
        }
        let n = table_len(&self.thunk_store);
        let idx = table_insert(&mut self.thunk_store, k);
        let r = Ptr::new(Tag::Thunk, RawPtr::new(idx));
        if idx < n {
            proof {
                assert(table_entries(s0.thunk_store).contains(k));
                assert(thunk_entry_ok(
                    table_entries(s0.thunk_store), s0.thunk_list@, s0.den_expr@, s0.den_cont@,
                    idx as int,
                ));
                assert(enc_e(s0.thunk_list@[idx as int].0) == enc_e(t.value));
                lemma_enc_e_inj(s0.thunk_list@[idx as int].0, t.value);
                assert(enc_k(s0.thunk_list@[idx as int].1) == enc_k(t.continuation));
                lemma_enc_k_inj(s0.thunk_list@[idx as int].1, t.continuation);
                assert(s0.den_expr@[pthunk(idx as int)] == v);
                assert(r == pthunk(idx as int));
                assert(self.den_expr@ =~= s0.den_expr@.insert(r, v));
            }
            r
        } else {
            proof {
                assert(!table_entries(s0.thunk_store).contains(k));
                assert(idx == n);
            }
            self.thunk_list = Ghost(self.thunk_list@.push((t.value, t.continuation)));
            self.den_expr = Ghost(self.den_expr@.insert(r, v));
            proof {
                let e0 = table_entries(s0.thunk_store);
                let e1 = table_entries(self.thunk_store);
                let l0 = s0.thunk_list@;
                let l1 = self.thunk_list@;
                assert(e1 == e0.push(k));
                assert(l1 == l0.push((t.value, t.continuation)));
                assert(!s0.vex(r));
                assert forall|p: Ptr|
                    #![trigger self.vex(p)]
                    #![trigger s0.vex(p)]
                    self.vex(p) <==> (s0.vex(p) || p == r) by {
                    match p.tag {
                        Tag::Thunk => {
                            if p.raw.idx == n {
                                assert(p == r);
                            }
                        },
                        _ => {},
                    }
                }
                assert forall|kk: ContPtr|
                    #![trigger self.vck(kk)]
                    #![trigger s0.vck(kk)]
                    self.vck(kk) <==> s0.vck(kk) by {}
                assert forall|q: Ptr|
                    #![trigger s0.den_expr@[q]]
                    s0.den_expr@.contains_key(q) implies s0.den_expr@[q] != v by {
                    assert(s0.vex(q));
                    s0.lemma_tag_agree_expr(q);
                    if s0.den_expr@[q] == v {
                        assert(q.tag is Thunk);
                        let jq = q.raw.idx as int;
                        assert(thunk_entry_ok(
                            e0, l0, s0.den_expr@, s0.den_cont@,
                            jq,
                        ));
                        assert(q == pthunk(jq));
                        assert(s0.den_expr@[l0[jq].0] == s0.den_expr@[t.value]);
                        assert(l0[jq].0 == t.value);
                        assert(s0.den_cont@[l0[jq].1] == s0.den_cont@[t.continuation]);
                        assert(l0[jq].1 == t.continuation);
                        assert(e0[jq] == k);
                        assert(e0.contains(k));
                    }
                }
                lemma_den_insert_expr(s0, *self, r, v);
                lemma_tabs_preserved(s0, *self);
                assert forall|j: int| 0 <= j < l1.len() implies thunk_entry_ok(
                    e1, l1, self.den_expr@, self.den_cont@,
                    j,
                ) by {
                    if j < l0.len() {
                        assert(thunk_entry_ok(
                            e0, l0, s0.den_expr@, s0.den_cont@,
                            j,
                        ));
                        assert(e1[j] == e0[j]);
                        assert(l1[j] == l0[j]);
                    } else {
                        assert(j == l0.len());
                        assert(e1[j] == k);
                        assert(l1[j] == (t.value, t.continuation));
                        assert(self.den_expr@[t.value] == s0.den_expr@[t.value]);
                        assert(self.den_cont@[t.continuation] == s0.den_cont@[t.continuation]);
                        assert(pthunk(j) == r);
                    }
                }
                assert(self.wf_base());
                assert(self.preloaded());
            }
            r
        }
    }

    /// Interns a call continuation: the unevaluated argument, the saved env, and the next frame.
    pub fn intern_cont_call(&mut self, a: Ptr, b: Ptr, c: ContPtr) -> (r: ContPtr)
        requires
            old(self).wf(),
            old(self)@.exprs.contains_key(a),
            old(self)@.exprs.contains_key(b),
            old(self)@.conts.contains_key(c),
        ensures
            final(self).wf(),
            r.tag is Call,
            final(self)@.conts.contains_key(r),
            final(self)@.conts[r] == ContV::Call(Box::new(old(self)@.exprs[a]), Box::new(old(self)@.exprs[b]), Box::new(old(self)@.conts[c])),
            final(self)@.conts == old(self)@.conts.insert(
                r,
                ContV::Call(Box::new(old(self)@.exprs[a]), Box::new(old(self)@.exprs[b]), Box::new(old(self)@.conts[c])),
            ),
            final(self)@.exprs == old(self)@.exprs,
            final(self)@.syms == old(self)@.syms,
            final(self)@.strs == old(self)@.strs,
            final(self)@.scalar_exprs == old(self)@.scalar_exprs,
            final(self)@.scalar_conts == old(self)@.scalar_conts,
            final(self)@.cache4 == old(self)@.cache4,
            final(self)@.cache6 == old(self)@.cache6,
            final(self)@.cache8 == old(self)@.cache8,
            map_extends(old(self)@.exprs, final(self)@.exprs),
            map_extends(old(self)@.conts, final(self)@.conts),
    {
        let ghost s0 = *self;
        let ghost v = ContV::Call(Box::new(s0.den_expr@[a]), Box::new(s0.den_expr@[b]), Box::new(s0.den_cont@[c]));
        let x = Self::eptr_words(&a);
        let y = Self::eptr_words(&b);
        let z = Self::kptr_words(&c);
        let k = (x.0, x.1, y.0, y.1, z.0, z.1, 0u64, 0u64);
        proof {
            assert(k == key_ee_k(a, b, c));
        }
        let n = table_len(&self.call_store);
        let idx = table_insert(&mut self.call_store, k);
        let r = ContPtr::new(ContTag::Call, RawPtr::new(idx));
        if idx < n {
            proof {
                assert(table_entries(s0.call_store).contains(k));
                assert(call_entry_ok(
                    table_entries(s0.call_store), s0.call_list@, s0.den_expr@, s0.den_cont@,
                    idx as int,
                ));
                assert(enc_e(s0.call_list@[idx as int].0) == enc_e(a));
                lemma_enc_e_inj(s0.call_list@[idx as int].0, a);
                assert(enc_e(s0.call_list@[idx as int].1) == enc_e(b));
                lemma_enc_e_inj(s0.call_list@[idx as int].1, b);
                assert(enc_k(s0.call_list@[idx as int].2) == enc_k(c));
                lemma_enc_k_inj(s0.call_list@[idx as int].2, c);
                assert(s0.den_cont@[kptr(ContTag::Call, idx as int)] == v);
                assert(r == kptr(ContTag::Call, idx as int));
                assert(self.den_cont@ =~= s0.den_cont@.insert(r, v));
            }
            r
        } else {
            proof {
                assert(!table_entries(s0.call_store).contains(k));
                assert(idx == n);
            }
            self.call_list = Ghost(self.call_list@.push((a, b, c)));
            self.den_cont = Ghost(self.den_cont@.insert(r, v));
            proof {
                let e0 = table_entries(s0.call_store);
                let e1 = table_entries(self.call_store);
                let l0 = s0.call_list@;
                let l1 = self.call_list@;
                assert(e1 == e0.push(k));
                assert(l1 == l0.push((a, b, c)));
                assert(!s0.vck(r));
                assert forall|p: Ptr|
                    #![trigger self.vex(p)]
                    #![trigger s0.vex(p)]
                    self.vex(p) <==> s0.vex(p) by {}
                assert forall|kk: ContPtr|
                    #![trigger self.vck(kk)]
                    #![trigger s0.vck(kk)]
                    self.vck(kk) <==> (s0.vck(kk) || kk == r) by {
                    match kk.tag {
                        ContTag::Call => {
                            if kk.raw.idx == n {
                                assert(kk == r);
                            }
                        },
                        _ => {},
                    }
                }
                assert forall|q: ContPtr|
                    #![trigger s0.den_cont@[q]]
                    s0.den_cont@.contains_key(q) implies s0.den_cont@[q] != v by {
                    assert(s0.vck(q));
                    s0.lemma_tag_agree_cont(q);
                    if s0.den_cont@[q] == v {
                        assert(q.tag is Call);
                        let jq = q.raw.idx as int;
                        assert(call_entry_ok(
                            e0, l0, s0.den_expr@, s0.den_cont@,
                            jq,
                        ));
                        assert(q == kptr(ContTag::Call, jq));
                        assert(s0.den_expr@[l0[jq].0] == s0.den_expr@[a]);
                        assert(l0[jq].0 == a);
                        assert(s0.den_expr@[l0[jq].1] == s0.den_expr@[b]);
                        assert(l0[jq].1 == b);
                        assert(s0.den_cont@[l0[jq].2] == s0.den_cont@[c]);
                        assert(l0[jq].2 == c);
                        assert(e0[jq] == k);
                        assert(e0.contains(k));
                    }
                }
                lemma_den_insert_cont(s0, *self, r, v);
                lemma_tabs_preserved(s0, *self);
                assert forall|j: int| 0 <= j < l1.len() implies call_entry_ok(
                    e1, l1, self.den_expr@, self.den_cont@,
                    j,
                ) by {
                    if j < l0.len() {
                        assert(call_entry_ok(
                            e0, l0, s0.den_expr@, s0.den_cont@,
                            j,
                        ));
                        assert(e1[j] == e0[j]);
                        assert(l1[j] == l0[j]);
                    } else {
                        assert(j == l0.len());
                        assert(e1[j] == k);
                        assert(l1[j] == (a, b, c));
                        assert(self.den_expr@[a] == s0.den_expr@[a]);
                        assert(self.den_expr@[b] == s0.den_expr@[b]);
                        assert(self.den_cont@[c] == s0.den_cont@[c]);
                        assert(kptr(ContTag::Call, j) == r);
                    }
                }
                assert(self.wf_base());
                assert(self.preloaded());
            }
            r
        }
    }

    /// Interns a second-stage call continuation: the function and the saved env.
    pub fn intern_cont_call2(&mut self, a: Ptr, b: Ptr, c: ContPtr) -> (r: ContPtr)
        requires
            old(self).wf(),
            old(self)@.exprs.contains_key(a),
            old(self)@.exprs.contains_key(b),
            old(self)@.conts.contains_key(c),
        ensures
            final(self).wf(),
            r.tag is Call2,
            final(self)@.conts.contains_key(r),
            final(self)@.conts[r] == ContV::Call2(Box::new(old(self)@.exprs[a]), Box::new(old(self)@.exprs[b]), Box::new(old(self)@.conts[c])),
            final(self)@.conts == old(self)@.conts.insert(
                r,
                ContV::Call2(Box::new(old(self)@.exprs[a]), Box::new(old(self)@.exprs[b]), Box::new(old(self)@.conts[c])),
            ),
            final(self)@.exprs == old(self)@.exprs,
            final(self)@.syms == old(self)@.syms,
            final(self)@.strs == old(self)@.strs,
            final(self)@.scalar_exprs == old(self)@.scalar_exprs,
            final(self)@.scalar_conts == old(self)@.scalar_conts,
            final(self)@.cache4 == old(self)@.cache4,
            final(self)@.cache6 == old(self)@.cache6,
            final(self)@.cache8 == old(self)@.cache8,
            map_extends(old(self)@.exprs, final(self)@.exprs),
            map_extends(old(self)@.conts, final(self)@.conts),
    {
        let ghost s0 = *self;
        let ghost v = ContV::Call2(Box::new(s0.den_expr@[a]), Box::new(s0.den_expr@[b]), Box::new(s0.den_cont@[c]));
        let x = Self::eptr_words(&a);
        let y = Self::eptr_words(&b);
        let z = Self::kptr_words(&c);
        let k = (x.0, x.1, y.0, y.1, z.0, z.1, 0u64, 0u64);
        proof {
            assert(k == key_ee_k(a, b, c));
        }
        let n = table_len(&self.call2_store);
        let idx = table_insert(&mut self.call2_store, k);
        let r = ContPtr::new(ContTag::Call2, RawPtr::new(idx));
        if idx < n {
            proof {
                assert(table_entries(s0.call2_store).contains(k));
                assert(call2_entry_ok(
                    table_entries(s0.call2_store), s0.call2_list@, s0.den_expr@, s0.den_cont@,
                    idx as int,
                ));
                assert(enc_e(s0.call2_list@[idx as int].0) == enc_e(a));
                lemma_enc_e_inj(s0.call2_list@[idx as int].0, a);
                assert(enc_e(s0.call2_list@[idx as int].1) == enc_e(b));
                lemma_enc_e_inj(s0.call2_list@[idx as int].1, b);
                assert(enc_k(s0.call2_list@[idx as int].2) == enc_k(c));
                lemma_enc_k_inj(s0.call2_list@[idx as int].2, c);
                assert(s0.den_cont@[kptr(ContTag::Call2, idx as int)] == v);
                assert(r == kptr(ContTag::Call2, idx as int));
                assert(self.den_cont@ =~= s0.den_cont@.insert(r, v));
            }
            r
        } else {
            proof {
                assert(!table_entries(s0.call2_store).contains(k));
                assert(idx == n);
            }
            self.call2_list = Ghost(self.call2_list@.push((a, b, c)));
            self.den_cont = Ghost(self.den_cont@.insert(r, v));
            proof {
                let e0 = table_entries(s0.call2_store);
                let e1 = table_entries(self.call2_store);
                let l0 = s0.call2_list@;
                let l1 = self.call2_list@;
                assert(e1 == e0.push(k));
                assert(l1 == l0.push((a, b, c)));
                assert(!s0.vck(r));
                assert forall|p: Ptr|
                    #![trigger self.vex(p)]
                    #![trigger s0.vex(p)]
                    self.vex(p) <==> s0.vex(p) by {}
                assert forall|kk: ContPtr|
                    #![trigger self.vck(kk)]
                    #![trigger s0.vck(kk)]
                    self.vck(kk) <==> (s0.vck(kk) || kk == r) by {
                    match kk.tag {
                        ContTag::Call2 => {
                            if kk.raw.idx == n {
                                assert(kk == r);
                            }
                        },
                        _ => {},
                    }
                }
                assert forall|q: ContPtr|
                    #![trigger s0.den_cont@[q]]
                    s0.den_cont@.contains_key(q) implies s0.den_cont@[q] != v by {
                    assert(s0.vck(q));
                    s0.lemma_tag_agree_cont(q);
                    if s0.den_cont@[q] == v {
                        assert(q.tag is Call2);
                        let jq = q.raw.idx as int;
                        assert(call2_entry_ok(
                            e0, l0, s0.den_expr@, s0.den_cont@,
                            jq,
                        ));
                        assert(q == kptr(ContTag::Call2, jq));
                        assert(s0.den_expr@[l0[jq].0] == s0.den_expr@[a]);
                        assert(l0[jq].0 == a);
                        assert(s0.den_expr@[l0[jq].1] == s0.den_expr@[b]);
                        assert(l0[jq].1 == b);
                        assert(s0.den_cont@[l0[jq].2] == s0.den_cont@[c]);
                        assert(l0[jq].2 == c);
                        assert(e0[jq] == k);
                        assert(e0.contains(k));
                    }
                }
                lemma_den_insert_cont(s0, *self, r, v);
                lemma_tabs_preserved(s0, *self);
                assert forall|j: int| 0 <= j < l1.len() implies call2_entry_ok(
                    e1, l1, self.den_expr@, self.den_cont@,
                    j,
                ) by {
                    if j < l0.len() {
                        assert(call2_entry_ok(
                            e0, l0, s0.den_expr@, s0.den_cont@,
                            j,
                        ));
                        assert(e1[j] == e0[j]);
                        assert(l1[j] == l0[j]);
                    } else {
                        assert(j == l0.len());
                        assert(e1[j] == k);
                        assert(l1[j] == (a, b, c));
                        assert(self.den_expr@[a] == s0.den_expr@[a]);
                        assert(self.den_expr@[b] == s0.den_expr@[b]);
                        assert(self.den_cont@[c] == s0.den_cont@[c]);
                        assert(kptr(ContTag::Call2, j) == r);
                    }
                }
                assert(self.wf_base());
                assert(self.preloaded());
            }
            r
        }
    }

    /// Interns a tail continuation: the saved env.
    pub fn intern_cont_tail(&mut self, a: Ptr, b: ContPtr) -> (r: ContPtr)
        requires
            old(self).wf(),
            old(self)@.exprs.contains_key(a),
            old(self)@.conts.contains_key(b),
        ensures
            final(self).wf(),
            r.tag is Tail,
            final(self)@.conts.contains_key(r),
            final(self)@.conts[r] == ContV::Tail(Box::new(old(self)@.exprs[a]), Box::new(old(self)@.conts[b])),
            final(self)@.conts == old(self)@.conts.insert(
                r,
                ContV::Tail(Box::new(old(self)@.exprs[a]), Box::new(old(self)@.conts[b])),
            ),
            final(self)@.exprs == old(self)@.exprs,
            final(self)@.syms == old(self)@.syms,
            final(self)@.strs == old(self)@.strs,
            final(self)@.scalar_exprs == old(self)@.scalar_exprs,
            final(self)@.scalar_conts == old(self)@.scalar_conts,
            final(self)@.cache4 == old(self)@.cache4,
            final(self)@.cache6 == old(self)@.cache6,
            final(self)@.cache8 == old(self)@.cache8,
            map_extends(old(self)@.exprs, final(self)@.exprs),
            map_extends(old(self)@.conts, final(self)@.conts),
    {
        let ghost s0 = *self;
        let ghost v = ContV::Tail(Box::new(s0.den_expr@[a]), Box::new(s0.den_cont@[b]));
        let x = Self::eptr_words(&a);
        let z = Self::kptr_words(&b);
        let k = (x.0, x.1, z.0, z.1, 0u64, 0u64, 0u64, 0u64);
        proof {
            assert(k == key_e_k(a, b));
        }
        let n = table_len(&self.tail_store);
        let idx = table_insert(&mut self.tail_store, k);
        let r = ContPtr::new(ContTag::Tail, RawPtr::new(idx));
        if idx < n {
            proof {
                assert(table_entries(s0.tail_store).contains(k));
                assert(tail_entry_ok(
                    table_entries(s0.tail_store), s0.tail_list@, s0.den_expr@, s0.den_cont@,
                    idx as int,
                ));
                assert(enc_e(s0.tail_list@[idx as int].0) == enc_e(a));
                lemma_enc_e_inj(s0.tail_list@[idx as int].0, a);
                assert(enc_k(s0.tail_list@[idx as int].1) == enc_k(b));
                lemma_enc_k_inj(s0.tail_list@[idx as int].1, b);
                assert(s0.den_cont@[kptr(ContTag::Tail, idx as int)] == v);
                assert(r == kptr(ContTag::Tail, idx as int));
                assert(self.den_cont@ =~= s0.den_cont@.insert(r, v));
            }
            r
        } else {
            proof {
                assert(!table_entries(s0.tail_store).contains(k));
                assert(idx == n);
            }
            self.tail_list = Ghost(self.tail_list@.push((a, b)));
            self.den_cont = Ghost(self.den_cont@.insert(r, v));
            proof {
                let e0 = table_entries(s0.tail_store);
                let e1 = table_entries(self.tail_store);
                let l0 = s0.tail_list@;
                let l1 = self.tail_list@;
                assert(e1 == e0.push(k));
                assert(l1 == l0.push((a, b)));
                assert(!s0.vck(r));
                assert forall|p: Ptr|
                    #![trigger self.vex(p)]
                    #![trigger s0.vex(p)]
                    self.vex(p) <==> s0.vex(p) by {}
                assert forall|kk: ContPtr|
                    #![trigger self.vck(kk)]
                    #![trigger s0.vck(kk)]
                    self.vck(kk) <==> (s0.vck(kk) || kk == r) by {
                    match kk.tag {
                        ContTag::Tail => {
                            if kk.raw.idx == n {
                                assert(kk == r);
                            }
                        },
                        _ => {},
                    }
                }
                assert forall|q: ContPtr|
                    #![trigger s0.den_cont@[q]]
                    s0.den_cont@.contains_key(q) implies s0.den_cont@[q] != v by {
                    assert(s0.vck(q));
                    s0.lemma_tag_agree_cont(q);
                    if s0.den_cont@[q] == v {
                        assert(q.tag is Tail);
                        let jq = q.raw.idx as int;
                        assert(tail_entry_ok(
                            e0, l0, s0.den_expr@, s0.den_cont@,
                            jq,
                        ));
                        assert(q == kptr(ContTag::Tail, jq));
                        assert(s0.den_expr@[l0[jq].0] == s0.den_expr@[a]);
                        assert(l0[jq].0 == a);
                        assert(s0.den_cont@[l0[jq].1] == s0.den_cont@[b]);
                        assert(l0[jq].1 == b);
                        assert(e0[jq] == k);
                        assert(e0.contains(k));
                    }
                }
                lemma_den_insert_cont(s0, *self, r, v);
                lemma_tabs_preserved(s0, *self);
                assert forall|j: int| 0 <= j < l1.len() implies tail_entry_ok(
                    e1, l1, self.den_expr@, self.den_cont@,
                    j,
                ) by {
                    if j < l0.len() {
                        assert(tail_entry_ok(
                            e0, l0, s0.den_expr@, s0.den_cont@,
                            j,
                        ));
                        assert(e1[j] == e0[j]);
                        assert(l1[j] == l0[j]);
                    } else {
                        assert(j == l0.len());
                        assert(e1[j] == k);
                        assert(l1[j] == (a, b));
                        assert(self.den_expr@[a] == s0.den_expr@[a]);
                        assert(self.den_cont@[b] == s0.den_cont@[b]);
                        assert(kptr(ContTag::Tail, j) == r);
                    }
                }
                assert(self.wf_base());
                assert(self.preloaded());
            }
            r
        }
    }

    /// Interns a lookup continuation: the saved env.
    pub fn intern_cont_lookup(&mut self, a: Ptr, b: ContPtr) -> (r: ContPtr)
        requires
            old(self).wf(),
            old(self)@.exprs.contains_key(a),
            old(self)@.conts.contains_key(b),
        ensures
            final(self).wf(),
            r.tag is Lookup,
            final(self)@.conts.contains_key(r),
            final(self)@.conts[r] == ContV::Lookup(Box::new(old(self)@.exprs[a]), Box::new(old(self)@.conts[b])),
            final(self)@.conts == old(self)@.conts.insert(
                r,
                ContV::Lookup(Box::new(old(self)@.exprs[a]), Box::new(old(self)@.conts[b])),
            ),
            final(self)@.exprs == old(self)@.exprs,
            final(self)@.syms == old(self)@.syms,
            final(self)@.strs == old(self)@.strs,
            final(self)@.scalar_exprs == old(self)@.scalar_exprs,
            final(self)@.scalar_conts == old(self)@.scalar_conts,
            final(self)@.cache4 == old(self)@.cache4,
            final(self)@.cache6 == old(self)@.cache6,
            final(self)@.cache8 == old(self)@.cache8,
            map_extends(old(self)@.exprs, final(self)@.exprs),
            map_extends(old(self)@.conts, final(self)@.conts),
    {
        let ghost s0 = *self;
        let ghost v = ContV::Lookup(Box::new(s0.den_expr@[a]), Box::new(s0.den_cont@[b]));
        let x = Self::eptr_words(&a);
        let z = Self::kptr_words(&b);
        let k = (x.0, x.1, z.0, z.1, 0u64, 0u64, 0u64, 0u64);
        proof {
            assert(k == key_e_k(a, b));
        }
        let n = table_len(&self.lookup_store);
        let idx = table_insert(&mut self.lookup_store, k);
        let r = ContPtr::new(ContTag::Lookup, RawPtr::new(idx));
        if idx < n {
            proof {
                assert(table_entries(s0.lookup_store).contains(k));
                assert(lookup_entry_ok(
                    table_entries(s0.lookup_store), s0.lookup_list@, s0.den_expr@, s0.den_cont@,
                    idx as int,
                ));
                assert(enc_e(s0.lookup_list@[idx as int].0) == enc_e(a));
                lemma_enc_e_inj(s0.lookup_list@[idx as int].0, a);
                assert(enc_k(s0.lookup_list@[idx as int].1) == enc_k(b));
                lemma_enc_k_inj(s0.lookup_list@[idx as int].1, b);
                assert(s0.den_cont@[kptr(ContTag::Lookup, idx as int)] == v);
                assert(r == kptr(ContTag::Lookup, idx as int));
                assert(self.den_cont@ =~= s0.den_cont@.insert(r, v));
            }
            r
        } else {
            proof {
                assert(!table_entries(s0.lookup_store).contains(k));
                assert(idx == n);
            }
            self.lookup_list = Ghost(self.lookup_list@.push((a, b)));
            self.den_cont = Ghost(self.den_cont@.insert(r, v));
            proof {
                let e0 = table_entries(s0.lookup_store);
                let e1 = table_entries(self.lookup_store);
                let l0 = s0.lookup_list@;
                let l1 = self.lookup_list@;
                assert(e1 == e0.push(k));
                assert(l1 == l0.push((a, b)));
                assert(!s0.vck(r));
                assert forall|p: Ptr|
                    #![trigger self.vex(p)]
                    #![trigger s0.vex(p)]
                    self.vex(p) <==> s0.vex(p) by {}
                assert forall|kk: ContPtr|
                    #![trigger self.vck(kk)]
                    #![trigger s0.vck(kk)]
                    self.vck(kk) <==> (s0.vck(kk) || kk == r) by {
                    match kk.tag {
                        ContTag::Lookup => {
                            if kk.raw.idx == n {
                                assert(kk == r);
                            }
                        },
                        _ => {},
                    }
                }
                assert forall|q: ContPtr|
                    #![trigger s0.den_cont@[q]]
                    s0.den_cont@.contains_key(q) implies s0.den_cont@[q] != v by {
                    assert(s0.vck(q));
                    s0.lemma_tag_agree_cont(q);
                    if s0.den_cont@[q] == v {
                        assert(q.tag is Lookup);
                        let jq = q.raw.idx as int;
                        assert(lookup_entry_ok(
                            e0, l0, s0.den_expr@, s0.den_cont@,
                            jq,
                        ));
                        assert(q == kptr(ContTag::Lookup, jq));
                        assert(s0.den_expr@[l0[jq].0] == s0.den_expr@[a]);
                        assert(l0[jq].0 == a);
                        assert(s0.den_cont@[l0[jq].1] == s0.den_cont@[b]);
                        assert(l0[jq].1 == b);
                        assert(e0[jq] == k);
                        assert(e0.contains(k));
                    }
                }
                lemma_den_insert_cont(s0, *self, r, v);
                lemma_tabs_preserved(s0, *self);
                assert forall|j: int| 0 <= j < l1.len() implies lookup_entry_ok(
                    e1, l1, self.den_expr@, self.den_cont@,
                    j,
                ) by {
                    if j < l0.len() {
                        assert(lookup_entry_ok(
                            e0, l0, s0.den_expr@, s0.den_cont@,
                            j,
                        ));
                        assert(e1[j] == e0[j]);
                        assert(l1[j] == l0[j]);
                    } else {
                        assert(j == l0.len());
                        assert(e1[j] == k);
                        assert(l1[j] == (a, b));
                        assert(self.den_expr@[a] == s0.den_expr@[a]);
                        assert(self.den_cont@[b] == s0.den_cont@[b]);
                        assert(kptr(ContTag::Lookup, j) == r);
                    }
                }
                assert(self.wf_base());
                assert(self.preloaded());
            }
            r
        }
    }

    /// Interns an if continuation: the unevaluated branches.
    pub fn intern_cont_if(&mut self, a: Ptr, b: ContPtr) -> (r: ContPtr)
        requires
            old(self).wf(),
            old(self)@.exprs.contains_key(a),
            old(self)@.conts.contains_key(b),
        ensures
            final(self).wf(),
            r.tag is If,
            final(self)@.conts.contains_key(r),
            final(self)@.conts[r] == ContV::If(Box::new(old(self)@.exprs[a]), Box::new(old(self)@.conts[b])),
            final(self)@.conts == old(self)@.conts.insert(
                r,
                ContV::If(Box::new(old(self)@.exprs[a]), Box::new(old(self)@.conts[b])),
            ),
            final(self)@.exprs == old(self)@.exprs,
            final(self)@.syms == old(self)@.syms,
            final(self)@.strs == old(self)@.strs,
            final(self)@.scalar_exprs == old(self)@.scalar_exprs,
            final(self)@.scalar_conts == old(self)@.scalar_conts,
            final(self)@.cache4 == old(self)@.cache4,
            final(self)@.cache6 == old(self)@.cache6,
            final(self)@.cache8 == old(self)@.cache8,
            map_extends(old(self)@.exprs, final(self)@.exprs),
            map_extends(old(self)@.conts, final(self)@.conts),
    {
        let ghost s0 = *self;
        let ghost v = ContV::If(Box::new(s0.den_expr@[a]), Box::new(s0.den_cont@[b]));
        let x = Self::eptr_words(&a);
        let z = Self::kptr_words(&b);
        let k = (x.0, x.1, z.0, z.1, 0u64, 0u64, 0u64, 0u64);
        proof {
            assert(k == key_e_k(a, b));
        }
        let n = table_len(&self.if_store);
        let idx = table_insert(&mut self.if_store, k);
        let r = ContPtr::new(ContTag::If, RawPtr::new(idx));
        if idx < n {
            proof {
                assert(table_entries(s0.if_store).contains(k));
                assert(if_entry_ok(
                    table_entries(s0.if_store), s0.if_list@, s0.den_expr@, s0.den_cont@,
                    idx as int,
                ));
                assert(enc_e(s0.if_list@[idx as int].0) == enc_e(a));
                lemma_enc_e_inj(s0.if_list@[idx as int].0, a);
                assert(enc_k(s0.if_list@[idx as int].1) == enc_k(b));
                lemma_enc_k_inj(s0.if_list@[idx as int].1, b);
                assert(s0.den_cont@[kptr(ContTag::If, idx as int)] == v);
                assert(r == kptr(ContTag::If, idx as int));
                assert(self.den_cont@ =~= s0.den_cont@.insert(r, v));
            }
            r
        } else {
            proof {
                assert(!table_entries(s0.if_store).contains(k));
                assert(idx == n);
            }
            self.if_list = Ghost(self.if_list@.push((a, b)));
            self.den_cont = Ghost(self.den_cont@.insert(r, v));
            proof {
                let e0 = table_entries(s0.if_store);
                let e1 = table_entries(self.if_store);
                let l0 = s0.if_list@;
                let l1 = self.if_list@;
                assert(e1 == e0.push(k));
                assert(l1 == l0.push((a, b)));
                assert(!s0.vck(r));
                assert forall|p: Ptr|
                    #![trigger self.vex(p)]
                    #![trigger s0.vex(p)]
                    self.vex(p) <==> s0.vex(p) by {}
                assert forall|kk: ContPtr|
                    #![trigger self.vck(kk)]
                    #![trigger s0.vck(kk)]
                    self.vck(kk) <==> (s0.vck(kk) || kk == r) by {
                    match kk.tag {
                        ContTag::If => {
                            if kk.raw.idx == n {
                                assert(kk == r);
                            }
                        },
                        _ => {},
                    }
                }
                assert forall|q: ContPtr|
                    #![trigger s0.den_cont@[q]]
                    s0.den_cont@.contains_key(q) implies s0.den_cont@[q] != v by {
                    assert(s0.vck(q));
                    s0.lemma_tag_agree_cont(q);
                    if s0.den_cont@[q] == v {
                        assert(q.tag is If);
                        let jq = q.raw.idx as int;
                        assert(if_entry_ok(
                            e0, l0, s0.den_expr@, s0.den_cont@,
                            jq,
                        ));
                        assert(q == kptr(ContTag::If, jq));
                        assert(s0.den_expr@[l0[jq].0] == s0.den_expr@[a]);
                        assert(l0[jq].0 == a);
                        assert(s0.den_cont@[l0[jq].1] == s0.den_cont@[b]);
                        assert(l0[jq].1 == b);
                        assert(e0[jq] == k);
                        assert(e0.contains(k));
                    }
                }
                lemma_den_insert_cont(s0, *self, r, v);
                lemma_tabs_preserved(s0, *self);
                assert forall|j: int| 0 <= j < l1.len() implies if_entry_ok(
                    e1, l1, self.den_expr@, self.den_cont@,
                    j,
                ) by {
                    if j < l0.len() {
                        assert(if_entry_ok(
                            e0, l0, s0.den_expr@, s0.den_cont@,
                            j,
                        ));
                        assert(e1[j] == e0[j]);
                        assert(l1[j] == l0[j]);
                    } else {
                        assert(j == l0.len());
                        assert(e1[j] == k);
                        assert(l1[j] == (a, b));
                        assert(self.den_expr@[a] == s0.den_expr@[a]);
                        assert(self.den_cont@[b] == s0.den_cont@[b]);
                        assert(kptr(ContTag::If, j) == r);
                    }
                }
                assert(self.wf_base());
                assert(self.preloaded());
            }
            r
        }
    }

    /// Interns a unary-operator continuation.
    pub fn intern_cont_unop(&mut self, op: Op1, a: ContPtr) -> (r: ContPtr)
        requires
            old(self).wf(),
            old(self)@.conts.contains_key(a),
        ensures
            final(self).wf(),
            r.tag is Unop,
            final(self)@.conts.contains_key(r),
            final(self)@.conts[r] == ContV::Unop(op, Box::new(old(self)@.conts[a])),
            final(self)@.conts == old(self)@.conts.insert(
                r,
                ContV::Unop(op, Box::new(old(self)@.conts[a])),
            ),
            final(self)@.exprs == old(self)@.exprs,
            final(self)@.syms == old(self)@.syms,
            final(self)@.strs == old(self)@.strs,
            final(self)@.scalar_exprs == old(self)@.scalar_exprs,
            final(self)@.scalar_conts == old(self)@.scalar_conts,
            final(self)@.cache4 == old(self)@.cache4,
            final(self)@.cache6 == old(self)@.cache6,
            final(self)@.cache8 == old(self)@.cache8,
            map_extends(old(self)@.exprs, final(self)@.exprs),
            map_extends(old(self)@.conts, final(self)@.conts),
    {
        let ghost s0 = *self;
        let ghost v = ContV::Unop(op, Box::new(s0.den_cont@[a]));
        let z = Self::kptr_words(&a);
        let k = (op.to_u64(), z.0, z.1, 0u64, 0u64, 0u64, 0u64, 0u64);
        proof {
            assert(k == key_op_k(op1_u64(op), a));
        }
        let n = table_len(&self.unop_store);
        let idx = table_insert(&mut self.unop_store, k);
        let r = ContPtr::new(ContTag::Unop, RawPtr::new(idx));
        if idx < n {
            proof {
                assert(table_entries(s0.unop_store).contains(k));
                assert(unop_entry_ok(
                    table_entries(s0.unop_store), s0.unop_list@, s0.den_cont@,
                    idx as int,
                ));
                assert(op1_u64(s0.unop_list@[idx as int].0) == op1_u64(op));
                lemma_op1_inj(s0.unop_list@[idx as int].0, op);
                assert(enc_k(s0.unop_list@[idx as int].1) == enc_k(a));
                lemma_enc_k_inj(s0.unop_list@[idx as int].1, a);
                assert(s0.den_cont@[kptr(ContTag::Unop, idx as int)] == v);
                assert(r == kptr(ContTag::Unop, idx as int));
                assert(self.den_cont@ =~= s0.den_cont@.insert(r, v));
            }
            r
        } else {
            proof {
                assert(!table_entries(s0.unop_store).contains(k));
                assert(idx == n);
            }
            self.unop_list = Ghost(self.unop_list@.push((op, a)));
            self.den_cont = Ghost(self.den_cont@.insert(r, v));
            proof {
                let e0 = table_entries(s0.unop_store);
                let e1 = table_entries(self.unop_store);
                let l0 = s0.unop_list@;
                let l1 = self.unop_list@;
                assert(e1 == e0.push(k));
                assert(l1 == l0.push((op, a)));
                assert(!s0.vck(r));
                assert forall|p: Ptr|
                    #![trigger self.vex(p)]
                    #![trigger s0.vex(p)]
                    self.vex(p) <==> s0.vex(p) by {}
                assert forall|kk: ContPtr|
                    #![trigger self.vck(kk)]
                    #![trigger s0.vck(kk)]
                    self.vck(kk) <==> (s0.vck(kk) || kk == r) by {
                    match kk.tag {
                        ContTag::Unop => {
                            if kk.raw.idx == n {
                                assert(kk == r);
                            }
                        },
                        _ => {},
                    }
                }
                assert forall|q: ContPtr|
                    #![trigger s0.den_cont@[q]]
                    s0.den_cont@.contains_key(q) implies s0.den_cont@[q] != v by {
                    assert(s0.vck(q));
                    s0.lemma_tag_agree_cont(q);
                    if s0.den_cont@[q] == v {
                        assert(q.tag is Unop);
                        let jq = q.raw.idx as int;
                        assert(unop_entry_ok(
                            e0, l0, s0.den_cont@,
                            jq,
                        ));
                        assert(q == kptr(ContTag::Unop, jq));
                        assert(l0[jq].0 == op);
                        assert(s0.den_cont@[l0[jq].1] == s0.den_cont@[a]);
                        assert(l0[jq].1 == a);
                        assert(e0[jq] == k);
                        assert(e0.contains(k));
                    }
                }
                lemma_den_insert_cont(s0, *self, r, v);
                lemma_tabs_preserved(s0, *self);
                assert forall|j: int| 0 <= j < l1.len() implies unop_entry_ok(
                    e1, l1, self.den_cont@,
                    j,
                ) by {
                    if j < l0.len() {
                        assert(unop_entry_ok(
                            e0, l0, s0.den_cont@,
                            j,
                        ));
                        assert(e1[j] == e0[j]);
                        assert(l1[j] == l0[j]);
                    } else {
                        assert(j == l0.len());
                        assert(e1[j] == k);
                        assert(l1[j] == (op, a));
                        assert(self.den_cont@[a] == s0.den_cont@[a]);
                        assert(kptr(ContTag::Unop, j) == r);
                    }
                }
                assert(self.wf_base());
                assert(self.preloaded());
            }
            r
        }
    }

    /// Interns a binary-operator continuation: the saved env and unevaluated argument.
    pub fn intern_cont_binop(&mut self, op: Op2, a: Ptr, b: Ptr, c: ContPtr) -> (r: ContPtr)
        requires
            old(self).wf(),
            old(self)@.exprs.contains_key(a),
            old(self)@.exprs.contains_key(b),
            old(self)@.conts.contains_key(c),
        ensures
            final(self).wf(),
            r.tag is Binop,
            final(self)@.conts.contains_key(r),
            final(self)@.conts[r] == ContV::Binop(op, Box::new(old(self)@.exprs[a]), Box::new(old(self)@.exprs[b]), Box::new(old(self)@.conts[c])),
            final(self)@.conts == old(self)@.conts.insert(
                r,
                ContV::Binop(op, Box::new(old(self)@.exprs[a]), Box::new(old(self)@.exprs[b]), Box::new(old(self)@.conts[c])),
            ),
            final(self)@.exprs == old(self)@.exprs,
            final(self)@.syms == old(self)@.syms,
            final(self)@.strs == old(self)@.strs,
            final(self)@.scalar_exprs == old(self)@.scalar_exprs,
            final(self)@.scalar_conts == old(self)@.scalar_conts,
            final(self)@.cache4 == old(self)@.cache4,
            final(self)@.cache6 == old(self)@.cache6,
            final(self)@.cache8 == old(self)@.cache8,
            map_extends(old(self)@.exprs, final(self)@.exprs),
            map_extends(old(self)@.conts, final(self)@.conts),
    {
        let ghost s0 = *self;
        let ghost v = ContV::Binop(op, Box::new(s0.den_expr@[a]), Box::new(s0.den_expr@[b]), Box::new(s0.den_cont@[c]));
        let x = Self::eptr_words(&a);
        let y = Self::eptr_words(&b);
        let z = Self::kptr_words(&c);
        let k = (op.to_u64(), x.0, x.1, y.0, y.1, z.0, z.1, 0u64);
        proof {
            assert(k == key_op_ee_k(op2_u64(op), a, b, c));
        }
        let n = table_len(&self.binop_store);
        let idx = table_insert(&mut self.binop_store, k);
        let r = ContPtr::new(ContTag::Binop, RawPtr::new(idx));
        if idx < n {
            proof {
                assert(table_entries(s0.binop_store).contains(k));
                assert(binop_entry_ok(
                    table_entries(s0.binop_store), s0.binop_list@, s0.den_expr@, s0.den_cont@,
                    idx as int,
                ));
                assert(op2_u64(s0.binop_list@[idx as int].0) == op2_u64(op));
                lemma_op2_inj(s0.binop_list@[idx as int].0, op);
                assert(enc_e(s0.binop_list@[idx as int].1) == enc_e(a));
                lemma_enc_e_inj(s0.binop_list@[idx as int].1, a);
                assert(enc_e(s0.binop_list@[idx as int].2) == enc_e(b));
                lemma_enc_e_inj(s0.binop_list@[idx as int].2, b);
                assert(enc_k(s0.binop_list@[idx as int].3) == enc_k(c));
                lemma_enc_k_inj(s0.binop_list@[idx as int].3, c);
                assert(s0.den_cont@[kptr(ContTag::Binop, idx as int)] == v);
                assert(r == kptr(ContTag::Binop, idx as int));
                assert(self.den_cont@ =~= s0.den_cont@.insert(r, v));
            }
            r
        } else {
            proof {
                assert(!table_entries(s0.binop_store).contains(k));
                assert(idx == n);
            }
            self.binop_list = Ghost(self.binop_list@.push((op, a, b, c)));
            self.den_cont = Ghost(self.den_cont@.insert(r, v));
            proof {
                let e0 = table_entries(s0.binop_store);
                let e1 = table_entries(self.binop_store);
                let l0 = s0.binop_list@;
                let l1 = self.binop_list@;
                assert(e1 == e0.push(k));
                assert(l1 == l0.push((op, a, b, c)));
                assert(!s0.vck(r));
                assert forall|p: Ptr|
                    #![trigger self.vex(p)]
                    #![trigger s0.vex(p)]
                    self.vex(p) <==> s0.vex(p) by {}
                assert forall|kk: ContPtr|
                    #![trigger self.vck(kk)]
                    #![trigger s0.vck(kk)]
                    self.vck(kk) <==> (s0.vck(kk) || kk == r) by {
                    match kk.tag {
                        ContTag::Binop => {
                            if kk.raw.idx == n {
                                assert(kk == r);
                            }
                        },
                        _ => {},
                    }
                }
                assert forall|q: ContPtr|
                    #![trigger s0.den_cont@[q]]
                    s0.den_cont@.contains_key(q) implies s0.den_cont@[q] != v by {
                    assert(s0.vck(q));
                    s0.lemma_tag_agree_cont(q);
                    if s0.den_cont@[q] == v {
                        assert(q.tag is Binop);
                        let jq = q.raw.idx as int;
                        assert(binop_entry_ok(
                            e0, l0, s0.den_expr@, s0.den_cont@,
                            jq,
                        ));
                        assert(q == kptr(ContTag::Binop, jq));
                        assert(l0[jq].0 == op);
                        assert(s0.den_expr@[l0[jq].1] == s0.den_expr@[a]);
                        assert(l0[jq].1 == a);
                        assert(s0.den_expr@[l0[jq].2] == s0.den_expr@[b]);
                        assert(l0[jq].2 == b);
                        assert(s0.den_cont@[l0[jq].3] == s0.den_cont@[c]);
                        assert(l0[jq].3 == c);
                        assert(e0[jq] == k);
                        assert(e0.contains(k));
                    }
                }
                lemma_den_insert_cont(s0, *self, r, v);
                lemma_tabs_preserved(s0, *self);
                assert forall|j: int| 0 <= j < l1.len() implies binop_entry_ok(
                    e1, l1, self.den_expr@, self.den_cont@,
                    j,
                ) by {
                    if j < l0.len() {
                        assert(binop_entry_ok(
                            e0, l0, s0.den_expr@, s0.den_cont@,
                            j,
                        ));
                        assert(e1[j] == e0[j]);
                        assert(l1[j] == l0[j]);
                    } else {
                        assert(j == l0.len());
                        assert(e1[j] == k);
                        assert(l1[j] == (op, a, b, c));
                        assert(self.den_expr@[a] == s0.den_expr@[a]);
                        assert(self.den_expr@[b] == s0.den_expr@[b]);
                        assert(self.den_cont@[c] == s0.den_cont@[c]);
                        assert(kptr(ContTag::Binop, j) == r);
                    }
                }
                assert(self.wf_base());
                assert(self.preloaded());
            }
            r
        }
    }

    /// Interns a second-stage binary-operator continuation: the first argument.
    pub fn intern_cont_binop2(&mut self, op: Op2, a: Ptr, b: ContPtr) -> (r: ContPtr)
        requires
            old(self).wf(),
            old(self)@.exprs.contains_key(a),
            old(self)@.conts.contains_key(b),
        ensures
            final(self).wf(),
            r.tag is Binop2,
            final(self)@.conts.contains_key(r),
            final(self)@.conts[r] == ContV::Binop2(op, Box::new(old(self)@.exprs[a]), Box::new(old(self)@.conts[b])),
            final(self)@.conts == old(self)@.conts.insert(
                r,
                ContV::Binop2(op, Box::new(old(self)@.exprs[a]), Box::new(old(self)@.conts[b])),
            ),
            final(self)@.exprs == old(self)@.exprs,
            final(self)@.syms == old(self)@.syms,
            final(self)@.strs == old(self)@.strs,
            final(self)@.scalar_exprs == old(self)@.scalar_exprs,
            final(self)@.scalar_conts == old(self)@.scalar_conts,
            final(self)@.cache4 == old(self)@.cache4,
            final(self)@.cache6 == old(self)@.cache6,
            final(self)@.cache8 == old(self)@.cache8,
            map_extends(old(self)@.exprs, final(self)@.exprs),
            map_extends(old(self)@.conts, final(self)@.conts),
    {
        let ghost s0 = *self;
        let ghost v = ContV::Binop2(op, Box::new(s0.den_expr@[a]), Box::new(s0.den_cont@[b]));
        let x = Self::eptr_words(&a);
        let z = Self::kptr_words(&b);
        let k = (op.to_u64(), x.0, x.1, z.0, z.1, 0u64, 0u64, 0u64);
        proof {
            assert(k == key_op_e_k(op2_u64(op), a, b));
        }
        let n = table_len(&self.binop2_store);
        let idx = table_insert(&mut self.binop2_store, k);
        let r = ContPtr::new(ContTag::Binop2, RawPtr::new(idx));
        if idx < n {
            proof {
                assert(table_entries(s0.binop2_store).contains(k));
                assert(binop2_entry_ok(
                    table_entries(s0.binop2_store), s0.binop2_list@, s0.den_expr@, s0.den_cont@,
                    idx as int,
                ));
                assert(op2_u64(s0.binop2_list@[idx as int].0) == op2_u64(op));
                lemma_op2_inj(s0.binop2_list@[idx as int].0, op);
                assert(enc_e(s0.binop2_list@[idx as int].1) == enc_e(a));
                lemma_enc_e_inj(s0.binop2_list@[idx as int].1, a);
                assert(enc_k(s0.binop2_list@[idx as int].2) == enc_k(b));
                lemma_enc_k_inj(s0.binop2_list@[idx as int].2, b);
                assert(s0.den_cont@[kptr(ContTag::Binop2, idx as int)] == v);
                assert(r == kptr(ContTag::Binop2, idx as int));
                assert(self.den_cont@ =~= s0.den_cont@.insert(r, v));
            }
            r
        } else {
            proof {
                assert(!table_entries(s0.binop2_store).contains(k));
                assert(idx == n);
            }
            self.binop2_list = Ghost(self.binop2_list@.push((op, a, b)));
            self.den_cont = Ghost(self.den_cont@.insert(r, v));
            proof {
                let e0 = table_entries(s0.binop2_store);
                let e1 = table_entries(self.binop2_store);
                let l0 = s0.binop2_list@;
                let l1 = self.binop2_list@;
                assert(e1 == e0.push(k));
                assert(l1 == l0.push((op, a, b)));
                assert(!s0.vck(r));
                assert forall|p: Ptr|
                    #![trigger self.vex(p)]
                    #![trigger s0.vex(p)]
                    self.vex(p) <==> s0.vex(p) by {}
                assert forall|kk: ContPtr|
                    #![trigger self.vck(kk)]
                    #![trigger s0.vck(kk)]
                    self.vck(kk) <==> (s0.vck(kk) || kk == r) by {
                    match kk.tag {
                        ContTag::Binop2 => {
                            if kk.raw.idx == n {
                                assert(kk == r);
                            }
                        },
                        _ => {},
                    }
                }
                assert forall|q: ContPtr|
                    #![trigger s0.den_cont@[q]]
                    s0.den_cont@.contains_key(q) implies s0.den_cont@[q] != v by {
                    assert(s0.vck(q));
                    s0.lemma_tag_agree_cont(q);
                    if s0.den_cont@[q] == v {
                        assert(q.tag is Binop2);
                        let jq = q.raw.idx as int;
                        assert(binop2_entry_ok(
                            e0, l0, s0.den_expr@, s0.den_cont@,
                            jq,
                        ));
                        assert(q == kptr(ContTag::Binop2, jq));
                        assert(l0[jq].0 == op);
                        assert(s0.den_expr@[l0[jq].1] == s0.den_expr@[a]);
                        assert(l0[jq].1 == a);
                        assert(s0.den_cont@[l0[jq].2] == s0.den_cont@[b]);
                        assert(l0[jq].2 == b);
                        assert(e0[jq] == k);
                        assert(e0.contains(k));
                    }
                }
                lemma_den_insert_cont(s0, *self, r, v);
                lemma_tabs_preserved(s0, *self);
                assert forall|j: int| 0 <= j < l1.len() implies binop2_entry_ok(
                    e1, l1, self.den_expr@, self.den_cont@,
                    j,
                ) by {
                    if j < l0.len() {
                        assert(binop2_entry_ok(
                            e0, l0, s0.den_expr@, s0.den_cont@,
                            j,
                        ));
                        assert(e1[j] == e0[j]);
                        assert(l1[j] == l0[j]);
                    } else {
                        assert(j == l0.len());
                        assert(e1[j] == k);
                        assert(l1[j] == (op, a, b));
                        assert(self.den_expr@[a] == s0.den_expr@[a]);
                        assert(self.den_cont@[b] == s0.den_cont@[b]);
                        assert(kptr(ContTag::Binop2, j) == r);
                    }
                }
                assert(self.wf_base());
                assert(self.preloaded());
            }
            r
        }
    }

    /// Interns a relational-operator continuation: the saved env and unevaluated arguments.
    pub fn intern_cont_relop(&mut self, op: Rel2, a: Ptr, b: Ptr, c: ContPtr) -> (r: ContPtr)
        requires
            old(self).wf(),
            old(self)@.exprs.contains_key(a),
            old(self)@.exprs.contains_key(b),
            old(self)@.conts.contains_key(c),
        ensures
            final(self).wf(),
            r.tag is Relop,
            final(self)@.conts.contains_key(r),
            final(self)@.conts[r] == ContV::Relop(op, Box::new(old(self)@.exprs[a]), Box::new(old(self)@.exprs[b]), Box::new(old(self)@.conts[c])),
            final(self)@.conts == old(self)@.conts.insert(
                r,
                ContV::Relop(op, Box::new(old(self)@.exprs[a]), Box::new(old(self)@.exprs[b]), Box::new(old(self)@.conts[c])),
            ),
            final(self)@.exprs == old(self)@.exprs,
            final(self)@.syms == old(self)@.syms,
            final(self)@.strs == old(self)@.strs,
            final(self)@.scalar_exprs == old(self)@.scalar_exprs,
            final(self)@.scalar_conts == old(self)@.scalar_conts,
            final(self)@.cache4 == old(self)@.cache4,
            final(self)@.cache6 == old(self)@.cache6,
            final(self)@.cache8 == old(self)@.cache8,
            map_extends(old(self)@.exprs, final(self)@.exprs),
            map_extends(old(self)@.conts, final(self)@.conts),
    {
        let ghost s0 = *self;
        let ghost v = ContV::Relop(op, Box::new(s0.den_expr@[a]), Box::new(s0.den_expr@[b]), Box::new(s0.den_cont@[c]));
        let x = Self::eptr_words(&a);
        let y = Self::eptr_words(&b);
        let z = Self::kptr_words(&c);
        let k = (op.to_u64(), x.0, x.1, y.0, y.1, z.0, z.1, 0u64);
        proof {
            assert(k == key_op_ee_k(rel2_u64(op), a, b, c));
        }
        let n = table_len(&self.relop_store);
        let idx = table_insert(&mut self.relop_store, k);
        let r = ContPtr::new(ContTag::Relop, RawPtr::new(idx));
        if idx < n {
            proof {
                assert(table_entries(s0.relop_store).contains(k));
                assert(relop_entry_ok(
                    table_entries(s0.relop_store), s0.relop_list@, s0.den_expr@, s0.den_cont@,
                    idx as int,
                ));
                assert(rel2_u64(s0.relop_list@[idx as int].0) == rel2_u64(op));
                lemma_rel2_inj(s0.relop_list@[idx as int].0, op);
                assert(enc_e(s0.relop_list@[idx as int].1) == enc_e(a));
                lemma_enc_e_inj(s0.relop_list@[idx as int].1, a);
                assert(enc_e(s0.relop_list@[idx as int].2) == enc_e(b));
                lemma_enc_e_inj(s0.relop_list@[idx as int].2, b);
                assert(enc_k(s0.relop_list@[idx as int].3) == enc_k(c));
                lemma_enc_k_inj(s0.relop_list@[idx as int].3, c);
                assert(s0.den_cont@[kptr(ContTag::Relop, idx as int)] == v);
                assert(r == kptr(ContTag::Relop, idx as int));
                assert(self.den_cont@ =~= s0.den_cont@.insert(r, v));
            }
            r
        } else {
            proof {
                assert(!table_entries(s0.relop_store).contains(k));
                assert(idx == n);
            }
            self.relop_list = Ghost(self.relop_list@.push((op, a, b, c)));
            self.den_cont = Ghost(self.den_cont@.insert(r, v));
            proof {
                let e0 = table_entries(s0.relop_store);
                let e1 = table_entries(self.relop_store);
                let l0 = s0.relop_list@;
                let l1 = self.relop_list@;
                assert(e1 == e0.push(k));
                assert(l1 == l0.push((op, a, b, c)));
                assert(!s0.vck(r));
                assert forall|p: Ptr|
                    #![trigger self.vex(p)]
                    #![trigger s0.vex(p)]
                    self.vex(p) <==> s0.vex(p) by {}
                assert forall|kk: ContPtr|
                    #![trigger self.vck(kk)]
                    #![trigger s0.vck(kk)]
                    self.vck(kk) <==> (s0.vck(kk) || kk == r) by {
                    match kk.tag {
                        ContTag::Relop => {
                            if kk.raw.idx == n {
                                assert(kk == r);
                            }
                        },
                        _ => {},
                    }
                }
                assert forall|q: ContPtr|
                    #![trigger s0.den_cont@[q]]
                    s0.den_cont@.contains_key(q) implies s0.den_cont@[q] != v by {
                    assert(s0.vck(q));
                    s0.lemma_tag_agree_cont(q);
                    if s0.den_cont@[q] == v {
                        assert(q.tag is Relop);
                        let jq = q.raw.idx as int;
                        assert(relop_entry_ok(
                            e0, l0, s0.den_expr@, s0.den_cont@,
                            jq,
                        ));
                        assert(q == kptr(ContTag::Relop, jq));
                        assert(l0[jq].0 == op);
                        assert(s0.den_expr@[l0[jq].1] == s0.den_expr@[a]);
                        assert(l0[jq].1 == a);
                        assert(s0.den_expr@[l0[jq].2] == s0.den_expr@[b]);
                        assert(l0[jq].2 == b);
                        assert(s0.den_cont@[l0[jq].3] == s0.den_cont@[c]);
                        assert(l0[jq].3 == c);
                        assert(e0[jq] == k);
                        assert(e0.contains(k));
                    }
                }
                lemma_den_insert_cont(s0, *self, r, v);
                lemma_tabs_preserved(s0, *self);
                assert forall|j: int| 0 <= j < l1.len() implies relop_entry_ok(
                    e1, l1, self.den_expr@, self.den_cont@,
                    j,
                ) by {
                    if j < l0.len() {
                        assert(relop_entry_ok(
                            e0, l0, s0.den_expr@, s0.den_cont@,
                            j,
                        ));
                        assert(e1[j] == e0[j]);
                        assert(l1[j] == l0[j]);
                    } else {
                        assert(j == l0.len());
                        assert(e1[j] == k);
                        assert(l1[j] == (op, a, b, c));
                        assert(self.den_expr@[a] == s0.den_expr@[a]);
                        assert(self.den_expr@[b] == s0.den_expr@[b]);
                        assert(self.den_cont@[c] == s0.den_cont@[c]);
                        assert(kptr(ContTag::Relop, j) == r);
                    }
                }
                assert(self.wf_base());
                assert(self.preloaded());
            }
            r
        }
    }

    /// Interns a second-stage relational-operator continuation: the first argument.
    pub fn intern_cont_relop2(&mut self, op: Rel2, a: Ptr, b: ContPtr) -> (r: ContPtr)
        requires
            old(self).wf(),
            old(self)@.exprs.contains_key(a),
            old(self)@.conts.contains_key(b),
        ensures
            final(self).wf(),
            r.tag is Relop2,
            final(self)@.conts.contains_key(r),
            final(self)@.conts[r] == ContV::Relop2(op, Box::new(old(self)@.exprs[a]), Box::new(old(self)@.conts[b])),
            final(self)@.conts == old(self)@.conts.insert(
                r,
                ContV::Relop2(op, Box::new(old(self)@.exprs[a]), Box::new(old(self)@.conts[b])),
            ),
            final(self)@.exprs == old(self)@.exprs,
            final(self)@.syms == old(self)@.syms,
            final(self)@.strs == old(self)@.strs,
            final(self)@.scalar_exprs == old(self)@.scalar_exprs,
            final(self)@.scalar_conts == old(self)@.scalar_conts,
            final(self)@.cache4 == old(self)@.cache4,
            final(self)@.cache6 == old(self)@.cache6,
            final(self)@.cache8 == old(self)@.cache8,
            map_extends(old(self)@.exprs, final(self)@.exprs),
            map_extends(old(self)@.conts, final(self)@.conts),
    {
        let ghost s0 = *self;
        let ghost v = ContV::Relop2(op, Box::new(s0.den_expr@[a]), Box::new(s0.den_cont@[b]));
        let x = Self::eptr_words(&a);
        let z = Self::kptr_words(&b);
        let k = (op.to_u64(), x.0, x.1, z.0, z.1, 0u64, 0u64, 0u64);
        proof {
            assert(k == key_op_e_k(rel2_u64(op), a, b));
        }
        let n = table_len(&self.relop2_store);
        let idx = table_insert(&mut self.relop2_store, k);
        let r = ContPtr::new(ContTag::Relop2, RawPtr::new(idx));
        if idx < n {
            proof {
                assert(table_entries(s0.relop2_store).contains(k));
                assert(relop2_entry_ok(
                    table_entries(s0.relop2_store), s0.relop2_list@, s0.den_expr@, s0.den_cont@,
                    idx as int,
                ));
                assert(rel2_u64(s0.relop2_list@[idx as int].0) == rel2_u64(op));
                lemma_rel2_inj(s0.relop2_list@[idx as int].0, op);
                assert(enc_e(s0.relop2_list@[idx as int].1) == enc_e(a));
                lemma_enc_e_inj(s0.relop2_list@[idx as int].1, a);
                assert(enc_k(s0.relop2_list@[idx as int].2) == enc_k(b));
                lemma_enc_k_inj(s0.relop2_list@[idx as int].2, b);
                assert(s0.den_cont@[kptr(ContTag::Relop2, idx as int)] == v);
                assert(r == kptr(ContTag::Relop2, idx as int));
                assert(self.den_cont@ =~= s0.den_cont@.insert(r, v));
            }
            r
        } else {
            proof {
                assert(!table_entries(s0.relop2_store).contains(k));
                assert(idx == n);
            }
            self.relop2_list = Ghost(self.relop2_list@.push((op, a, b)));
            self.den_cont = Ghost(self.den_cont@.insert(r, v));
            proof {
                let e0 = table_entries(s0.relop2_store);
                let e1 = table_entries(self.relop2_store);
                let l0 = s0.relop2_list@;
                let l1 = self.relop2_list@;
                assert(e1 == e0.push(k));
                assert(l1 == l0.push((op, a, b)));
                assert(!s0.vck(r));
                assert forall|p: Ptr|
                    #![trigger self.vex(p)]
                    #![trigger s0.vex(p)]
                    self.vex(p) <==> s0.vex(p) by {}
                assert forall|kk: ContPtr|
                    #![trigger self.vck(kk)]
                    #![trigger s0.vck(kk)]
                    self.vck(kk) <==> (s0.vck(kk) || kk == r) by {
                    match kk.tag {
                        ContTag::Relop2 => {
                            if kk.raw.idx == n {
                                assert(kk == r);
                            }
                        },
                        _ => {},
                    }
                }
                assert forall|q: ContPtr|
                    #![trigger s0.den_cont@[q]]
                    s0.den_cont@.contains_key(q) implies s0.den_cont@[q] != v by {
                    assert(s0.vck(q));
                    s0.lemma_tag_agree_cont(q);
                    if s0.den_cont@[q] == v {
                        assert(q.tag is Relop2);
                        let jq = q.raw.idx as int;
                        assert(relop2_entry_ok(
                            e0, l0, s0.den_expr@, s0.den_cont@,
                            jq,
                        ));
                        assert(q == kptr(ContTag::Relop2, jq));
                        assert(l0[jq].0 == op);
                        assert(s0.den_expr@[l0[jq].1] == s0.den_expr@[a]);
                        assert(l0[jq].1 == a);
                        assert(s0.den_cont@[l0[jq].2] == s0.den_cont@[b]);
                        assert(l0[jq].2 == b);
                        assert(e0[jq] == k);
                        assert(e0.contains(k));
                    }
                }
                lemma_den_insert_cont(s0, *self, r, v);
                lemma_tabs_preserved(s0, *self);
                assert forall|j: int| 0 <= j < l1.len() implies relop2_entry_ok(
                    e1, l1, self.den_expr@, self.den_cont@,
                    j,
                ) by {
                    if j < l0.len() {
                        assert(relop2_entry_ok(
                            e0, l0, s0.den_expr@, s0.den_cont@,
                            j,
                        ));
                        assert(e1[j] == e0[j]);
                        assert(l1[j] == l0[j]);
                    } else {
                        assert(j == l0.len());
                        assert(e1[j] == k);
                        assert(l1[j] == (op, a, b));
                        assert(self.den_expr@[a] == s0.den_expr@[a]);
                        assert(self.den_cont@[b] == s0.den_cont@[b]);
                        assert(kptr(ContTag::Relop2, j) == r);
                    }
                }
                assert(self.wf_base());
                assert(self.preloaded());
            }
            r
        }
    }

    /// Interns a let* continuation: the var, the body, and the saved env.
    pub fn intern_cont_let_star(&mut self, a: Ptr, b: Ptr, c: Ptr, d: ContPtr) -> (r: ContPtr)
        requires
            old(self).wf(),
            old(self)@.exprs.contains_key(a),
            old(self)@.exprs.contains_key(b),
            old(self)@.exprs.contains_key(c),
            old(self)@.conts.contains_key(d),
        ensures
            final(self).wf(),
            r.tag is LetStar,
            final(self)@.conts.contains_key(r),
            final(self)@.conts[r] == ContV::LetStar(Box::new(old(self)@.exprs[a]), Box::new(old(self)@.exprs[b]), Box::new(old(self)@.exprs[c]), Box::new(old(self)@.conts[d])),
            final(self)@.conts == old(self)@.conts.insert(
                r,
                ContV::LetStar(Box::new(old(self)@.exprs[a]), Box::new(old(self)@.exprs[b]), Box::new(old(self)@.exprs[c]), Box::new(old(self)@.conts[d])),
            ),
            final(self)@.exprs == old(self)@.exprs,
            final(self)@.syms == old(self)@.syms,
            final(self)@.strs == old(self)@.strs,
            final(self)@.scalar_exprs == old(self)@.scalar_exprs,
            final(self)@.scalar_conts == old(self)@.scalar_conts,
            final(self)@.cache4 == old(self)@.cache4,
            final(self)@.cache6 == old(self)@.cache6,
            final(self)@.cache8 == old(self)@.cache8,
            map_extends(old(self)@.exprs, final(self)@.exprs),
            map_extends(old(self)@.conts, final(self)@.conts),
    {
        let ghost s0 = *self;
        let ghost v = ContV::LetStar(Box::new(s0.den_expr@[a]), Box::new(s0.den_expr@[b]), Box::new(s0.den_expr@[c]), Box::new(s0.den_cont@[d]));
        let x = Self::eptr_words(&a);
        let y = Self::eptr_words(&b);
        let w = Self::eptr_words(&c);
        let z = Self::kptr_words(&d);
        let k = (x.0, x.1, y.0, y.1, w.0, w.1, z.0, z.1);
        proof {
            assert(k == key_eee_k(a, b, c, d));
        }
        let n = table_len(&self.let_star_store);
        let idx = table_insert(&mut self.let_star_store, k);
        let r = ContPtr::new(ContTag::LetStar, RawPtr::new(idx));
        if idx < n {
            proof {
                assert(table_entries(s0.let_star_store).contains(k));
                assert(let_star_entry_ok(
                    table_entries(s0.let_star_store), s0.let_star_list@, s0.den_expr@, s0.den_cont@,
                    idx as int,
                ));
                assert(enc_e(s0.let_star_list@[idx as int].0) == enc_e(a));
                lemma_enc_e_inj(s0.let_star_list@[idx as int].0, a);
                assert(enc_e(s0.let_star_list@[idx as int].1) == enc_e(b));
                lemma_enc_e_inj(s0.let_star_list@[idx as int].1, b);
                assert(enc_e(s0.let_star_list@[idx as int].2) == enc_e(c));
                lemma_enc_e_inj(s0.let_star_list@[idx as int].2, c);
                assert(enc_k(s0.let_star_list@[idx as int].3) == enc_k(d));
                lemma_enc_k_inj(s0.let_star_list@[idx as int].3, d);
                assert(s0.den_cont@[kptr(ContTag::LetStar, idx as int)] == v);
                assert(r == kptr(ContTag::LetStar, idx as int));
                assert(self.den_cont@ =~= s0.den_cont@.insert(r, v));
            }
            r
        } else {
            proof {
                assert(!table_entries(s0.let_star_store).contains(k));
                assert(idx == n);
            }
            self.let_star_list = Ghost(self.let_star_list@.push((a, b, c, d)));
            self.den_cont = Ghost(self.den_cont@.insert(r, v));
            proof {
                let e0 = table_entries(s0.let_star_store);
                let e1 = table_entries(self.let_star_store);
                let l0 = s0.let_star_list@;
                let l1 = self.let_star_list@;
                assert(e1 == e0.push(k));
                assert(l1 == l0.push((a, b, c, d)));
                assert(!s0.vck(r));
                assert forall|p: Ptr|
                    #![trigger self.vex(p)]
                    #![trigger s0.vex(p)]
                    self.vex(p) <==> s0.vex(p) by {}
                assert forall|kk: ContPtr|
                    #![trigger self.vck(kk)]
                    #![trigger s0.vck(kk)]
                    self.vck(kk) <==> (s0.vck(kk) || kk == r) by {
                    match kk.tag {
                        ContTag::LetStar => {
                            if kk.raw.idx == n {
                                assert(kk == r);
                            }
                        },
                        _ => {},
                    }
                }
                assert forall|q: ContPtr|
                    #![trigger s0.den_cont@[q]]
                    s0.den_cont@.contains_key(q) implies s0.den_cont@[q] != v by {
                    assert(s0.vck(q));
                    s0.lemma_tag_agree_cont(q);
                    if s0.den_cont@[q] == v {
                        assert(q.tag is LetStar);
                        let jq = q.raw.idx as int;
                        assert(let_star_entry_ok(
                            e0, l0, s0.den_expr@, s0.den_cont@,
                            jq,
                        ));
                        assert(q == kptr(ContTag::LetStar, jq));
                        assert(s0.den_expr@[l0[jq].0] == s0.den_expr@[a]);
                        assert(l0[jq].0 == a);
                        assert(s0.den_expr@[l0[jq].1] == s0.den_expr@[b]);
                        assert(l0[jq].1 == b);
                        assert(s0.den_expr@[l0[jq].2] == s0.den_expr@[c]);
                        assert(l0[jq].2 == c);
                        assert(s0.den_cont@[l0[jq].3] == s0.den_cont@[d]);
                        assert(l0[jq].3 == d);
                        assert(e0[jq] == k);
                        assert(e0.contains(k));
                    }
                }
                lemma_den_insert_cont(s0, *self, r, v);
                lemma_tabs_preserved(s0, *self);
                assert forall|j: int| 0 <= j < l1.len() implies let_star_entry_ok(
                    e1, l1, self.den_expr@, self.den_cont@,
                    j,
                ) by {
                    if j < l0.len() {
                        assert(let_star_entry_ok(
                            e0, l0, s0.den_expr@, s0.den_cont@,
                            j,
                        ));
                        assert(e1[j] == e0[j]);
                        assert(l1[j] == l0[j]);
                    } else {
                        assert(j == l0.len());
                        assert(e1[j] == k);
                        assert(l1[j] == (a, b, c, d));
                        assert(self.den_expr@[a] == s0.den_expr@[a]);
                        assert(self.den_expr@[b] == s0.den_expr@[b]);
                        assert(self.den_expr@[c] == s0.den_expr@[c]);
                        assert(self.den_cont@[d] == s0.den_cont@[d]);
                        assert(kptr(ContTag::LetStar, j) == r);
                    }
                }
                assert(self.wf_base());
                assert(self.preloaded());
            }
            r
        }
    }

    /// Interns a letrec* continuation: the var, the body, and the saved env.
    pub fn intern_cont_let_rec_star(&mut self, a: Ptr, b: Ptr, c: Ptr, d: ContPtr) -> (r: ContPtr)
        requires
            old(self).wf(),
            old(self)@.exprs.contains_key(a),
            old(self)@.exprs.contains_key(b),
            old(self)@.exprs.contains_key(c),
            old(self)@.conts.contains_key(d),
        ensures
            final(self).wf(),
            r.tag is LetRecStar,
            final(self)@.conts.contains_key(r),
            final(self)@.conts[r] == ContV::LetRecStar(Box::new(old(self)@.exprs[a]), Box::new(old(self)@.exprs[b]), Box::new(old(self)@.exprs[c]), Box::new(old(self)@.conts[d])),
            final(self)@.conts == old(self)@.conts.insert(
                r,
                ContV::LetRecStar(Box::new(old(self)@.exprs[a]), Box::new(old(self)@.exprs[b]), Box::new(old(self)@.exprs[c]), Box::new(old(self)@.conts[d])),
            ),
            final(self)@.exprs == old(self)@.exprs,
            final(self)@.syms == old(self)@.syms,
            final(self)@.strs == old(self)@.strs,
            final(self)@.scalar_exprs == old(self)@.scalar_exprs,
            final(self)@.scalar_conts == old(self)@.scalar_conts,
            final(self)@.cache4 == old(self)@.cache4,
            final(self)@.cache6 == old(self)@.cache6,
            final(self)@.cache8 == old(self)@.cache8,
            map_extends(old(self)@.exprs, final(self)@.exprs),
            map_extends(old(self)@.conts, final(self)@.conts),
    {
        let ghost s0 = *self;
        let ghost v = ContV::LetRecStar(Box::new(s0.den_expr@[a]), Box::new(s0.den_expr@[b]), Box::new(s0.den_expr@[c]), Box::new(s0.den_cont@[d]));
        let x = Self::eptr_words(&a);
        let y = Self::eptr_words(&b);
        let w = Self::eptr_words(&c);
        let z = Self::kptr_words(&d);
        let k = (x.0, x.1, y.0, y.1, w.0, w.1, z.0, z.1);
        proof {
            assert(k == key_eee_k(a, b, c, d));
        }
        let n = table_len(&self.let_rec_star_store);
        let idx = table_insert(&mut self.let_rec_star_store, k);
        let r = ContPtr::new(ContTag::LetRecStar, RawPtr::new(idx));
        if idx < n {
            proof {
                assert(table_entries(s0.let_rec_star_store).contains(k));
                assert(let_rec_star_entry_ok(
                    table_entries(s0.let_rec_star_store), s0.let_rec_star_list@, s0.den_expr@, s0.den_cont@,
                    idx as int,
                ));
                assert(enc_e(s0.let_rec_star_list@[idx as int].0) == enc_e(a));
                lemma_enc_e_inj(s0.let_rec_star_list@[idx as int].0, a);
                assert(enc_e(s0.let_rec_star_list@[idx as int].1) == enc_e(b));
                lemma_enc_e_inj(s0.let_rec_star_list@[idx as int].1, b);
                assert(enc_e(s0.let_rec_star_list@[idx as int].2) == enc_e(c));
                lemma_enc_e_inj(s0.let_rec_star_list@[idx as int].2, c);
                assert(enc_k(s0.let_rec_star_list@[idx as int].3) == enc_k(d));
                lemma_enc_k_inj(s0.let_rec_star_list@[idx as int].3, d);
                assert(s0.den_cont@[kptr(ContTag::LetRecStar, idx as int)] == v);
                assert(r == kptr(ContTag::LetRecStar, idx as int));
                assert(self.den_cont@ =~= s0.den_cont@.insert(r, v));
            }
            r
        } else {
            proof {
                assert(!table_entries(s0.let_rec_star_store).contains(k));
                assert(idx == n);
            }
            self.let_rec_star_list = Ghost(self.let_rec_star_list@.push((a, b, c, d)));
            self.den_cont = Ghost(self.den_cont@.insert(r, v));
            proof {
                let e0 = table_entries(s0.let_rec_star_store);
                let e1 = table_entries(self.let_rec_star_store);
                let l0 = s0.let_rec_star_list@;
                let l1 = self.let_rec_star_list@;
                assert(e1 == e0.push(k));
                assert(l1 == l0.push((a, b, c, d)));
                assert(!s0.vck(r));
                assert forall|p: Ptr|
                    #![trigger self.vex(p)]
                    #![trigger s0.vex(p)]
                    self.vex(p) <==> s0.vex(p) by {}
                assert forall|kk: ContPtr|
                    #![trigger self.vck(kk)]
                    #![trigger s0.vck(kk)]
                    self.vck(kk) <==> (s0.vck(kk) || kk == r) by {
                    match kk.tag {
                        ContTag::LetRecStar => {
                            if kk.raw.idx == n {
                                assert(kk == r);
                            }
                        },
                        _ => {},
                    }
                }
                assert forall|q: ContPtr|
                    #![trigger s0.den_cont@[q]]
                    s0.den_cont@.contains_key(q) implies s0.den_cont@[q] != v by {
                    assert(s0.vck(q));
                    s0.lemma_tag_agree_cont(q);
                    if s0.den_cont@[q] == v {
                        assert(q.tag is LetRecStar);
                        let jq = q.raw.idx as int;
                        assert(let_rec_star_entry_ok(
                            e0, l0, s0.den_expr@, s0.den_cont@,
                            jq,
                        ));
                        assert(q == kptr(ContTag::LetRecStar, jq));
                        assert(s0.den_expr@[l0[jq].0] == s0.den_expr@[a]);
                        assert(l0[jq].0 == a);
                        assert(s0.den_expr@[l0[jq].1] == s0.den_expr@[b]);
                        assert(l0[jq].1 == b);
                        assert(s0.den_expr@[l0[jq].2] == s0.den_expr@[c]);
                        assert(l0[jq].2 == c);
                        assert(s0.den_cont@[l0[jq].3] == s0.den_cont@[d]);
                        assert(l0[jq].3 == d);
                        assert(e0[jq] == k);
                        assert(e0.contains(k));
                    }
                }
                lemma_den_insert_cont(s0, *self, r, v);
                lemma_tabs_preserved(s0, *self);
                assert forall|j: int| 0 <= j < l1.len() implies let_rec_star_entry_ok(
                    e1, l1, self.den_expr@, self.den_cont@,
                    j,
                ) by {
                    if j < l0.len() {
                        assert(let_rec_star_entry_ok(
                            e0, l0, s0.den_expr@, s0.den_cont@,
                            j,
                        ));
                        assert(e1[j] == e0[j]);
                        assert(l1[j] == l0[j]);
                    } else {
                        assert(j == l0.len());
                        assert(e1[j] == k);
                        assert(l1[j] == (a, b, c, d));
                        assert(self.den_expr@[a] == s0.den_expr@[a]);
                        assert(self.den_expr@[b] == s0.den_expr@[b]);
                        assert(self.den_expr@[c] == s0.den_expr@[c]);
                        assert(self.den_cont@[d] == s0.den_cont@[d]);
                        assert(kptr(ContTag::LetRecStar, j) == r);
                    }
                }
                assert(self.wf_base());
                assert(self.preloaded());
            }
            r
        }
    }
}


impl Store {
    /// Interns a raw string: equal strings share one slot.
    pub fn intern_str(&mut self, name: &str) -> (r: Ptr)
        requires
            old(self).wf(),
        ensures
            final(self).wf(),
            r.tag is Str,
            final(self)@.exprs.contains_key(r),
            final(self)@.exprs[r] == ExprV::Str(name@),
            final(self)@.exprs == old(self)@.exprs.insert(r, ExprV::Str(name@)),
            final(self)@.conts == old(self)@.conts,
            final(self)@.syms == old(self)@.syms,
            final(self)@.scalar_exprs == old(self)@.scalar_exprs,
            final(self)@.scalar_conts == old(self)@.scalar_conts,
            final(self)@.cache4 == old(self)@.cache4,
            final(self)@.cache6 == old(self)@.cache6,
            final(self)@.cache8 == old(self)@.cache8,
            map_extends(old(self)@.exprs, final(self)@.exprs),
            map_extends(old(self)@.conts, final(self)@.conts),
            final(self)@.strs == old(self)@.strs || final(self)@.strs == old(self)@.strs.push(
                (r.raw.idx, name@),
            ),
            str_entries_has_name(old(self)@.strs, name@) ==> final(self)@.strs == old(
                self,
            )@.strs,
            str_entries_has_name(final(self)@.strs, name@),
            name_at(final(self)@.strs, r.raw.idx, name@),
    {
        let ghost s0 = *self;
        let got = str_table_get(&self.str_store, name);
        match got {
            Some(id) => {
                let r = Ptr::new(Tag::Str, RawPtr::new(id));
                proof {
                    let e = s0.strs();
                    assert(e.contains((id, name@)));
                    let j = choose|j: int| 0 <= j < e.len() && #[trigger] e[j] == (id, name@);
                    assert(str_entry_ok(e, s0.den_expr@, j));
                    assert(id_in(e, id));
                    assert(s0.vex(r));
                    assert(s0.den_expr@[r] == ExprV::Str(name@));
                    assert(self.den_expr@ =~= s0.den_expr@.insert(r, ExprV::Str(name@)));
                    assert(str_entries_has_name(e, name@));
                }
                r
            },
            None => {
                let id = str_table_intern(&mut self.str_store, name);
                self.str_ids.push(id);
                let r = Ptr::new(Tag::Str, RawPtr::new(id));
                self.den_expr = Ghost(self.den_expr@.insert(r, ExprV::Str(name@)));
                proof {
                    let e0 = s0.strs();
                    let e1 = self.strs();
                    let v = ExprV::Str(name@);
                    assert(e1 == e0.push((id, name@)));
                    assert(e1[e0.len() as int] == (id, name@));
                    assert forall|i: int| 0 <= i < e0.len() implies e0[i].0 < id && e0[i].1
                        != name@ by {
                        if e0[i].1 == name@ {
                            assert(str_entries_has_name(e0, name@));
                        }
                    }
                    assert forall|i: int, j: int|
                        #![trigger e1[i], e1[j]]
                        0 <= i < j < e1.len() implies e1[i].0 < e1[j].0 && e1[i].1 != e1[j].1 by {
                        if j < e0.len() {
                            assert(e1[i] == e0[i] && e1[j] == e0[j]);
                        } else {
                            assert(e1[i] == e0[i]);
                        }
                    }
                    assert(mirror_ok(e1, self.str_ids@)) by {
                        assert(self.str_ids@ == s0.str_ids@.push(id));
                        assert forall|j: int| 0 <= j < e1.len() implies self.str_ids@[j]
                            == e1[j].0 by {
                            if j < e0.len() {
                                assert(s0.str_ids@[j] == e0[j].0);
                            }
                        }
                    }
                    assert(!s0.vex(r)) by {
                        if id_in(e0, id) {
                            let j = choose|j: int|
                                0 <= j < e0.len() && (#[trigger] e0[j]).0 == id;
                            assert(e0[j].0 < id);
                        }
                    }
                    assert forall|p: Ptr|
                        #![trigger self.vex(p)]
                        #![trigger s0.vex(p)]
                        self.vex(p) <==> (s0.vex(p) || p == r) by {
                        match p.tag {
                            Tag::Str => {
                                if id_in(e1, p.raw.idx) {
                                    let j = choose|j: int|
                                        0 <= j < e1.len() && (#[trigger] e1[j]).0 == p.raw.idx;
                                    if j < e0.len() {
                                        assert(id_in(e0, p.raw.idx));
                                    } else {
                                        assert(p == r);
                                    }
                                }
                                if id_in(e0, p.raw.idx) {
                                    let j = choose|j: int|
                                        0 <= j < e0.len() && (#[trigger] e0[j]).0 == p.raw.idx;
                                    assert(e1[j] == e0[j]);
                                    assert(id_in(e1, p.raw.idx));
                                }
                                if p.raw.idx == id {
                                    assert(id_in(e1, id));
                                }
                            },
                            _ => {},
                        }
                    }
                    assert forall|kk: ContPtr|
                        #![trigger self.vck(kk)]
                        #![trigger s0.vck(kk)]
                        self.vck(kk) <==> s0.vck(kk) by {}
                    assert forall|q: Ptr|
                        #![trigger s0.den_expr@[q]]
                        s0.den_expr@.contains_key(q) implies s0.den_expr@[q] != v by {
                        assert(s0.vex(q));
                        s0.lemma_tag_agree_expr(q);
                        if s0.den_expr@[q] == v {
                            assert(q.tag is Str);
                            let j = choose|j: int|
                                0 <= j < e0.len() && (#[trigger] e0[j]).0 == q.raw.idx;
                            assert(str_entry_ok(e0, s0.den_expr@, j));
                            assert(pstr(e0[j].0) == q);
                            assert(e0[j].1 == name@);
                            assert(str_entries_has_name(e0, name@));
                        }
                    }
                    lemma_den_insert_expr(s0, *self, r, v);
                    lemma_tabs_preserved(s0, *self);
                    assert forall|j: int| 0 <= j < e1.len() implies str_entry_ok(
                        e1,
                        self.den_expr@,
                        j,
                    ) by {
                        if j < e0.len() {
                            assert(str_entry_ok(e0, s0.den_expr@, j));
                            assert(e1[j] == e0[j]);
                            assert(s0.den_expr@.contains_key(pstr(e0[j].0)));
                        } else {
                            assert(e1[j] == (id, name@));
                            assert(pstr(id) == r);
                        }
                    }
                    assert(self.wf_base());
                    assert(self.preloaded());
                }
                r
            },
        }
    }

    /// Looks a symbol up without interning, optionally upper-casing first.
    pub fn get_sym(&self, name: &str, convert_case: bool) -> (r: Option<Ptr>)
        requires
            self.wf(),
        ensures
            ({
                let nm = if convert_case { upper_seq(name@) } else { name@ };
                match r {
                    Some(p) => {
                        &&& self@.exprs.contains_key(p)
                        &&& self@.exprs[p] == sym_den_val(nm)
                        &&& p.tag == (if nm == nil_name() { Tag::Nil } else { Tag::Sym })
                    },
                    None => !str_entries_has_name(self@.syms, nm),
                }
            }),
    {
        let nil_lit = String::from_str("NIL");
        let looked: Option<usize> = if convert_case {
            let up = upcase_ascii(name);
            let is_nil = up == nil_lit;
            let got = str_table_get(&self.sym_store, up.as_str());
            match got {
                Some(id) => Some(id),
                None => None,
            }
        } else {
            str_table_get(&self.sym_store, name)
        };
        let ghost nm = if convert_case { upper_seq(name@) } else { name@ };
        let up2 = if convert_case {
            upcase_ascii(name)
        } else {
            String::from_str(name)
        };
        let is_nil = up2 == nil_lit;
        match looked {
            Some(id) => {
                let tag = if is_nil {
                    Tag::Nil
                } else {
                    Tag::Sym
                };
                let r = Ptr::new(tag, RawPtr::new(id));
                proof {
                    let e = self.syms();
                    assert(e.contains((id, nm)));
                    let j = choose|j: int| 0 <= j < e.len() && #[trigger] e[j] == (id, nm);
                    assert(sym_entry_ok(e, self.nil_id, self.den_expr@, j));
                    if is_nil {
                        assert(id == self.nil_id);
                        assert(name_at(e, self.nil_id, nil_name()));
                        assert(self.vex(r));
                    } else {
                        assert(sym_id_ok(e, id));
                        assert(self.vex(r));
                    }
                }
                Some(r)
            },
            None => None,
        }
    }

    /// Looks a string up without interning.
    pub fn get_str(&self, name: &str) -> (r: Option<Ptr>)
        requires
            self.wf(),
        ensures
            match r {
                Some(p) => {
                    &&& self@.exprs.contains_key(p)
                    &&& self@.exprs[p] == ExprV::Str(name@)
                    &&& p.tag is Str
                },
                None => !str_entries_has_name(self@.strs, name@),
            },
    {
        let got = str_table_get(&self.str_store, name);
        match got {
            Some(id) => {
                let r = Ptr::new(Tag::Str, RawPtr::new(id));
                proof {
                    let e = self.strs();
                    assert(e.contains((id, name@)));
                    let j = choose|j: int| 0 <= j < e.len() && #[trigger] e[j] == (id, name@);
                    assert(str_entry_ok(e, self.den_expr@, j));
                    assert(id_in(e, id));
                    assert(self.vex(r));
                }
                Some(r)
            },
            None => None,
        }
    }

    /// Interns a cons cell.
    pub fn cons(&mut self, car: Ptr, cdr: Ptr) -> (r: Ptr)
        requires
            old(self).wf(),
            old(self)@.exprs.contains_key(car),
            old(self)@.exprs.contains_key(cdr),
        ensures
            final(self).wf(),
            r.tag is Cons,
            final(self)@.exprs.contains_key(r),
            final(self)@.exprs[r] == ExprV::Cons(
                Box::new(old(self)@.exprs[car]),
                Box::new(old(self)@.exprs[cdr]),
            ),
            final(self)@.exprs == old(self)@.exprs.insert(
                r,
                ExprV::Cons(Box::new(old(self)@.exprs[car]), Box::new(old(self)@.exprs[cdr])),
            ),
            final(self)@.conts == old(self)@.conts,
            final(self)@.syms == old(self)@.syms,
            final(self)@.strs == old(self)@.strs,
            final(self)@.scalar_exprs == old(self)@.scalar_exprs,
            final(self)@.scalar_conts == old(self)@.scalar_conts,
            final(self)@.cache4 == old(self)@.cache4,
            final(self)@.cache6 == old(self)@.cache6,
            final(self)@.cache8 == old(self)@.cache8,
            map_extends(old(self)@.exprs, final(self)@.exprs),
            map_extends(old(self)@.conts, final(self)@.conts),
    {
        self.intern_cons(car, cdr)
    }

    /// Interns a number given as a machine integer.
    pub fn num(&mut self, n: u64) -> (r: Ptr)
        requires
            old(self).wf(),
        ensures
            final(self).wf(),
            r.tag is Num,
            final(self)@.exprs.contains_key(r),
            final(self)@.exprs[r] == ExprV::Num(n),
            final(self)@.exprs == old(self)@.exprs.insert(r, ExprV::Num(n)),
            final(self)@.conts == old(self)@.conts,
            final(self)@.syms == old(self)@.syms,
            final(self)@.strs == old(self)@.strs,
            final(self)@.scalar_exprs == old(self)@.scalar_exprs,
            final(self)@.scalar_conts == old(self)@.scalar_conts,
            final(self)@.cache4 == old(self)@.cache4,
            final(self)@.cache6 == old(self)@.cache6,
            final(self)@.cache8 == old(self)@.cache8,
            map_extends(old(self)@.exprs, final(self)@.exprs),
            map_extends(old(self)@.conts, final(self)@.conts),
    {
        self.intern_num(Num::new(n))
    }

    /// Destructures nil or a cons cell: nil splits into `(nil, nil)`.
    pub fn car_cdr(&self, ptr: &Ptr) -> (r: (Ptr, Ptr))
        requires
            self.wf(),
            self@.exprs.contains_key(*ptr),
            (ptr.tag is Nil) || (ptr.tag is Cons),
        ensures
            self@.exprs.contains_key(r.0),
            self@.exprs.contains_key(r.1),
            ptr.tag is Nil ==> self@.exprs[r.0] == ExprV::Nil && self@.exprs[r.1] == ExprV::Nil,
            ptr.tag is Cons ==> self@.exprs[*ptr] == ExprV::Cons(
                Box::new(self@.exprs[r.0]),
                Box::new(self@.exprs[r.1]),
            ),
    {
        if ptr.is_nil() {
            (self.get_nil(), self.get_nil())
        } else {
            let got = table_get(&self.cons_store, ptr.raw.idx);
            proof {
                assert(self.vex(*ptr));
                assert(cons_entry_ok(
                    table_entries(self.cons_store),
                    self.cons_list@,
                    self.den_expr@,
                    ptr.raw.idx as int,
                ));
            }
            match got {
                Some(k) => {
                    let a = Self::decode_eptr(k.0, k.1);
                    let b = Self::decode_eptr(k.2, k.3);
                    proof {
                        let idx = ptr.raw.idx as int;
                        let ca = self.cons_list@[idx].0;
                        let cb = self.cons_list@[idx].1;
                        assert(k == key_cons(ca, cb));
                        assert(enc_e(ca) == (k.0, k.1));
                        assert(enc_e(cb) == (k.2, k.3));
                        assert(a == Some(ca));
                        assert(b == Some(cb));
                        assert(pcons(idx) == *ptr);
                    }
                    match (a, b) {
                        (Some(x), Some(y)) => (x, y),
                        _ => vstd::pervasive::unreached(),
                    }
                },
                None => vstd::pervasive::unreached(),
            }
        }
    }

    /// The head of nil or a cons cell.
    pub fn car(&self, expr: &Ptr) -> (r: Ptr)
        requires
            self.wf(),
            self@.exprs.contains_key(*expr),
            (expr.tag is Nil) || (expr.tag is Cons),
        ensures
            self@.exprs.contains_key(r),
            expr.tag is Nil ==> self@.exprs[r] == ExprV::Nil,
            expr.tag is Cons ==> (self@.exprs[*expr] matches ExprV::Cons(a, _b) && *a
                == self@.exprs[r]),
    {
        let r = self.car_cdr(expr);
        r.0
    }

    /// The tail of nil or a cons cell.
    pub fn cdr(&self, expr: &Ptr) -> (r: Ptr)
        requires
            self.wf(),
            self@.exprs.contains_key(*expr),
            (expr.tag is Nil) || (expr.tag is Cons),
        ensures
            self@.exprs.contains_key(r),
            expr.tag is Nil ==> self@.exprs[r] == ExprV::Nil,
            expr.tag is Cons ==> (self@.exprs[*expr] matches ExprV::Cons(_a, b) && *b
                == self@.exprs[r]),
    {
        let r = self.car_cdr(expr);
        r.1
    }

    /// Decodes a pointer from its table key words.
    fn decode_eptr(t: u64, i: u64) -> (r: Option<Ptr>)
        ensures
            forall|p: Ptr| enc_e(p) == (t, i) ==> r == Some(p),
    {
        let tag = if t == 0 {
            Some(Tag::Nil)
        } else if t == 1 {
            Some(Tag::Cons)
        } else if t == 2 {
            Some(Tag::Sym)
        } else if t == 3 {
            Some(Tag::Fun)
        } else if t == 4 {
            Some(Tag::Num)
        } else if t == 5 {
            Some(Tag::Thunk)
        } else if t == 6 {
            Some(Tag::Str)
        } else {
            None
        };
        match tag {
            Some(tg) => {
                if i <= usize::MAX as u64 {
                    Some(Ptr::new(tg, RawPtr::new(i as usize)))
                } else {
                    None
                }
            },
            None => None,
        }
    }

    /// Decodes a continuation pointer from its table key words.
    fn decode_kptr(t: u64, i: u64) -> (r: Option<ContPtr>)
        ensures
            forall|p: ContPtr| enc_k(p) == (t, i) ==> r == Some(p),
    {
        let tag = if t == 0x1000 {
            Some(ContTag::Outermost)
        } else if t == 0x1001 {
            Some(ContTag::Simple)
        } else if t == 0x1002 {
            Some(ContTag::Call)
        } else if t == 0x1003 {
            Some(ContTag::Call2)
        } else if t == 0x1004 {
            Some(ContTag::Tail)
        } else if t == 0x1005 {
            Some(ContTag::Error)
        } else if t == 0x1006 {
            Some(ContTag::Lookup)
        } else if t == 0x1007 {
            Some(ContTag::Unop)
        } else if t == 0x1008 {
            Some(ContTag::Binop)
        } else if t == 0x1009 {
            Some(ContTag::Binop2)
        } else if t == 0x100a {
            Some(ContTag::Relop)
        } else if t == 0x100b {
            Some(ContTag::Relop2)
        } else if t == 0x100c {
            Some(ContTag::If)
        } else if t == 0x100d {
            Some(ContTag::LetStar)
        } else if t == 0x100e {
            Some(ContTag::LetRecStar)
        } else if t == 0x100f {
            Some(ContTag::Dummy)
        } else if t == 0x1010 {
            Some(ContTag::Terminal)
        } else {
            None
        };
        match tag {
            Some(tg) => {
                if i <= usize::MAX as u64 {
                    Some(ContPtr::new(tg, RawPtr::new(i as usize)))
                } else {
                    None
                }
            },
            None => None,
        }
    }
}

/// The right fold that a list of trees interns to: each element consed onto
/// the rest, ending in nil.
pub open spec fn list_den(s: Seq<ExprV>) -> ExprV
    decreases s.len(),
{
    if s.len() == 0 {
        ExprV::Nil
    } else {
        ExprV::Cons(Box::new(s[0]), Box::new(list_den(s.drop_first())))
    }
}

impl Store {
    /// Interns a list: the right fold of conses over the elements, ending
    /// in nil.
    pub fn intern_list(&mut self, elts: &Vec<Ptr>) -> (r: Ptr)
        requires
            old(self).wf(),
            forall|j: int| 0 <= j < elts@.len() ==> old(self)@.exprs.contains_key(#[trigger] elts@[j]),
        ensures
            final(self).wf(),
            final(self)@.exprs.contains_key(r),
            final(self)@.exprs[r] == list_den(
                Seq::new(elts@.len(), |j: int| old(self)@.exprs[elts@[j]]),
            ),
            final(self)@.conts == old(self)@.conts,
            final(self)@.syms == old(self)@.syms,
            final(self)@.strs == old(self)@.strs,
            final(self)@.scalar_exprs == old(self)@.scalar_exprs,
            final(self)@.scalar_conts == old(self)@.scalar_conts,
            final(self)@.cache4 == old(self)@.cache4,
            final(self)@.cache6 == old(self)@.cache6,
            final(self)@.cache8 == old(self)@.cache8,
            map_extends(old(self)@.exprs, final(self)@.exprs),
            map_extends(old(self)@.conts, final(self)@.conts),
            map_extends(old(self)@.exprs, final(self)@.exprs),
    {
        let ghost s0 = *self;
        let ghost trees = Seq::new(elts@.len(), |j: int| s0.den_expr@[elts@[j]]);
        let mut acc = self.get_nil();
        let mut i: usize = elts.len();
        proof {
            assert(trees.skip(i as int) =~= Seq::<ExprV>::empty());
            assert(self.den_expr@ =~= s0.den_expr@);
        }
        while i > 0
            invariant
                self.wf(),
                i <= elts@.len(),
                trees.len() == elts@.len(),
                forall|j: int|
                    0 <= j < elts@.len() ==> self@.exprs.contains_key(#[trigger] elts@[j])
                        && self@.exprs[elts@[j]] == trees[j],
                self@.exprs.contains_key(acc),
                self@.exprs[acc] == list_den(trees.skip(i as int)),
                self@.conts == s0@.conts,
                self@.syms == s0@.syms,
                self@.strs == s0@.strs,
                self@.scalar_exprs == s0@.scalar_exprs,
                self@.scalar_conts == s0@.scalar_conts,
                self@.cache4 == s0@.cache4,
                self@.cache6 == s0@.cache6,
                self@.cache8 == s0@.cache8,
                map_extends(s0.den_expr@, self.den_expr@),
            decreases i,
        {
            i = i - 1;
            let ghost pre = *self;
            acc = self.intern_cons(elts[i], acc);
            proof {
                assert(trees.skip(i as int) =~= seq![trees[i as int]] + trees.skip(i + 1));
                assert(trees.skip(i as int).drop_first() =~= trees.skip(i + 1));
                assert(self@.exprs[acc] == ExprV::Cons(
                    Box::new(trees[i as int]),
                    Box::new(list_den(trees.skip(i + 1))),
                ));
                assert forall|j: int|
                    0 <= j < elts@.len() implies self@.exprs.contains_key(#[trigger] elts@[j])
                    && self@.exprs[elts@[j]] == trees[j] by {
                    assert(pre@.exprs.contains_key(elts@[j]));
                }
            }
        }
        proof {
            assert(trees.skip(0) =~= trees);
        }
        acc
    }

    /// Interns a list.
    pub fn list(&mut self, elts: &Vec<Ptr>) -> (r: Ptr)
        requires
            old(self).wf(),
            forall|j: int| 0 <= j < elts@.len() ==> old(self)@.exprs.contains_key(#[trigger] elts@[j]),
        ensures
            final(self).wf(),
            final(self)@.exprs.contains_key(r),
            final(self)@.exprs[r] == list_den(
                Seq::new(elts@.len(), |j: int| old(self)@.exprs[elts@[j]]),
            ),
            map_extends(old(self)@.exprs, final(self)@.exprs),
            final(self)@.conts == old(self)@.conts,
    {
        self.intern_list(elts)
    }
}


/// After hashing a node, the Poseidon cache of its digest's arity holds
/// the digest preimage.  Leaves hash as strings or identically and need no
/// fixed-arity entry here.
pub open spec fn digest_preimage_cached(m: StoreModel, e: ExprV) -> bool {
    match e {
        ExprV::Cons(a, d) => m.cache4.contains_key(crate::model::cons_preimage(*a, *d)),
        ExprV::Fun(a, b, env) => m.cache6.contains_key(
            crate::model::fun_preimage(*a, *b, *env),
        ),
        ExprV::Thunk(v, k) => m.cache4.contains_key(crate::model::thunk_preimage(*v, *k)),
        _ => true,
    }
}

/// Cache membership of a digest preimage survives cache growth.
proof fn lemma_preimage_cached_mono(m1: StoreModel, m2: StoreModel, e: ExprV)
    requires
        digest_preimage_cached(m1, e),
        map_extends(m1.cache4, m2.cache4),
        map_extends(m1.cache6, m2.cache6),
    ensures
        digest_preimage_cached(m2, e),
{
}

/// The hashed view is unchanged: no tables or denotations moved.
pub open spec fn same_skeleton(a: StoreModel, b: StoreModel) -> bool {
    &&& b.exprs == a.exprs
    &&& b.conts == a.conts
    &&& b.syms == a.syms
    &&& b.strs == a.strs
}

/// Hashing only grows the reverse maps and the Poseidon caches.
pub open spec fn hash_grows(a: StoreModel, b: StoreModel) -> bool {
    &&& map_extends(a.scalar_exprs, b.scalar_exprs)
    &&& map_extends(a.scalar_conts, b.scalar_conts)
    &&& map_extends(a.cache4, b.cache4)
    &&& map_extends(a.cache6, b.cache6)
    &&& map_extends(a.cache8, b.cache8)
}

impl Store {
    fn contains_id(ids: &Vec<usize>, id: usize) -> (r: bool)
        ensures
            r == ids@.contains(id),
    {
        let n = ids.len();
        let mut i: usize = 0;
        while i < n
            invariant
                n == ids@.len(),
                i <= n,
                forall|j: int| 0 <= j < i ==> ids@[j] != id,
            decreases n - i,
        {
            if ids[i] == id {
                return true;
            }
            i += 1;
        }
        proof {
            if ids@.contains(id) {
                let j = choose|j: int| 0 <= j < ids@.len() && ids@[j] == id;
            }
        }
        false
    }

    /// Whether a pointer names a live expression slot.
    pub fn has_expr(&self, p: &Ptr) -> (r: bool)
        requires
            self.wf(),
        ensures
            r == self@.exprs.contains_key(*p),
    {
        let r = match p.tag {
            Tag::Nil => p.raw.idx == self.nil_id,
            Tag::Sym => {
                Self::contains_id(&self.sym_ids, p.raw.idx) && p.raw.idx != self.nil_id
            },
            Tag::Str => Self::contains_id(&self.str_ids, p.raw.idx),
            Tag::Cons => p.raw.idx < table_len(&self.cons_store),
            Tag::Num => p.raw.idx < table_len(&self.num_store),
            Tag::Fun => p.raw.idx < table_len(&self.fun_store),
            Tag::Thunk => p.raw.idx < table_len(&self.thunk_store),
        };
        proof {
            let e = self.syms();
            match p.tag {
                Tag::Nil => {
                    assert(name_at(e, self.nil_id, nil_name()));
                },
                Tag::Sym => {
                    if self.sym_ids@.contains(p.raw.idx) && p.raw.idx != self.nil_id {
                        let j = choose|j: int|
                            0 <= j < self.sym_ids@.len() && self.sym_ids@[j] == p.raw.idx;
                        assert(e[j].0 == p.raw.idx);
                        assert(sym_entry_ok(e, self.nil_id, self.den_expr@, j));
                        if e[j].1 == nil_name() {
                            assert(e[j].0 == self.nil_id);
                        }
                        assert(sym_id_ok(e, p.raw.idx));
                    }
                    if sym_id_ok(e, p.raw.idx) {
                        let j = choose|j: int|
                            0 <= j < e.len() && (#[trigger] e[j]).0 == p.raw.idx && e[j].1
                                != nil_name();
                        assert(self.sym_ids@[j] == p.raw.idx);
                        assert(self.sym_ids@.contains(p.raw.idx));
                        assert(sym_entry_ok(e, self.nil_id, self.den_expr@, j));
                        if p.raw.idx == self.nil_id {
                            let jn = choose|jn: int|
                                0 <= jn < e.len() && #[trigger] e[jn] == (
                                self.nil_id,
                                nil_name(),
                                );
                            assert(e[jn].0 == e[j].0);
                            if jn < j {
                                assert(e[jn].0 < e[j].0);
                            }
                            if j < jn {
                                assert(e[j].0 < e[jn].0);
                            }
                            assert(jn == j);
                        }
                    }
                },
                Tag::Str => {
                    let es = self.strs();
                    if self.str_ids@.contains(p.raw.idx) {
                        let j = choose|j: int|
                            0 <= j < self.str_ids@.len() && self.str_ids@[j] == p.raw.idx;
                        assert(es[j].0 == p.raw.idx);
                        assert(id_in(es, p.raw.idx));
                    }
                    if id_in(es, p.raw.idx) {
                        let j = choose|j: int|
                            0 <= j < es.len() && (#[trigger] es[j]).0 == p.raw.idx;
                        assert(self.str_ids@[j] == p.raw.idx);
                        assert(self.str_ids@.contains(p.raw.idx));
                    }
                },
                _ => {},
            }
        }
        r
    }

    /// Whether a pointer names a live continuation slot.
    pub fn has_cont(&self, p: &ContPtr) -> (r: bool)
        requires
            self.wf(),
        ensures
            r == self@.conts.contains_key(*p),
    {
        match p.tag {
            ContTag::Outermost => p.raw.idx == self.outermost_id,
            ContTag::Error => p.raw.idx == self.error_id,
            ContTag::Dummy => p.raw.idx == self.dummy_id,
            ContTag::Terminal => p.raw.idx == self.terminal_id,
            ContTag::Simple => p.raw.idx < table_len(&self.simple_store),
            ContTag::Call => p.raw.idx < table_len(&self.call_store),
            ContTag::Call2 => p.raw.idx < table_len(&self.call2_store),
            ContTag::Tail => p.raw.idx < table_len(&self.tail_store),
            ContTag::Lookup => p.raw.idx < table_len(&self.lookup_store),
            ContTag::Unop => p.raw.idx < table_len(&self.unop_store),
            ContTag::Binop => p.raw.idx < table_len(&self.binop_store),
            ContTag::Binop2 => p.raw.idx < table_len(&self.binop2_store),
            ContTag::Relop => p.raw.idx < table_len(&self.relop_store),
            ContTag::Relop2 => p.raw.idx < table_len(&self.relop2_store),
            ContTag::If => p.raw.idx < table_len(&self.if_store),
            ContTag::LetStar => p.raw.idx < table_len(&self.let_star_store),
            ContTag::LetRecStar => p.raw.idx < table_len(&self.let_rec_star_store),
        }
    }

    /// The canonical scalar-pointer constructor for expressions: builds the
    /// scalar pointer and records it in the reverse map, first writer wins.
    fn create_scalar_ptr(&mut self, ptr: Ptr, hash: Vec<u8>) -> (sp: ScalarPtr)
        requires
            old(self).wf(),
            old(self)@.exprs.contains_key(ptr),
            hash@ == crate::model::expr_digest(old(self)@.exprs[ptr]),
        ensures
            final(self).wf(),
            sp@ == crate::model::expr_scalar(old(self)@.exprs[ptr]),
            same_skeleton(old(self)@, final(self)@),
            hash_grows(old(self)@, final(self)@),
            final(self)@.scalar_conts == old(self)@.scalar_conts,
            final(self)@.cache4 == old(self)@.cache4,
            final(self)@.cache6 == old(self)@.cache6,
            final(self)@.cache8 == old(self)@.cache8,
            final(self)@.scalar_exprs.contains_key(sp@),
            (forall|q: Ptr|
                old(self)@.exprs.contains_key(q) && crate::model::expr_scalar(
                    old(self)@.exprs[q],
                ) == sp@ ==> q == ptr) ==> final(self)@.scalar_exprs[sp@] == enc_e(ptr),
    {
        let ghost s0 = *self;
        proof {
            s0.lemma_tag_agree_expr(ptr);
        }
        let tagv = ptr.tag_field();
        let sp = ScalarPtr::from_parts(tagv, hash);
        let ghost key = sp@;
        let k = (crate::cache::copy_bytes(sp.tag()), crate::cache::copy_bytes(sp.value()));
        let got = rev_get(&self.scalar_ptr_map, &k);
        match got {
            Some(_) => {
                proof {
                    assert(rev_entries(self.scalar_ptr_map).contains_key(key));
                    if forall|q: Ptr|
                        s0.den_expr@.contains_key(q) && crate::model::expr_scalar(
                            s0.den_expr@[q],
                        ) == key ==> q == ptr {
                        let q = choose|q: Ptr|
                            s0.den_expr@.contains_key(q) && rev_entries(s0.scalar_ptr_map)[key]
                                == enc_e(q) && key == crate::model::expr_scalar(s0.den_expr@[q]);
                        assert(q == ptr);
                    }
                }
                sp
            },
            None => {
                let w = Self::eptr_words(&ptr);
                rev_insert(&mut self.scalar_ptr_map, k, w);
                proof {
                    let m0 = rev_entries(s0.scalar_ptr_map);
                    let m1 = rev_entries(self.scalar_ptr_map);
                    assert(m1 == m0.insert(key, enc_e(ptr)));
                    assert forall|key2: (Seq<u8>, Seq<u8>)|
                        m1.contains_key(key2) implies exists|p2: Ptr|
                        self.den_expr@.contains_key(p2) && m1[key2] == enc_e(p2) && key2
                            == crate::model::expr_scalar(self.den_expr@[p2]) by {
                        if key2 == key {
                            assert(self.den_expr@.contains_key(ptr) && m1[key2] == enc_e(ptr)
                                && key2 == crate::model::expr_scalar(self.den_expr@[ptr]));
                        } else {
                            assert(m0.contains_key(key2));
                            let p2 = choose|p2: Ptr|
                                s0.den_expr@.contains_key(p2) && m0[key2] == enc_e(p2) && key2
                                    == crate::model::expr_scalar(s0.den_expr@[p2]);
                            assert(self.den_expr@.contains_key(p2) && m1[key2] == enc_e(p2)
                                && key2 == crate::model::expr_scalar(self.den_expr@[p2]));
                        }
                    }
                    assert(self.rev_expr_ok());
                    assert(self.wf_base());
                }
                sp
            },
        }
    }

    /// The canonical scalar-pointer constructor for continuations.
    fn create_cont_scalar_ptr(&mut self, ptr: ContPtr, hash: Vec<u8>) -> (sp: ScalarContPtr)
        requires
            old(self).wf(),
            old(self)@.conts.contains_key(ptr),
            hash@ == crate::model::cont_digest(old(self)@.conts[ptr]),
        ensures
            final(self).wf(),
            sp@ == crate::model::cont_scalar(old(self)@.conts[ptr]),
            same_skeleton(old(self)@, final(self)@),
            hash_grows(old(self)@, final(self)@),
            final(self)@.scalar_exprs == old(self)@.scalar_exprs,
            final(self)@.cache4 == old(self)@.cache4,
            final(self)@.cache6 == old(self)@.cache6,
            final(self)@.cache8 == old(self)@.cache8,
            final(self)@.scalar_conts.contains_key(sp@),
            (forall|q: ContPtr|
                old(self)@.conts.contains_key(q) && crate::model::cont_scalar(
                    old(self)@.conts[q],
                ) == sp@ ==> q == ptr) ==> final(self)@.scalar_conts[sp@] == enc_k(ptr),
    {
        let ghost s0 = *self;
        proof {
            s0.lemma_tag_agree_cont(ptr);
        }
        let tagv = ptr.tag_field();
        let sp = ScalarContPtr::from_parts(tagv, hash);
        let ghost key = sp@;
        let k = (crate::cache::copy_bytes(sp.tag()), crate::cache::copy_bytes(sp.value()));
        let got = rev_get(&self.scalar_ptr_cont_map, &k);
        match got {
            Some(_) => {
                proof {
                    assert(rev_entries(self.scalar_ptr_cont_map).contains_key(key));
                    if forall|q: ContPtr|
                        s0.den_cont@.contains_key(q) && crate::model::cont_scalar(
                            s0.den_cont@[q],
                        ) == key ==> q == ptr {
                        let q = choose|q: ContPtr|
                            s0.den_cont@.contains_key(q) && rev_entries(
                                s0.scalar_ptr_cont_map,
                            )[key] == enc_k(q) && key == crate::model::cont_scalar(
                                s0.den_cont@[q],
                            );
                        assert(q == ptr);
                    }
                }
                sp
            },
            None => {
                let w = Self::kptr_words(&ptr);
                rev_insert(&mut self.scalar_ptr_cont_map, k, w);
                proof {
                    let m0 = rev_entries(s0.scalar_ptr_cont_map);
                    let m1 = rev_entries(self.scalar_ptr_cont_map);
                    assert(m1 == m0.insert(key, enc_k(ptr)));
                    assert forall|key2: (Seq<u8>, Seq<u8>)|
                        m1.contains_key(key2) implies exists|p2: ContPtr|
                        self.den_cont@.contains_key(p2) && m1[key2] == enc_k(p2) && key2
                            == crate::model::cont_scalar(self.den_cont@[p2]) by {
                        if key2 == key {
                            assert(self.den_cont@.contains_key(ptr) && m1[key2] == enc_k(ptr)
                                && key2 == crate::model::cont_scalar(self.den_cont@[ptr]));
                        } else {
                            assert(m0.contains_key(key2));
                            let p2 = choose|p2: ContPtr|
                                s0.den_cont@.contains_key(p2) && m0[key2] == enc_k(p2) && key2
                                    == crate::model::cont_scalar(s0.den_cont@[p2]);
                            assert(self.den_cont@.contains_key(p2) && m1[key2] == enc_k(p2)
                                && key2 == crate::model::cont_scalar(self.den_cont@[p2]));
                        }
                    }
                    assert(self.rev_cont_ok());
                    assert(self.wf_base());
                }
                sp
            },
        }
    }

    fn push_scalar_e(pre: &mut Vec<Vec<u8>>, sp: ScalarPtr)
        ensures
            final(pre).deep_view() == old(pre).deep_view().push(sp@.0).push(sp@.1),
    {
        let ghost d0 = old(pre).deep_view();
        let (t, v) = sp.into_hash_components();
        pre.push(t);
        pre.push(v);
        proof {
            assert(pre.deep_view() =~~= d0.push(sp@.0).push(sp@.1));
        }
    }

    fn push_scalar_k(pre: &mut Vec<Vec<u8>>, sp: ScalarContPtr)
        ensures
            final(pre).deep_view() == old(pre).deep_view().push(sp@.0).push(sp@.1),
    {
        let ghost d0 = old(pre).deep_view();
        let (t, v) = sp.into_hash_components();
        pre.push(t);
        pre.push(v);
        proof {
            assert(pre.deep_view() =~~= d0.push(sp@.0).push(sp@.1));
        }
    }

    fn push_word_zero(pre: &mut Vec<Vec<u8>>, w: u64)
        ensures
            final(pre).deep_view() == old(pre).deep_view().push(crate::field::fe(w)).push(
                crate::field::fe(0),
            ),
    {
        let ghost d0 = old(pre).deep_view();
        pre.push(fe_from_u64(w));
        pre.push(fe_from_u64(0));
        proof {
            assert(pre.deep_view() =~~= d0.push(crate::field::fe(w)).push(crate::field::fe(0)));
        }
    }
}



impl Store {
    /// The scalar pointer of an expression: its tag and the Poseidon digest
    /// of its transitive content.  Digests are memoized and the scalar is
    /// recorded in the reverse map.  `None` exactly on dangling pointers.
    pub fn hash_expr(&mut self, ptr: &Ptr) -> (r: Option<ScalarPtr>)
        requires
            old(self).wf(),
        ensures
            final(self).wf(),
            same_skeleton(old(self)@, final(self)@),
            hash_grows(old(self)@, final(self)@),
            old(self)@.exprs.contains_key(*ptr) ==> (match r {
                Some(sp) => sp@ == expr_scalar(old(self)@.exprs[*ptr])
                    && final(self)@.scalar_exprs.contains_key(sp@),
                None => false,
            }),
            !old(self)@.exprs.contains_key(*ptr) ==> r is None,
            old(self)@.exprs.contains_key(*ptr) ==> digest_preimage_cached(
                final(self)@,
                old(self)@.exprs[*ptr],
            ),
            (old(self)@.exprs.contains_key(*ptr) && (forall|q: Ptr|
                old(self)@.exprs.contains_key(q) && expr_scalar(old(self)@.exprs[q])
                    == expr_scalar(old(self)@.exprs[*ptr]) ==> q == *ptr))
                ==> final(self)@.scalar_exprs[expr_scalar(old(self)@.exprs[*ptr])] == enc_e(
                *ptr,
            ),
        decreases self.expr_measure(*ptr), 1int,
    {
        let ghost s0 = *self;
        if !self.has_expr(ptr) {
            return None;
        }
        match ptr.tag {
            Tag::Nil => {
                proof {
                    s0.lemma_tag_agree_expr(*ptr);
                    assert(s0.den_expr@[*ptr] == ExprV::Nil);
                }
                let d = self.poseidon_cache.hash_string("NIL");
                Some(self.create_scalar_ptr(*ptr, d))
            },
            Tag::Sym => {
                proof {
                    assert(s0.vex(*ptr));
                }
                let nm = str_table_resolve(&self.sym_store, ptr.raw.idx);
                proof {
                    let e = s0.syms();
                    assert(e.contains((ptr.raw.idx, nm@)));
                    let j2 = choose|j2: int|
                        0 <= j2 < e.len() && #[trigger] e[j2] == (ptr.raw.idx, nm@);
                    let j = choose|j: int|
                        0 <= j < e.len() && (#[trigger] e[j]).0 == ptr.raw.idx && e[j].1
                            != nil_name();
                    if j2 < j {
                        assert(e[j2].0 < e[j].0);
                    }
                    if j < j2 {
                        assert(e[j].0 < e[j2].0);
                    }
                    assert(j2 == j);
                    assert(nm@ == e[j].1);
                    assert(sym_entry_ok(e, s0.nil_id, s0.den_expr@, j));
                    assert(psym(ptr.raw.idx) == *ptr);
                    assert(s0.den_expr@[*ptr] == ExprV::Sym(nm@));
                }
                let d = self.poseidon_cache.hash_string(nm.as_str());
                Some(self.create_scalar_ptr(*ptr, d))
            },
            Tag::Str => {
                proof {
                    assert(s0.vex(*ptr));
                }
                let nm = str_table_resolve(&self.str_store, ptr.raw.idx);
                proof {
                    let e = s0.strs();
                    assert(e.contains((ptr.raw.idx, nm@)));
                    let j2 = choose|j2: int|
                        0 <= j2 < e.len() && #[trigger] e[j2] == (ptr.raw.idx, nm@);
                    let j = choose|j: int|
                        0 <= j < e.len() && (#[trigger] e[j]).0 == ptr.raw.idx;
                    if j2 < j {
                        assert(e[j2].0 < e[j].0);
                    }
                    if j < j2 {
                        assert(e[j].0 < e[j2].0);
                    }
                    assert(j2 == j);
                    assert(str_entry_ok(e, s0.den_expr@, j));
                    assert(pstr(ptr.raw.idx) == *ptr);
                    assert(s0.den_expr@[*ptr] == ExprV::Str(nm@));
                }
                let d = self.poseidon_cache.hash_string(nm.as_str());
                Some(self.create_scalar_ptr(*ptr, d))
            },
            Tag::Num => {
                let got = table_get(&self.num_store, ptr.raw.idx);
                proof {
                    assert(s0.vex(*ptr));
                    assert(num_entry_ok(
                        table_entries(s0.num_store),
                        s0.num_list@,
                        s0.den_expr@,
                        ptr.raw.idx as int,
                    ));
                    assert(pnum(ptr.raw.idx as int) == *ptr);
                }
                match got {
                    Some(kk) => {
                        let d = fe_from_u64(kk.0);
                        proof {
                            assert(s0.den_expr@[*ptr] == ExprV::Num(s0.num_list@[
                                ptr.raw.idx as int
                            ]));
                            assert(kk.0 == s0.num_list@[ptr.raw.idx as int]);
                        }
                        Some(self.create_scalar_ptr(*ptr, d))
                    },
                    None => vstd::pervasive::unreached(),
                }
            },
            Tag::Cons => Some(self.hash_cons_at(ptr)),
            Tag::Fun => Some(self.hash_fun_at(ptr)),
            Tag::Thunk => Some(self.hash_thunk_at(ptr)),
        }
    }

    fn hash_cons_at(&mut self, ptr: &Ptr) -> (sp: ScalarPtr)
        requires
            old(self).wf(),
            old(self)@.exprs.contains_key(*ptr),
            ptr.tag is Cons,
        ensures
            final(self).wf(),
            same_skeleton(old(self)@, final(self)@),
            hash_grows(old(self)@, final(self)@),
            digest_preimage_cached(final(self)@, old(self)@.exprs[*ptr]),
            sp@ == expr_scalar(old(self)@.exprs[*ptr]),
            final(self)@.scalar_exprs.contains_key(sp@),
            (forall|q: Ptr|
                old(self)@.exprs.contains_key(q) && expr_scalar(old(self)@.exprs[q]) == sp@
                    ==> q == *ptr) ==> final(self)@.scalar_exprs[sp@] == enc_e(*ptr),
        decreases self.expr_measure(*ptr), 0int,
    {
        let ghost s0 = *self;
        let out = {
        let got = table_get(&self.cons_store, ptr.raw.idx);
        proof {
            assert(s0.vex(*ptr));
            assert(cons_entry_ok(
                table_entries(s0.cons_store),
                s0.cons_list@,
                s0.den_expr@,
                ptr.raw.idx as int,
            ));
            assert(pcons(ptr.raw.idx as int) == *ptr);
        }
        match got {
            Some(kk) => {
                let o_a = Self::decode_eptr(kk.0, kk.1);
                let o_b = Self::decode_eptr(kk.2, kk.3);
                proof {
                    let idx = ptr.raw.idx as int;
                    assert(enc_e(s0.cons_list@[idx].0) == (kk.0, kk.1));
                    assert(enc_e(s0.cons_list@[idx].1) == (kk.2, kk.3));
                    assert(o_a == Some(s0.cons_list@[idx].0));
                    assert(o_b == Some(s0.cons_list@[idx].1));
                    let ta = s0.den_expr@[s0.cons_list@[idx].0];
                    let tb = s0.den_expr@[s0.cons_list@[idx].1];
                    assert(s0.den_expr@[*ptr] == ExprV::Cons(
                        Box::new(ta),
                        Box::new(tb),
                    ));
                    let t = s0.den_expr@[*ptr];
                    assert(*t->Cons_0 == ta && *t->Cons_1 == tb);
                    assert(decreases_to!(t => *t->Cons_0));
                    assert(decreases_to!(t => *t->Cons_1));
                }
                let a = match o_a {
                    Some(x) => x,
                    None => vstd::pervasive::unreached(),
                };
                let b = match o_b {
                    Some(x) => x,
                    None => vstd::pervasive::unreached(),
                };
                let s_a = match self.hash_expr(&a) {
                    Some(x) => x,
                    None => vstd::pervasive::unreached(),
                };
                let s_b = match self.hash_expr(&b) {
                    Some(x) => x,
                    None => vstd::pervasive::unreached(),
                };
                let mut pre: Vec<Vec<u8>> = Vec::new();
                Self::push_scalar_e(&mut pre, s_a);
                Self::push_scalar_e(&mut pre, s_b);
                proof {
                    let ta = s0.den_expr@[a];
                    let tb = s0.den_expr@[b];
                    assert(s0.den_expr@[*ptr] == ExprV::Cons(
                        Box::new(ta),
                        Box::new(tb),
                    ));
                    assert(pre.deep_view() =~~= seq![
                        crate::field::fe(tag_u64(crate::model::exprv_tag(ta))),
                        expr_digest(ta),
                        crate::field::fe(tag_u64(crate::model::exprv_tag(tb))),
                        expr_digest(tb),
                    ]);
                    assert(expr_digest(s0.den_expr@[*ptr]) == poseidon4_of(
                        pre.deep_view(),
                    ));
                }
                let d = self.poseidon_cache.hash4(&pre);
                Some(self.create_scalar_ptr(*ptr, d))
            },
            None => vstd::pervasive::unreached(),
        }
        };
        match out {
            Some(sp) => sp,
            None => vstd::pervasive::unreached(),
        }
    }

    fn hash_fun_at(&mut self, ptr: &Ptr) -> (sp: ScalarPtr)
        requires
            old(self).wf(),
            old(self)@.exprs.contains_key(*ptr),
            ptr.tag is Fun,
        ensures
            final(self).wf(),
            same_skeleton(old(self)@, final(self)@),
            hash_grows(old(self)@, final(self)@),
            digest_preimage_cached(final(self)@, old(self)@.exprs[*ptr]),
            sp@ == expr_scalar(old(self)@.exprs[*ptr]),
            final(self)@.scalar_exprs.contains_key(sp@),
            (forall|q: Ptr|
                old(self)@.exprs.contains_key(q) && expr_scalar(old(self)@.exprs[q]) == sp@
                    ==> q == *ptr) ==> final(self)@.scalar_exprs[sp@] == enc_e(*ptr),
        decreases self.expr_measure(*ptr), 0int,
    {
        let ghost s0 = *self;
        let out = {
        let got = table_get(&self.fun_store, ptr.raw.idx);
        proof {
            assert(s0.vex(*ptr));
            assert(fun_entry_ok(
                table_entries(s0.fun_store),
                s0.fun_list@,
                s0.den_expr@,
                ptr.raw.idx as int,
            ));
            assert(pfun(ptr.raw.idx as int) == *ptr);
        }
        match got {
            Some(kk) => {
                let o_a = Self::decode_eptr(kk.0, kk.1);
                let o_b = Self::decode_eptr(kk.2, kk.3);
                let o_c = Self::decode_eptr(kk.4, kk.5);
                proof {
                    let idx = ptr.raw.idx as int;
                    assert(enc_e(s0.fun_list@[idx].0) == (kk.0, kk.1));
                    assert(enc_e(s0.fun_list@[idx].1) == (kk.2, kk.3));
                    assert(enc_e(s0.fun_list@[idx].2) == (kk.4, kk.5));
                    assert(o_a == Some(s0.fun_list@[idx].0));
                    assert(o_b == Some(s0.fun_list@[idx].1));
                    assert(o_c == Some(s0.fun_list@[idx].2));
                    let ta = s0.den_expr@[s0.fun_list@[idx].0];
                    let tb = s0.den_expr@[s0.fun_list@[idx].1];
                    let tc = s0.den_expr@[s0.fun_list@[idx].2];
                    assert(s0.den_expr@[*ptr] == ExprV::Fun(
                        Box::new(ta),
                        Box::new(tb),
                        Box::new(tc),
                    ));
                    let t = s0.den_expr@[*ptr];
                    assert(*t->Fun_0 == ta && *t->Fun_1 == tb && *t->Fun_2 == tc);
                    assert(decreases_to!(t => *t->Fun_0));
                    assert(decreases_to!(t => *t->Fun_1));
                    assert(decreases_to!(t => *t->Fun_2));
                }
                let a = match o_a {
                    Some(x) => x,
                    None => vstd::pervasive::unreached(),
                };
                let b = match o_b {
                    Some(x) => x,
                    None => vstd::pervasive::unreached(),
                };
                let c = match o_c {
                    Some(x) => x,
                    None => vstd::pervasive::unreached(),
                };
                let s_a = match self.hash_expr(&a) {
                    Some(x) => x,
                    None => vstd::pervasive::unreached(),
                };
                let s_b = match self.hash_expr(&b) {
                    Some(x) => x,
                    None => vstd::pervasive::unreached(),
                };
                let s_c = match self.hash_expr(&c) {
                    Some(x) => x,
                    None => vstd::pervasive::unreached(),
                };
                let mut pre: Vec<Vec<u8>> = Vec::new();
                Self::push_scalar_e(&mut pre, s_a);
                Self::push_scalar_e(&mut pre, s_b);
                Self::push_scalar_e(&mut pre, s_c);
                proof {
                    let ta = s0.den_expr@[a];
                    let tb = s0.den_expr@[b];
                    let tc = s0.den_expr@[c];
                    assert(s0.den_expr@[*ptr] == ExprV::Fun(
                        Box::new(ta),
                        Box::new(tb),
                        Box::new(tc),
                    ));
                    assert(pre.deep_view() =~~= seq![
                        crate::field::fe(tag_u64(crate::model::exprv_tag(ta))),
                        expr_digest(ta),
                        crate::field::fe(tag_u64(crate::model::exprv_tag(tb))),
                        expr_digest(tb),
                        crate::field::fe(tag_u64(crate::model::exprv_tag(tc))),
                        expr_digest(tc),
                    ]);
                    assert(expr_digest(s0.den_expr@[*ptr]) == poseidon6_of(
                        pre.deep_view(),
                    ));
                }
                let d = self.poseidon_cache.hash6(&pre);
                Some(self.create_scalar_ptr(*ptr, d))
            },
            None => vstd::pervasive::unreached(),
        }
        };
        match out {
            Some(sp) => sp,
            None => vstd::pervasive::unreached(),
        }
    }

    fn hash_thunk_at(&mut self, ptr: &Ptr) -> (sp: ScalarPtr)
        requires
            old(self).wf(),
            old(self)@.exprs.contains_key(*ptr),
            ptr.tag is Thunk,
        ensures
            final(self).wf(),
            same_skeleton(old(self)@, final(self)@),
            hash_grows(old(self)@, final(self)@),
            digest_preimage_cached(final(self)@, old(self)@.exprs[*ptr]),
            sp@ == expr_scalar(old(self)@.exprs[*ptr]),
            final(self)@.scalar_exprs.contains_key(sp@),
            (forall|q: Ptr|
                old(self)@.exprs.contains_key(q) && expr_scalar(old(self)@.exprs[q]) == sp@
                    ==> q == *ptr) ==> final(self)@.scalar_exprs[sp@] == enc_e(*ptr),
        decreases self.expr_measure(*ptr), 0int,
    {
        let ghost s0 = *self;
        let out = {
        let got = table_get(&self.thunk_store, ptr.raw.idx);
        proof {
            assert(s0.vex(*ptr));
            assert(thunk_entry_ok(
                table_entries(s0.thunk_store),
                s0.thunk_list@,
                s0.den_expr@,
                s0.den_cont@,
                ptr.raw.idx as int,
            ));
            assert(pthunk(ptr.raw.idx as int) == *ptr);
        }
        match got {
            Some(kk) => {
                let o_a = Self::decode_eptr(kk.0, kk.1);
                let o_c = Self::decode_kptr(kk.2, kk.3);
                proof {
                    let idx = ptr.raw.idx as int;
                    assert(enc_e(s0.thunk_list@[idx].0) == (kk.0, kk.1));
                    assert(enc_k(s0.thunk_list@[idx].1) == (kk.2, kk.3));
                    assert(o_a == Some(s0.thunk_list@[idx].0));
                    assert(o_c == Some(s0.thunk_list@[idx].1));
                    let ta = s0.den_expr@[s0.thunk_list@[idx].0];
                    let tc = s0.den_cont@[s0.thunk_list@[idx].1];
                    assert(s0.den_expr@[*ptr] == ExprV::Thunk(
                        Box::new(ta),
                        Box::new(tc),
                    ));
                    let t = s0.den_expr@[*ptr];
                    assert(*t->Thunk_0 == ta && *t->Thunk_1 == tc);
                    assert(decreases_to!(t => *t->Thunk_0));
                    assert(decreases_to!(t => *t->Thunk_1));
                }
                let a = match o_a {
                    Some(x) => x,
                    None => vstd::pervasive::unreached(),
                };
                let c = match o_c {
                    Some(x) => x,
                    None => vstd::pervasive::unreached(),
                };
                let s_a = match self.hash_expr(&a) {
                    Some(x) => x,
                    None => vstd::pervasive::unreached(),
                };
                let s_c = match self.hash_cont(&c) {
                    Some(x) => x,
                    None => vstd::pervasive::unreached(),
                };
                let mut pre: Vec<Vec<u8>> = Vec::new();
                Self::push_scalar_e(&mut pre, s_a);
                Self::push_scalar_k(&mut pre, s_c);
                proof {
                    let ta = s0.den_expr@[a];
                    let tc = s0.den_cont@[c];
                    assert(s0.den_expr@[*ptr] == ExprV::Thunk(
                        Box::new(ta),
                        Box::new(tc),
                    ));
                    assert(pre.deep_view() =~~= seq![
                        crate::field::fe(tag_u64(crate::model::exprv_tag(ta))),
                        expr_digest(ta),
                        crate::field::fe(cont_tag_u64(crate::model::contv_tag(tc))),
                        cont_digest(tc),
                    ]);
                    assert(crate::model::thunk_preimage(ta, tc) =~~= pre.deep_view());
                    assert(expr_digest(s0.den_expr@[*ptr]) == poseidon4_of(
                        pre.deep_view(),
                    ));
                }
                let d = self.poseidon_cache.hash4(&pre);
                Some(self.create_scalar_ptr(*ptr, d))
            },
            None => vstd::pervasive::unreached(),
        }
        };
        match out {
            Some(sp) => sp,
            None => vstd::pervasive::unreached(),
        }
    }
}

impl Store {
    /// The scalar pointer of a continuation frame; see `hash_expr`.
    pub fn hash_cont(&mut self, ptr: &ContPtr) -> (r: Option<ScalarContPtr>)
        requires
            old(self).wf(),
        ensures
            final(self).wf(),
            same_skeleton(old(self)@, final(self)@),
            hash_grows(old(self)@, final(self)@),
            old(self)@.conts.contains_key(*ptr) ==> (match r {
                Some(sp) => sp@ == cont_scalar(old(self)@.conts[*ptr])
                    && final(self)@.scalar_conts.contains_key(sp@),
                None => false,
            }),
            !old(self)@.conts.contains_key(*ptr) ==> r is None,
            old(self)@.conts.contains_key(*ptr) ==> final(self)@.cache8.contains_key(
                cont_preimage(old(self)@.conts[*ptr]),
            ),
            (old(self)@.conts.contains_key(*ptr) && (forall|q: ContPtr|
                old(self)@.conts.contains_key(q) && cont_scalar(old(self)@.conts[q])
                    == cont_scalar(old(self)@.conts[*ptr]) ==> q == *ptr))
                ==> final(self)@.scalar_conts[cont_scalar(old(self)@.conts[*ptr])] == enc_k(
                *ptr,
            ),
        decreases self.cont_measure(*ptr), 2int,
    {
        let ghost s0 = *self;
        if !self.has_cont(ptr) {
            return None;
        }
        let comps = match self.get_hash_components_cont(ptr) {
            Some(v) => v,
            None => vstd::pervasive::unreached(),
        };
        let d = self.poseidon_cache.hash8(&comps);
        proof {
            assert(cont_digest(s0.den_cont@[*ptr]) == poseidon8_of(comps.deep_view()));
        }
        Some(self.create_cont_scalar_ptr(*ptr, d))
    }

    /// The 4-element preimage a thunk hashes with: the value's scalar, then
    /// the continuation's.
    pub fn get_hash_components_thunk(&mut self, t: &Thunk) -> (r: Option<Vec<Vec<u8>>>)
        requires
            old(self).wf(),
        ensures
            final(self).wf(),
            same_skeleton(old(self)@, final(self)@),
            hash_grows(old(self)@, final(self)@),
            old(self)@.exprs.contains_key(t.value) && old(self)@.conts.contains_key(
                t.continuation,
            ) ==> (match r {
                Some(v) => v.deep_view() == crate::model::thunk_preimage(
                    old(self)@.exprs[t.value],
                    old(self)@.conts[t.continuation],
                ) && v.deep_view().len() == 4,
                None => false,
            }),
            !(old(self)@.exprs.contains_key(t.value) && old(self)@.conts.contains_key(
                t.continuation,
            )) ==> r is None,
    {
        let ghost s0 = *self;
        if !self.has_expr(&t.value) {
            return None;
        }
        if !self.has_cont(&t.continuation) {
            return None;
        }
        let s_v = match self.hash_expr(&t.value) {
            Some(x) => x,
            None => vstd::pervasive::unreached(),
        };
        let s_c = match self.hash_cont(&t.continuation) {
            Some(x) => x,
            None => vstd::pervasive::unreached(),
        };
        let mut pre: Vec<Vec<u8>> = Vec::new();
        Self::push_scalar_e(&mut pre, s_v);
        Self::push_scalar_k(&mut pre, s_c);
        proof {
            assert(pre.deep_view() =~~= crate::model::thunk_preimage(
                s0.den_expr@[t.value],
                s0.den_cont@[t.continuation],
            ));
        }
        Some(pre)
    }

    /// Hashes a symbol (or nil) pointer.
    pub fn hash_sym(&mut self, sym: Ptr) -> (r: Option<ScalarPtr>)
        requires
            old(self).wf(),
        ensures
            final(self).wf(),
            same_skeleton(old(self)@, final(self)@),
            hash_grows(old(self)@, final(self)@),
            old(self)@.exprs.contains_key(sym) && ((sym.tag is Sym) || (sym.tag is Nil)) ==> (
            match r {
                Some(sp) => sp@ == expr_scalar(old(self)@.exprs[sym])
                    && final(self)@.scalar_exprs.contains_key(sp@),
                None => false,
            }),
            !(old(self)@.exprs.contains_key(sym) && ((sym.tag is Sym) || (sym.tag is Nil)))
                ==> r is None,
    {
        match sym.tag {
            Tag::Sym => self.hash_expr(&sym),
            Tag::Nil => self.hash_expr(&sym),
            _ => None,
        }
    }

    /// Hashes nil: the same scalar as hashing the symbol `NIL`, under the
    /// nil expression tag.
    pub fn hash_nil(&mut self) -> (r: Option<ScalarPtr>)
        requires
            old(self).wf(),
        ensures
            final(self).wf(),
            same_skeleton(old(self)@, final(self)@),
            hash_grows(old(self)@, final(self)@),
            match r {
                Some(sp) => sp@ == expr_scalar(ExprV::Nil)
                    && final(self)@.scalar_exprs.contains_key(sp@),
                None => false,
            },
    {
        let nil = self.get_nil();
        self.hash_sym(nil)
    }

    /// Rebuilds a scalar pointer from its parts, but only if that scalar
    /// has already been recorded by hashing.
    pub fn scalar_from_parts(&self, tag: Vec<u8>, value: Vec<u8>) -> (r: Option<ScalarPtr>)
        requires
            self.wf(),
        ensures
            match r {
                Some(sp) => sp@ == (tag@, value@) && self@.scalar_exprs.contains_key((
                    tag@,
                    value@,
                )),
                None => !self@.scalar_exprs.contains_key((tag@, value@)),
            },
    {
        let k = (tag, value);
        let got = rev_get(&self.scalar_ptr_map, &k);
        match got {
            Some(_) => Some(ScalarPtr::from_parts(k.0, k.1)),
            None => None,
        }
    }

    /// Rebuilds a scalar continuation pointer from its parts, but only if
    /// that scalar has already been recorded by hashing.
    pub fn scalar_from_parts_cont(&self, tag: Vec<u8>, value: Vec<u8>) -> (r: Option<
        ScalarContPtr,
    >)
        requires
            self.wf(),
        ensures
            match r {
                Some(sp) => sp@ == (tag@, value@) && self@.scalar_conts.contains_key((
                    tag@,
                    value@,
                )),
                None => !self@.scalar_conts.contains_key((tag@, value@)),
            },
    {
        let k = (tag, value);
        let got = rev_get(&self.scalar_ptr_cont_map, &k);
        match got {
            Some(_) => Some(ScalarContPtr::from_parts(k.0, k.1)),
            None => None,
        }
    }

    /// The typed pointer a recorded scalar pointer was created from.
    pub fn fetch_scalar(&self, scalar_ptr: &ScalarPtr) -> (r: Option<Ptr>)
        requires
            self.wf(),
        ensures
            match r {
                Some(p) => self@.scalar_exprs.contains_key(scalar_ptr@)
                    && self@.scalar_exprs[scalar_ptr@] == enc_e(p) && self@.exprs.contains_key(p)
                    && expr_scalar(self@.exprs[p]) == scalar_ptr@,
                None => !self@.scalar_exprs.contains_key(scalar_ptr@),
            },
    {
        let k = (
            crate::cache::copy_bytes(scalar_ptr.tag()),
            crate::cache::copy_bytes(scalar_ptr.value()),
        );
        let got = rev_get(&self.scalar_ptr_map, &k);
        match got {
            Some(w) => {
                proof {
                    assert(rev_entries(self.scalar_ptr_map).contains_key(scalar_ptr@));
                    let p = choose|p: Ptr|
                        self.den_expr@.contains_key(p) && rev_entries(self.scalar_ptr_map)[
                            scalar_ptr@
                        ] == enc_e(p) && scalar_ptr@ == expr_scalar(self.den_expr@[p]);
                    assert(enc_e(p) == w);
                }
                let o = Self::decode_eptr(w.0, w.1);
                match o {
                    Some(p) => Some(p),
                    None => vstd::pervasive::unreached(),
                }
            },
            None => None,
        }
    }

    /// The typed continuation pointer a recorded scalar was created from.
    pub fn fetch_scalar_cont(&self, scalar_ptr: &ScalarContPtr) -> (r: Option<ContPtr>)
        requires
            self.wf(),
        ensures
            match r {
                Some(p) => self@.scalar_conts.contains_key(scalar_ptr@)
                    && self@.scalar_conts[scalar_ptr@] == enc_k(p) && self@.conts.contains_key(p)
                    && cont_scalar(self@.conts[p]) == scalar_ptr@,
                None => !self@.scalar_conts.contains_key(scalar_ptr@),
            },
    {
        let k = (
            crate::cache::copy_bytes(scalar_ptr.tag()),
            crate::cache::copy_bytes(scalar_ptr.value()),
        );
        let got = rev_get(&self.scalar_ptr_cont_map, &k);
        match got {
            Some(w) => {
                proof {
                    assert(rev_entries(self.scalar_ptr_cont_map).contains_key(scalar_ptr@));
                    let p = choose|p: ContPtr|
                        self.den_cont@.contains_key(p) && rev_entries(self.scalar_ptr_cont_map)[
                            scalar_ptr@
                        ] == enc_k(p) && scalar_ptr@ == cont_scalar(self.den_cont@[p]);
                    assert(enc_k(p) == w);
                }
                let o = Self::decode_kptr(w.0, w.1);
                match o {
                    Some(p) => Some(p),
                    None => vstd::pervasive::unreached(),
                }
            },
            None => None,
        }
    }
}




impl Store {
    /// The 8-element preimage a continuation hashes with: four slots in the
    /// fixed per-variant layout, each a scalar pointer, an operator with a
    /// zero, or a zero pair.
    pub fn get_hash_components_cont(&mut self, ptr: &ContPtr) -> (r: Option<Vec<Vec<u8>>>)
        requires
            old(self).wf(),
        ensures
            final(self).wf(),
            same_skeleton(old(self)@, final(self)@),
            hash_grows(old(self)@, final(self)@),
            old(self)@.conts.contains_key(*ptr) ==> (match r {
                Some(v) => v.deep_view() == cont_preimage(old(self)@.conts[*ptr])
                    && v.deep_view().len() == 8,
                None => false,
            }),
            !old(self)@.conts.contains_key(*ptr) ==> r is None,
        decreases self.cont_measure(*ptr), 1int,
    {
        let ghost s0 = *self;
        if !self.has_cont(ptr) {
            return None;
        }
        match ptr.tag {
            ContTag::Outermost => {
                let mut pre: Vec<Vec<u8>> = Vec::new();
                Self::push_word_zero(&mut pre, 0);
                Self::push_word_zero(&mut pre, 0);
                Self::push_word_zero(&mut pre, 0);
                Self::push_word_zero(&mut pre, 0);
                proof {
                    assert(s0.den_cont@[*ptr] == ContV::Outermost);
                    assert(pre.deep_view() =~~= cont_preimage(ContV::Outermost));
                }
                Some(pre)
            },
            ContTag::Error => {
                let mut pre: Vec<Vec<u8>> = Vec::new();
                Self::push_word_zero(&mut pre, 0);
                Self::push_word_zero(&mut pre, 0);
                Self::push_word_zero(&mut pre, 0);
                Self::push_word_zero(&mut pre, 0);
                proof {
                    assert(s0.den_cont@[*ptr] == ContV::Error);
                    assert(pre.deep_view() =~~= cont_preimage(ContV::Error));
                }
                Some(pre)
            },
            ContTag::Dummy => {
                let mut pre: Vec<Vec<u8>> = Vec::new();
                Self::push_word_zero(&mut pre, 0);
                Self::push_word_zero(&mut pre, 0);
                Self::push_word_zero(&mut pre, 0);
                Self::push_word_zero(&mut pre, 0);
                proof {
                    assert(s0.den_cont@[*ptr] == ContV::Dummy);
                    assert(pre.deep_view() =~~= cont_preimage(ContV::Dummy));
                }
                Some(pre)
            },
            ContTag::Terminal => {
                let mut pre: Vec<Vec<u8>> = Vec::new();
                Self::push_word_zero(&mut pre, 0);
                Self::push_word_zero(&mut pre, 0);
                Self::push_word_zero(&mut pre, 0);
                Self::push_word_zero(&mut pre, 0);
                proof {
                    assert(s0.den_cont@[*ptr] == ContV::Terminal);
                    assert(pre.deep_view() =~~= cont_preimage(ContV::Terminal));
                }
                Some(pre)
            },
            ContTag::Simple => self.comps_simple_at(ptr),
            ContTag::Call => self.comps_call_at(ptr),
            ContTag::Call2 => self.comps_call2_at(ptr),
            ContTag::Tail => self.comps_tail_at(ptr),
            ContTag::Lookup => self.comps_lookup_at(ptr),
            ContTag::Unop => self.comps_unop_at(ptr),
            ContTag::Binop => self.comps_binop_at(ptr),
            ContTag::Binop2 => self.comps_binop2_at(ptr),
            ContTag::Relop => self.comps_relop_at(ptr),
            ContTag::Relop2 => self.comps_relop2_at(ptr),
            ContTag::If => self.comps_if_at(ptr),
            ContTag::LetStar => self.comps_letstar_at(ptr),
            ContTag::LetRecStar => self.comps_letrecstar_at(ptr),
        }
    }

    #[verifier::rlimit(100)]
    #[verifier::spinoff_prover]
    fn comps_simple_at(&mut self, ptr: &ContPtr) -> (out: Option<Vec<Vec<u8>>>)
        requires
            old(self).wf(),
            old(self)@.conts.contains_key(*ptr),
            ptr.tag is Simple,
        ensures
            final(self).wf(),
            same_skeleton(old(self)@, final(self)@),
            hash_grows(old(self)@, final(self)@),
            (match out {
                Some(v) => v.deep_view() == cont_preimage(old(self)@.conts[*ptr])
                    && v.deep_view().len() == 8,
                None => false,
            }),
        decreases self.cont_measure(*ptr), 0int,
    {
        let ghost s0 = *self;
        let got = table_get(&self.simple_store, ptr.raw.idx);
        proof {
            assert(s0.vck(*ptr));
            assert(simple_entry_ok(
                table_entries(s0.simple_store),
                s0.simple_list@,
                s0.den_cont@,
                ptr.raw.idx as int,
            ));
        }
        match got {
            Some(kk) => {
                let o_c = Self::decode_kptr(kk.0, kk.1);
                let c = match o_c { Some(x) => x, None => vstd::pervasive::unreached() };
                proof {
                    let idx = ptr.raw.idx as int;
                    assert(kk == table_entries(s0.simple_store)[idx]);
                    assert(enc_k(s0.simple_list@[idx]) == (kk.0, kk.1));
                    assert(o_c == Some(s0.simple_list@[idx]));
                    assert(kptr(ContTag::Simple, ptr.raw.idx as int) == *ptr);
                    let t = s0.den_cont@[*ptr];
                    assert(*t->Simple_0 == s0.den_cont@[c]);
                    assert(decreases_to!(t => *t->Simple_0));
                }
                let mut pre: Vec<Vec<u8>> = Vec::new();
                let s_c = match self.hash_cont(&c) { Some(x) => x, None => vstd::pervasive::unreached() };
                Self::push_scalar_k(&mut pre, s_c);
                Self::push_word_zero(&mut pre, 0);
                Self::push_word_zero(&mut pre, 0);
                Self::push_word_zero(&mut pre, 0);
                proof {
                    assert(pre.deep_view() =~~= cont_preimage(s0.den_cont@[*ptr]));
                }
                Some(pre)
            },
            None => vstd::pervasive::unreached(),
        }
    }

    #[verifier::rlimit(100)]
    #[verifier::spinoff_prover]
    fn comps_call_at(&mut self, ptr: &ContPtr) -> (out: Option<Vec<Vec<u8>>>)
        requires
            old(self).wf(),
            old(self)@.conts.contains_key(*ptr),
            ptr.tag is Call,
        ensures
            final(self).wf(),
            same_skeleton(old(self)@, final(self)@),
            hash_grows(old(self)@, final(self)@),
            (match out {
                Some(v) => v.deep_view() == cont_preimage(old(self)@.conts[*ptr])
                    && v.deep_view().len() == 8,
                None => false,
            }),
        decreases self.cont_measure(*ptr), 0int,
    {
        let ghost s0 = *self;
        let got = table_get(&self.call_store, ptr.raw.idx);
        proof {
            assert(s0.vck(*ptr));
            assert(call_entry_ok(
                table_entries(s0.call_store),
                s0.call_list@,
                s0.den_expr@,
                s0.den_cont@,
                ptr.raw.idx as int,
            ));
        }
        match got {
            Some(kk) => {
                let o_a = Self::decode_eptr(kk.0, kk.1);
                let o_b = Self::decode_eptr(kk.2, kk.3);
                let o_c = Self::decode_kptr(kk.4, kk.5);
                let a = match o_a { Some(x) => x, None => vstd::pervasive::unreached() };
                let b = match o_b { Some(x) => x, None => vstd::pervasive::unreached() };
                let c = match o_c { Some(x) => x, None => vstd::pervasive::unreached() };
                proof {
                    let idx = ptr.raw.idx as int;
                    assert(kk == table_entries(s0.call_store)[idx]);
                    assert(enc_e(s0.call_list@[idx].0) == (kk.0, kk.1));
                    assert(o_a == Some(s0.call_list@[idx].0));
                    assert(enc_e(s0.call_list@[idx].1) == (kk.2, kk.3));
                    assert(o_b == Some(s0.call_list@[idx].1));
                    assert(enc_k(s0.call_list@[idx].2) == (kk.4, kk.5));
                    assert(o_c == Some(s0.call_list@[idx].2));
                    assert(kptr(ContTag::Call, ptr.raw.idx as int) == *ptr);
                    let t = s0.den_cont@[*ptr];
                    assert(*t->Call_0 == s0.den_expr@[a]);
                    assert(decreases_to!(t => *t->Call_0));
                    assert(*t->Call_1 == s0.den_expr@[b]);
                    assert(decreases_to!(t => *t->Call_1));
                    assert(*t->Call_2 == s0.den_cont@[c]);
                    assert(decreases_to!(t => *t->Call_2));
                }
                let mut pre: Vec<Vec<u8>> = Vec::new();
                let s_b = match self.hash_expr(&b) { Some(x) => x, None => vstd::pervasive::unreached() };
                let s_a = match self.hash_expr(&a) { Some(x) => x, None => vstd::pervasive::unreached() };
                let s_c = match self.hash_cont(&c) { Some(x) => x, None => vstd::pervasive::unreached() };
                Self::push_scalar_e(&mut pre, s_b);
                Self::push_scalar_e(&mut pre, s_a);
                Self::push_scalar_k(&mut pre, s_c);
                Self::push_word_zero(&mut pre, 0);
                proof {
                    assert(pre.deep_view() =~~= cont_preimage(s0.den_cont@[*ptr]));
                }
                Some(pre)
            },
            None => vstd::pervasive::unreached(),
        }
    }

    #[verifier::rlimit(100)]
    #[verifier::spinoff_prover]
    fn comps_call2_at(&mut self, ptr: &ContPtr) -> (out: Option<Vec<Vec<u8>>>)
        requires
            old(self).wf(),
            old(self)@.conts.contains_key(*ptr),
            ptr.tag is Call2,
        ensures
            final(self).wf(),
            same_skeleton(old(self)@, final(self)@),
            hash_grows(old(self)@, final(self)@),
            (match out {
                Some(v) => v.deep_view() == cont_preimage(old(self)@.conts[*ptr])
                    && v.deep_view().len() == 8,
                None => false,
            }),
        decreases self.cont_measure(*ptr), 0int,
    {
        let ghost s0 = *self;
        let got = table_get(&self.call2_store, ptr.raw.idx);
        proof {
            assert(s0.vck(*ptr));
            assert(call2_entry_ok(
                table_entries(s0.call2_store),
                s0.call2_list@,
                s0.den_expr@,
                s0.den_cont@,
                ptr.raw.idx as int,
            ));
        }
        match got {
            Some(kk) => {
                let o_a = Self::decode_eptr(kk.0, kk.1);
                let o_b = Self::decode_eptr(kk.2, kk.3);
                let o_c = Self::decode_kptr(kk.4, kk.5);
                let a = match o_a { Some(x) => x, None => vstd::pervasive::unreached() };
                let b = match o_b { Some(x) => x, None => vstd::pervasive::unreached() };
                let c = match o_c { Some(x) => x, None => vstd::pervasive::unreached() };
                proof {
                    let idx = ptr.raw.idx as int;
                    assert(kk == table_entries(s0.call2_store)[idx]);
                    assert(enc_e(s0.call2_list@[idx].0) == (kk.0, kk.1));
                    assert(o_a == Some(s0.call2_list@[idx].0));
                    assert(enc_e(s0.call2_list@[idx].1) == (kk.2, kk.3));
                    assert(o_b == Some(s0.call2_list@[idx].1));
                    assert(enc_k(s0.call2_list@[idx].2) == (kk.4, kk.5));
                    assert(o_c == Some(s0.call2_list@[idx].2));
                    assert(kptr(ContTag::Call2, ptr.raw.idx as int) == *ptr);
                    let t = s0.den_cont@[*ptr];
                    assert(*t->Call2_0 == s0.den_expr@[a]);
                    assert(decreases_to!(t => *t->Call2_0));
                    assert(*t->Call2_1 == s0.den_expr@[b]);
                    assert(decreases_to!(t => *t->Call2_1));
                    assert(*t->Call2_2 == s0.den_cont@[c]);
                    assert(decreases_to!(t => *t->Call2_2));
                }
                let mut pre: Vec<Vec<u8>> = Vec::new();
                let s_b = match self.hash_expr(&b) { Some(x) => x, None => vstd::pervasive::unreached() };
                let s_a = match self.hash_expr(&a) { Some(x) => x, None => vstd::pervasive::unreached() };
                let s_c = match self.hash_cont(&c) { Some(x) => x, None => vstd::pervasive::unreached() };
                Self::push_scalar_e(&mut pre, s_b);
                Self::push_scalar_e(&mut pre, s_a);
                Self::push_scalar_k(&mut pre, s_c);
                Self::push_word_zero(&mut pre, 0);
                proof {
                    assert(pre.deep_view() =~~= cont_preimage(s0.den_cont@[*ptr]));
                }
                Some(pre)
            },
            None => vstd::pervasive::unreached(),
        }
    }

    #[verifier::rlimit(100)]
    #[verifier::spinoff_prover]
    fn comps_tail_at(&mut self, ptr: &ContPtr) -> (out: Option<Vec<Vec<u8>>>)
        requires
            old(self).wf(),
            old(self)@.conts.contains_key(*ptr),
            ptr.tag is Tail,
        ensures
            final(self).wf(),
            same_skeleton(old(self)@, final(self)@),
            hash_grows(old(self)@, final(self)@),
            (match out {
                Some(v) => v.deep_view() == cont_preimage(old(self)@.conts[*ptr])
                    && v.deep_view().len() == 8,
                None => false,
            }),
        decreases self.cont_measure(*ptr), 0int,
    {
        let ghost s0 = *self;
        let got = table_get(&self.tail_store, ptr.raw.idx);
        proof {
            assert(s0.vck(*ptr));
            assert(tail_entry_ok(
                table_entries(s0.tail_store),
                s0.tail_list@,
                s0.den_expr@,
                s0.den_cont@,
                ptr.raw.idx as int,
            ));
        }
        match got {
            Some(kk) => {
                let o_a = Self::decode_eptr(kk.0, kk.1);
                let o_c = Self::decode_kptr(kk.2, kk.3);
                let a = match o_a { Some(x) => x, None => vstd::pervasive::unreached() };
                let c = match o_c { Some(x) => x, None => vstd::pervasive::unreached() };
                proof {
                    let idx = ptr.raw.idx as int;
                    assert(kk == table_entries(s0.tail_store)[idx]);
                    assert(enc_e(s0.tail_list@[idx].0) == (kk.0, kk.1));
                    assert(o_a == Some(s0.tail_list@[idx].0));
                    assert(enc_k(s0.tail_list@[idx].1) == (kk.2, kk.3));
                    assert(o_c == Some(s0.tail_list@[idx].1));
                    assert(kptr(ContTag::Tail, ptr.raw.idx as int) == *ptr);
                    let t = s0.den_cont@[*ptr];
                    assert(*t->Tail_0 == s0.den_expr@[a]);
                    assert(decreases_to!(t => *t->Tail_0));
                    assert(*t->Tail_1 == s0.den_cont@[c]);
                    assert(decreases_to!(t => *t->Tail_1));
                }
                let mut pre: Vec<Vec<u8>> = Vec::new();
                let s_a = match self.hash_expr(&a) { Some(x) => x, None => vstd::pervasive::unreached() };
                let s_c = match self.hash_cont(&c) { Some(x) => x, None => vstd::pervasive::unreached() };
                Self::push_scalar_e(&mut pre, s_a);
                Self::push_scalar_k(&mut pre, s_c);
                Self::push_word_zero(&mut pre, 0);
                Self::push_word_zero(&mut pre, 0);
                proof {
                    assert(pre.deep_view() =~~= cont_preimage(s0.den_cont@[*ptr]));
                }
                Some(pre)
            },
            None => vstd::pervasive::unreached(),
        }
    }

    #[verifier::rlimit(100)]
    #[verifier::spinoff_prover]
    fn comps_lookup_at(&mut self, ptr: &ContPtr) -> (out: Option<Vec<Vec<u8>>>)
        requires
            old(self).wf(),
            old(self)@.conts.contains_key(*ptr),
            ptr.tag is Lookup,
        ensures
            final(self).wf(),
            same_skeleton(old(self)@, final(self)@),
            hash_grows(old(self)@, final(self)@),
            (match out {
                Some(v) => v.deep_view() == cont_preimage(old(self)@.conts[*ptr])
                    && v.deep_view().len() == 8,
                None => false,
            }),
        decreases self.cont_measure(*ptr), 0int,
    {
        let ghost s0 = *self;
        let got = table_get(&self.lookup_store, ptr.raw.idx);
        proof {
            assert(s0.vck(*ptr));
            assert(lookup_entry_ok(
                table_entries(s0.lookup_store),
                s0.lookup_list@,
                s0.den_expr@,
                s0.den_cont@,
                ptr.raw.idx as int,
            ));
        }
        match got {
            Some(kk) => {
                let o_a = Self::decode_eptr(kk.0, kk.1);
                let o_c = Self::decode_kptr(kk.2, kk.3);
                let a = match o_a { Some(x) => x, None => vstd::pervasive::unreached() };
                let c = match o_c { Some(x) => x, None => vstd::pervasive::unreached() };
                proof {
                    let idx = ptr.raw.idx as int;
                    assert(kk == table_entries(s0.lookup_store)[idx]);
                    assert(enc_e(s0.lookup_list@[idx].0) == (kk.0, kk.1));
                    assert(o_a == Some(s0.lookup_list@[idx].0));
                    assert(enc_k(s0.lookup_list@[idx].1) == (kk.2, kk.3));
                    assert(o_c == Some(s0.lookup_list@[idx].1));
                    assert(kptr(ContTag::Lookup, ptr.raw.idx as int) == *ptr);
                    let t = s0.den_cont@[*ptr];
                    assert(*t->Lookup_0 == s0.den_expr@[a]);
                    assert(decreases_to!(t => *t->Lookup_0));
                    assert(*t->Lookup_1 == s0.den_cont@[c]);
                    assert(decreases_to!(t => *t->Lookup_1));
                }
                let mut pre: Vec<Vec<u8>> = Vec::new();
                let s_a = match self.hash_expr(&a) { Some(x) => x, None => vstd::pervasive::unreached() };
                let s_c = match self.hash_cont(&c) { Some(x) => x, None => vstd::pervasive::unreached() };
                Self::push_scalar_e(&mut pre, s_a);
                Self::push_scalar_k(&mut pre, s_c);
                Self::push_word_zero(&mut pre, 0);
                Self::push_word_zero(&mut pre, 0);
                proof {
                    assert(pre.deep_view() =~~= cont_preimage(s0.den_cont@[*ptr]));
                }
                Some(pre)
            },
            None => vstd::pervasive::unreached(),
        }
    }

    #[verifier::rlimit(100)]
    #[verifier::spinoff_prover]
    fn comps_unop_at(&mut self, ptr: &ContPtr) -> (out: Option<Vec<Vec<u8>>>)
        requires
            old(self).wf(),
            old(self)@.conts.contains_key(*ptr),
            ptr.tag is Unop,
        ensures
            final(self).wf(),
            same_skeleton(old(self)@, final(self)@),
            hash_grows(old(self)@, final(self)@),
            (match out {
                Some(v) => v.deep_view() == cont_preimage(old(self)@.conts[*ptr])
                    && v.deep_view().len() == 8,
                None => false,
            }),
        decreases self.cont_measure(*ptr), 0int,
    {
        let ghost s0 = *self;
        let got = table_get(&self.unop_store, ptr.raw.idx);
        proof {
            assert(s0.vck(*ptr));
            assert(unop_entry_ok(
                table_entries(s0.unop_store),
                s0.unop_list@,
                s0.den_cont@,
                ptr.raw.idx as int,
            ));
        }
        match got {
            Some(kk) => {
                let o_c = Self::decode_kptr(kk.1, kk.2);
                let c = match o_c { Some(x) => x, None => vstd::pervasive::unreached() };
                proof {
                    let idx = ptr.raw.idx as int;
                    assert(kk == table_entries(s0.unop_store)[idx]);
                    assert(enc_k(s0.unop_list@[idx].1) == (kk.1, kk.2));
                    assert(o_c == Some(s0.unop_list@[idx].1));
                    assert(kptr(ContTag::Unop, ptr.raw.idx as int) == *ptr);
                    let t = s0.den_cont@[*ptr];
                    assert(*t->Unop_1 == s0.den_cont@[c]);
                    assert(decreases_to!(t => *t->Unop_1));
                }
                let mut pre: Vec<Vec<u8>> = Vec::new();
                let s_c = match self.hash_cont(&c) { Some(x) => x, None => vstd::pervasive::unreached() };
                Self::push_word_zero(&mut pre, kk.0);
                Self::push_scalar_k(&mut pre, s_c);
                Self::push_word_zero(&mut pre, 0);
                Self::push_word_zero(&mut pre, 0);
                proof {
                    assert(pre.deep_view() =~~= cont_preimage(s0.den_cont@[*ptr]));
                }
                Some(pre)
            },
            None => vstd::pervasive::unreached(),
        }
    }

    #[verifier::rlimit(100)]
    #[verifier::spinoff_prover]
    fn comps_binop_at(&mut self, ptr: &ContPtr) -> (out: Option<Vec<Vec<u8>>>)
        requires
            old(self).wf(),
            old(self)@.conts.contains_key(*ptr),
            ptr.tag is Binop,
        ensures
            final(self).wf(),
            same_skeleton(old(self)@, final(self)@),
            hash_grows(old(self)@, final(self)@),
            (match out {
                Some(v) => v.deep_view() == cont_preimage(old(self)@.conts[*ptr])
                    && v.deep_view().len() == 8,
                None => false,
            }),
        decreases self.cont_measure(*ptr), 0int,
    {
        let ghost s0 = *self;
        let got = table_get(&self.binop_store, ptr.raw.idx);
        proof {
            assert(s0.vck(*ptr));
            assert(binop_entry_ok(
                table_entries(s0.binop_store),
                s0.binop_list@,
                s0.den_expr@,
                s0.den_cont@,
                ptr.raw.idx as int,
            ));
        }
        match got {
            Some(kk) => {
                let o_a = Self::decode_eptr(kk.1, kk.2);
                let o_b = Self::decode_eptr(kk.3, kk.4);
                let o_c = Self::decode_kptr(kk.5, kk.6);
                let a = match o_a { Some(x) => x, None => vstd::pervasive::unreached() };
                let b = match o_b { Some(x) => x, None => vstd::pervasive::unreached() };
                let c = match o_c { Some(x) => x, None => vstd::pervasive::unreached() };
                proof {
                    let idx = ptr.raw.idx as int;
                    assert(kk == table_entries(s0.binop_store)[idx]);
                    assert(enc_e(s0.binop_list@[idx].1) == (kk.1, kk.2));
                    assert(o_a == Some(s0.binop_list@[idx].1));
                    assert(enc_e(s0.binop_list@[idx].2) == (kk.3, kk.4));
                    assert(o_b == Some(s0.binop_list@[idx].2));
                    assert(enc_k(s0.binop_list@[idx].3) == (kk.5, kk.6));
                    assert(o_c == Some(s0.binop_list@[idx].3));
                    assert(kptr(ContTag::Binop, ptr.raw.idx as int) == *ptr);
                    let t = s0.den_cont@[*ptr];
                    assert(*t->Binop_1 == s0.den_expr@[a]);
                    assert(decreases_to!(t => *t->Binop_1));
                    assert(*t->Binop_2 == s0.den_expr@[b]);
                    assert(decreases_to!(t => *t->Binop_2));
                    assert(*t->Binop_3 == s0.den_cont@[c]);
                    assert(decreases_to!(t => *t->Binop_3));
                }
                let mut pre: Vec<Vec<u8>> = Vec::new();
                let s_a = match self.hash_expr(&a) { Some(x) => x, None => vstd::pervasive::unreached() };
                let s_b = match self.hash_expr(&b) { Some(x) => x, None => vstd::pervasive::unreached() };
                let s_c = match self.hash_cont(&c) { Some(x) => x, None => vstd::pervasive::unreached() };
                Self::push_word_zero(&mut pre, kk.0);
                Self::push_scalar_e(&mut pre, s_a);
                Self::push_scalar_e(&mut pre, s_b);
                Self::push_scalar_k(&mut pre, s_c);
                proof {
                    assert(pre.deep_view() =~~= cont_preimage(s0.den_cont@[*ptr]));
                }
                Some(pre)
            },
            None => vstd::pervasive::unreached(),
        }
    }

    #[verifier::rlimit(100)]
    #[verifier::spinoff_prover]
    fn comps_binop2_at(&mut self, ptr: &ContPtr) -> (out: Option<Vec<Vec<u8>>>)
        requires
            old(self).wf(),
            old(self)@.conts.contains_key(*ptr),
            ptr.tag is Binop2,
        ensures
            final(self).wf(),
            same_skeleton(old(self)@, final(self)@),
            hash_grows(old(self)@, final(self)@),
            (match out {
                Some(v) => v.deep_view() == cont_preimage(old(self)@.conts[*ptr])
                    && v.deep_view().len() == 8,
                None => false,
            }),
        decreases self.cont_measure(*ptr), 0int,
    {
        let ghost s0 = *self;
        let got = table_get(&self.binop2_store, ptr.raw.idx);
        proof {
            assert(s0.vck(*ptr));
            assert(binop2_entry_ok(
                table_entries(s0.binop2_store),
                s0.binop2_list@,
                s0.den_expr@,
                s0.den_cont@,
                ptr.raw.idx as int,
            ));
        }
        match got {
            Some(kk) => {
                let o_a = Self::decode_eptr(kk.1, kk.2);
                let o_c = Self::decode_kptr(kk.3, kk.4);
                let a = match o_a { Some(x) => x, None => vstd::pervasive::unreached() };
                let c = match o_c { Some(x) => x, None => vstd::pervasive::unreached() };
                proof {
                    let idx = ptr.raw.idx as int;
                    assert(kk == table_entries(s0.binop2_store)[idx]);
                    assert(enc_e(s0.binop2_list@[idx].1) == (kk.1, kk.2));
                    assert(o_a == Some(s0.binop2_list@[idx].1));
                    assert(enc_k(s0.binop2_list@[idx].2) == (kk.3, kk.4));
                    assert(o_c == Some(s0.binop2_list@[idx].2));
                    assert(kptr(ContTag::Binop2, ptr.raw.idx as int) == *ptr);
                    let t = s0.den_cont@[*ptr];
                    assert(*t->Binop2_1 == s0.den_expr@[a]);
                    assert(decreases_to!(t => *t->Binop2_1));
                    assert(*t->Binop2_2 == s0.den_cont@[c]);
                    assert(decreases_to!(t => *t->Binop2_2));
                }
                let mut pre: Vec<Vec<u8>> = Vec::new();
                let s_a = match self.hash_expr(&a) { Some(x) => x, None => vstd::pervasive::unreached() };
                let s_c = match self.hash_cont(&c) { Some(x) => x, None => vstd::pervasive::unreached() };
                Self::push_word_zero(&mut pre, kk.0);
                Self::push_scalar_e(&mut pre, s_a);
                Self::push_scalar_k(&mut pre, s_c);
                Self::push_word_zero(&mut pre, 0);
                proof {
                    assert(pre.deep_view() =~~= cont_preimage(s0.den_cont@[*ptr]));
                }
                Some(pre)
            },
            None => vstd::pervasive::unreached(),
        }
    }

    #[verifier::rlimit(100)]
    #[verifier::spinoff_prover]
    fn comps_relop_at(&mut self, ptr: &ContPtr) -> (out: Option<Vec<Vec<u8>>>)
        requires
            old(self).wf(),
            old(self)@.conts.contains_key(*ptr),
            ptr.tag is Relop,
        ensures
            final(self).wf(),
            same_skeleton(old(self)@, final(self)@),
            hash_grows(old(self)@, final(self)@),
            (match out {
                Some(v) => v.deep_view() == cont_preimage(old(self)@.conts[*ptr])
                    && v.deep_view().len() == 8,
                None => false,
            }),
        decreases self.cont_measure(*ptr), 0int,
    {
        let ghost s0 = *self;
        let got = table_get(&self.relop_store, ptr.raw.idx);
        proof {
            assert(s0.vck(*ptr));
            assert(relop_entry_ok(
                table_entries(s0.relop_store),
                s0.relop_list@,
                s0.den_expr@,
                s0.den_cont@,
                ptr.raw.idx as int,
            ));
        }
        match got {
            Some(kk) => {
                let o_a = Self::decode_eptr(kk.1, kk.2);
                let o_b = Self::decode_eptr(kk.3, kk.4);
                let o_c = Self::decode_kptr(kk.5, kk.6);
                let a = match o_a { Some(x) => x, None => vstd::pervasive::unreached() };
                let b = match o_b { Some(x) => x, None => vstd::pervasive::unreached() };
                let c = match o_c { Some(x) => x, None => vstd::pervasive::unreached() };
                proof {
                    let idx = ptr.raw.idx as int;
                    assert(kk == table_entries(s0.relop_store)[idx]);
                    assert(enc_e(s0.relop_list@[idx].1) == (kk.1, kk.2));
                    assert(o_a == Some(s0.relop_list@[idx].1));
                    assert(enc_e(s0.relop_list@[idx].2) == (kk.3, kk.4));
                    assert(o_b == Some(s0.relop_list@[idx].2));
                    assert(enc_k(s0.relop_list@[idx].3) == (kk.5, kk.6));
                    assert(o_c == Some(s0.relop_list@[idx].3));
                    assert(kptr(ContTag::Relop, ptr.raw.idx as int) == *ptr);
                    let t = s0.den_cont@[*ptr];
                    assert(*t->Relop_1 == s0.den_expr@[a]);
                    assert(decreases_to!(t => *t->Relop_1));
                    assert(*t->Relop_2 == s0.den_expr@[b]);
                    assert(decreases_to!(t => *t->Relop_2));
                    assert(*t->Relop_3 == s0.den_cont@[c]);
                    assert(decreases_to!(t => *t->Relop_3));
                }
                let mut pre: Vec<Vec<u8>> = Vec::new();
                let s_a = match self.hash_expr(&a) { Some(x) => x, None => vstd::pervasive::unreached() };
                let s_b = match self.hash_expr(&b) { Some(x) => x, None => vstd::pervasive::unreached() };
                let s_c = match self.hash_cont(&c) { Some(x) => x, None => vstd::pervasive::unreached() };
                Self::push_word_zero(&mut pre, kk.0);
                Self::push_scalar_e(&mut pre, s_a);
                Self::push_scalar_e(&mut pre, s_b);
                Self::push_scalar_k(&mut pre, s_c);
                proof {
                    assert(pre.deep_view() =~~= cont_preimage(s0.den_cont@[*ptr]));
                }
                Some(pre)
            },
            None => vstd::pervasive::unreached(),
        }
    }

    #[verifier::rlimit(100)]
    #[verifier::spinoff_prover]
    fn comps_relop2_at(&mut self, ptr: &ContPtr) -> (out: Option<Vec<Vec<u8>>>)
        requires
            old(self).wf(),
            old(self)@.conts.contains_key(*ptr),
            ptr.tag is Relop2,
        ensures
            final(self).wf(),
            same_skeleton(old(self)@, final(self)@),
            hash_grows(old(self)@, final(self)@),
            (match out {
                Some(v) => v.deep_view() == cont_preimage(old(self)@.conts[*ptr])
                    && v.deep_view().len() == 8,
                None => false,
            }),
        decreases self.cont_measure(*ptr), 0int,
    {
        let ghost s0 = *self;
        let got = table_get(&self.relop2_store, ptr.raw.idx);
        proof {
            assert(s0.vck(*ptr));
            assert(relop2_entry_ok(
                table_entries(s0.relop2_store),
                s0.relop2_list@,
                s0.den_expr@,
                s0.den_cont@,
                ptr.raw.idx as int,
            ));
        }
        match got {
            Some(kk) => {
                let o_a = Self::decode_eptr(kk.1, kk.2);
                let o_c = Self::decode_kptr(kk.3, kk.4);
                let a = match o_a { Some(x) => x, None => vstd::pervasive::unreached() };
                let c = match o_c { Some(x) => x, None => vstd::pervasive::unreached() };
                proof {
                    let idx = ptr.raw.idx as int;
                    assert(kk == table_entries(s0.relop2_store)[idx]);
                    assert(enc_e(s0.relop2_list@[idx].1) == (kk.1, kk.2));
                    assert(o_a == Some(s0.relop2_list@[idx].1));
                    assert(enc_k(s0.relop2_list@[idx].2) == (kk.3, kk.4));
                    assert(o_c == Some(s0.relop2_list@[idx].2));
                    assert(kptr(ContTag::Relop2, ptr.raw.idx as int) == *ptr);
                    let t = s0.den_cont@[*ptr];
                    assert(*t->Relop2_1 == s0.den_expr@[a]);
                    assert(decreases_to!(t => *t->Relop2_1));
                    assert(*t->Relop2_2 == s0.den_cont@[c]);
                    assert(decreases_to!(t => *t->Relop2_2));
                }
                let mut pre: Vec<Vec<u8>> = Vec::new();
                let s_a = match self.hash_expr(&a) { Some(x) => x, None => vstd::pervasive::unreached() };
                let s_c = match self.hash_cont(&c) { Some(x) => x, None => vstd::pervasive::unreached() };
                Self::push_word_zero(&mut pre, kk.0);
                Self::push_scalar_e(&mut pre, s_a);
                Self::push_scalar_k(&mut pre, s_c);
                Self::push_word_zero(&mut pre, 0);
                proof {
                    assert(pre.deep_view() =~~= cont_preimage(s0.den_cont@[*ptr]));
                }
                Some(pre)
            },
            None => vstd::pervasive::unreached(),
        }
    }

    #[verifier::rlimit(100)]
    #[verifier::spinoff_prover]
    fn comps_if_at(&mut self, ptr: &ContPtr) -> (out: Option<Vec<Vec<u8>>>)
        requires
            old(self).wf(),
            old(self)@.conts.contains_key(*ptr),
            ptr.tag is If,
        ensures
            final(self).wf(),
            same_skeleton(old(self)@, final(self)@),
            hash_grows(old(self)@, final(self)@),
            (match out {
                Some(v) => v.deep_view() == cont_preimage(old(self)@.conts[*ptr])
                    && v.deep_view().len() == 8,
                None => false,
            }),
        decreases self.cont_measure(*ptr), 0int,
    {
        let ghost s0 = *self;
        let got = table_get(&self.if_store, ptr.raw.idx);
        proof {
            assert(s0.vck(*ptr));
            assert(if_entry_ok(
                table_entries(s0.if_store),
                s0.if_list@,
                s0.den_expr@,
                s0.den_cont@,
                ptr.raw.idx as int,
            ));
        }
        match got {
            Some(kk) => {
                let o_a = Self::decode_eptr(kk.0, kk.1);
                let o_c = Self::decode_kptr(kk.2, kk.3);
                let a = match o_a { Some(x) => x, None => vstd::pervasive::unreached() };
                let c = match o_c { Some(x) => x, None => vstd::pervasive::unreached() };
                proof {
                    let idx = ptr.raw.idx as int;
                    assert(kk == table_entries(s0.if_store)[idx]);
                    assert(enc_e(s0.if_list@[idx].0) == (kk.0, kk.1));
                    assert(o_a == Some(s0.if_list@[idx].0));
                    assert(enc_k(s0.if_list@[idx].1) == (kk.2, kk.3));
                    assert(o_c == Some(s0.if_list@[idx].1));
                    assert(kptr(ContTag::If, ptr.raw.idx as int) == *ptr);
                    let t = s0.den_cont@[*ptr];
                    assert(*t->If_0 == s0.den_expr@[a]);
                    assert(decreases_to!(t => *t->If_0));
                    assert(*t->If_1 == s0.den_cont@[c]);
                    assert(decreases_to!(t => *t->If_1));
                }
                let mut pre: Vec<Vec<u8>> = Vec::new();
                let s_a = match self.hash_expr(&a) { Some(x) => x, None => vstd::pervasive::unreached() };
                let s_c = match self.hash_cont(&c) { Some(x) => x, None => vstd::pervasive::unreached() };
                Self::push_scalar_e(&mut pre, s_a);
                Self::push_scalar_k(&mut pre, s_c);
                Self::push_word_zero(&mut pre, 0);
                Self::push_word_zero(&mut pre, 0);
                proof {
                    assert(pre.deep_view() =~~= cont_preimage(s0.den_cont@[*ptr]));
                }
                Some(pre)
            },
            None => vstd::pervasive::unreached(),
        }
    }

    #[verifier::rlimit(100)]
    #[verifier::spinoff_prover]
    fn comps_letstar_at(&mut self, ptr: &ContPtr) -> (out: Option<Vec<Vec<u8>>>)
        requires
            old(self).wf(),
            old(self)@.conts.contains_key(*ptr),
            ptr.tag is LetStar,
        ensures
            final(self).wf(),
            same_skeleton(old(self)@, final(self)@),
            hash_grows(old(self)@, final(self)@),
            (match out {
                Some(v) => v.deep_view() == cont_preimage(old(self)@.conts[*ptr])
                    && v.deep_view().len() == 8,
                None => false,
            }),
        decreases self.cont_measure(*ptr), 0int,
    {
        let ghost s0 = *self;
        let got = table_get(&self.let_star_store, ptr.raw.idx);
        proof {
            assert(s0.vck(*ptr));
            assert(let_star_entry_ok(
                table_entries(s0.let_star_store),
                s0.let_star_list@,
                s0.den_expr@,
                s0.den_cont@,
                ptr.raw.idx as int,
            ));
        }
        match got {
            Some(kk) => {
                let o_a = Self::decode_eptr(kk.0, kk.1);
                let o_b = Self::decode_eptr(kk.2, kk.3);
                let o_w = Self::decode_eptr(kk.4, kk.5);
                let o_c = Self::decode_kptr(kk.6, kk.7);
                let a = match o_a { Some(x) => x, None => vstd::pervasive::unreached() };
                let b = match o_b { Some(x) => x, None => vstd::pervasive::unreached() };
                let w = match o_w { Some(x) => x, None => vstd::pervasive::unreached() };
                let c = match o_c { Some(x) => x, None => vstd::pervasive::unreached() };
                proof {
                    let idx = ptr.raw.idx as int;
                    assert(kk == table_entries(s0.let_star_store)[idx]);
                    assert(enc_e(s0.let_star_list@[idx].0) == (kk.0, kk.1));
                    assert(o_a == Some(s0.let_star_list@[idx].0));
                    assert(enc_e(s0.let_star_list@[idx].1) == (kk.2, kk.3));
                    assert(o_b == Some(s0.let_star_list@[idx].1));
                    assert(enc_e(s0.let_star_list@[idx].2) == (kk.4, kk.5));
                    assert(o_w == Some(s0.let_star_list@[idx].2));
                    assert(enc_k(s0.let_star_list@[idx].3) == (kk.6, kk.7));
                    assert(o_c == Some(s0.let_star_list@[idx].3));
                    assert(kptr(ContTag::LetStar, ptr.raw.idx as int) == *ptr);
                    let t = s0.den_cont@[*ptr];
                    assert(*t->LetStar_0 == s0.den_expr@[a]);
                    assert(decreases_to!(t => *t->LetStar_0));
                    assert(*t->LetStar_1 == s0.den_expr@[b]);
                    assert(decreases_to!(t => *t->LetStar_1));
                    assert(*t->LetStar_2 == s0.den_expr@[w]);
                    assert(decreases_to!(t => *t->LetStar_2));
                    assert(*t->LetStar_3 == s0.den_cont@[c]);
                    assert(decreases_to!(t => *t->LetStar_3));
                }
                let mut pre: Vec<Vec<u8>> = Vec::new();
                let s_a = match self.hash_expr(&a) { Some(x) => x, None => vstd::pervasive::unreached() };
                let s_b = match self.hash_expr(&b) { Some(x) => x, None => vstd::pervasive::unreached() };
                let s_w = match self.hash_expr(&w) { Some(x) => x, None => vstd::pervasive::unreached() };
                let s_c = match self.hash_cont(&c) { Some(x) => x, None => vstd::pervasive::unreached() };
                Self::push_scalar_e(&mut pre, s_a);
                Self::push_scalar_e(&mut pre, s_b);
                Self::push_scalar_e(&mut pre, s_w);
                Self::push_scalar_k(&mut pre, s_c);
                proof {
                    assert(pre.deep_view() =~~= cont_preimage(s0.den_cont@[*ptr]));
                }
                Some(pre)
            },
            None => vstd::pervasive::unreached(),
        }
    }

    #[verifier::rlimit(100)]
    #[verifier::spinoff_prover]
    fn comps_letrecstar_at(&mut self, ptr: &ContPtr) -> (out: Option<Vec<Vec<u8>>>)
        requires
            old(self).wf(),
            old(self)@.conts.contains_key(*ptr),
            ptr.tag is LetRecStar,
        ensures
            final(self).wf(),
            same_skeleton(old(self)@, final(self)@),
            hash_grows(old(self)@, final(self)@),
            (match out {
                Some(v) => v.deep_view() == cont_preimage(old(self)@.conts[*ptr])
                    && v.deep_view().len() == 8,
                None => false,
            }),
        decreases self.cont_measure(*ptr), 0int,
    {
        let ghost s0 = *self;
        let got = table_get(&self.let_rec_star_store, ptr.raw.idx);
        proof {
            assert(s0.vck(*ptr));
            assert(let_rec_star_entry_ok(
                table_entries(s0.let_rec_star_store),
                s0.let_rec_star_list@,
                s0.den_expr@,
                s0.den_cont@,
                ptr.raw.idx as int,
            ));
        }
        match got {
            Some(kk) => {
                let o_a = Self::decode_eptr(kk.0, kk.1);
                let o_b = Self::decode_eptr(kk.2, kk.3);
                let o_w = Self::decode_eptr(kk.4, kk.5);
                let o_c = Self::decode_kptr(kk.6, kk.7);
                let a = match o_a { Some(x) => x, None => vstd::pervasive::unreached() };
                let b = match o_b { Some(x) => x, None => vstd::pervasive::unreached() };
                let w = match o_w { Some(x) => x, None => vstd::pervasive::unreached() };
                let c = match o_c { Some(x) => x, None => vstd::pervasive::unreached() };
                proof {
                    let idx = ptr.raw.idx as int;
                    assert(kk == table_entries(s0.let_rec_star_store)[idx]);
                    assert(enc_e(s0.let_rec_star_list@[idx].0) == (kk.0, kk.1));
                    assert(o_a == Some(s0.let_rec_star_list@[idx].0));
                    assert(enc_e(s0.let_rec_star_list@[idx].1) == (kk.2, kk.3));
                    assert(o_b == Some(s0.let_rec_star_list@[idx].1));
                    assert(enc_e(s0.let_rec_star_list@[idx].2) == (kk.4, kk.5));
                    assert(o_w == Some(s0.let_rec_star_list@[idx].2));
                    assert(enc_k(s0.let_rec_star_list@[idx].3) == (kk.6, kk.7));
                    assert(o_c == Some(s0.let_rec_star_list@[idx].3));
                    assert(kptr(ContTag::LetRecStar, ptr.raw.idx as int) == *ptr);
                    let t = s0.den_cont@[*ptr];
                    assert(*t->LetRecStar_0 == s0.den_expr@[a]);
                    assert(decreases_to!(t => *t->LetRecStar_0));
                    assert(*t->LetRecStar_1 == s0.den_expr@[b]);
                    assert(decreases_to!(t => *t->LetRecStar_1));
                    assert(*t->LetRecStar_2 == s0.den_expr@[w]);
                    assert(decreases_to!(t => *t->LetRecStar_2));
                    assert(*t->LetRecStar_3 == s0.den_cont@[c]);
                    assert(decreases_to!(t => *t->LetRecStar_3));
                }
                let mut pre: Vec<Vec<u8>> = Vec::new();
                let s_a = match self.hash_expr(&a) { Some(x) => x, None => vstd::pervasive::unreached() };
                let s_b = match self.hash_expr(&b) { Some(x) => x, None => vstd::pervasive::unreached() };
                let s_w = match self.hash_expr(&w) { Some(x) => x, None => vstd::pervasive::unreached() };
                let s_c = match self.hash_cont(&c) { Some(x) => x, None => vstd::pervasive::unreached() };
                Self::push_scalar_e(&mut pre, s_a);
                Self::push_scalar_e(&mut pre, s_b);
                Self::push_scalar_e(&mut pre, s_w);
                Self::push_scalar_k(&mut pre, s_c);
                proof {
                    assert(pre.deep_view() =~~= cont_preimage(s0.den_cont@[*ptr]));
                }
                Some(pre)
            },
            None => vstd::pervasive::unreached(),
        }
    }
}


/// Whether a one-level expression view agrees with the tree a pointer
/// denotes: children are pointers to the right subtrees, leaves carry the
/// right payloads.
pub open spec fn fetch_agrees(m: StoreModel, p: Ptr, ex: Expression) -> bool {
    match ex {
        Expression::Nil => m.exprs[p] == ExprV::Nil,
        Expression::Cons(a, b) => m.exprs.contains_key(a) && m.exprs.contains_key(b)
            && m.exprs[p] == ExprV::Cons(Box::new(m.exprs[a]), Box::new(m.exprs[b])),
        Expression::Sym(s) => m.exprs[p] == ExprV::Sym(s@),
        Expression::Str(s) => m.exprs[p] == ExprV::Str(s@),
        Expression::Num(n) => m.exprs[p] == ExprV::Num(n.val),
        Expression::Fun(a, b, c) => m.exprs.contains_key(a) && m.exprs.contains_key(b)
            && m.exprs.contains_key(c) && m.exprs[p] == ExprV::Fun(
            Box::new(m.exprs[a]),
            Box::new(m.exprs[b]),
            Box::new(m.exprs[c]),
        ),
        Expression::Thunk(t) => m.exprs.contains_key(t.value) && m.conts.contains_key(
            t.continuation,
        ) && m.exprs[p] == ExprV::Thunk(
            Box::new(m.exprs[t.value]),
            Box::new(m.conts[t.continuation]),
        ),
    }
}

/// Whether a one-level continuation view agrees with the tree a pointer
/// denotes.
pub open spec fn cont_fetch_agrees(m: StoreModel, p: ContPtr, c: Continuation) -> bool {
    match c {
        Continuation::Outermost => m.conts[p] == ContV::Outermost,
        Continuation::Error => m.conts[p] == ContV::Error,
        Continuation::Dummy => m.conts[p] == ContV::Dummy,
        Continuation::Terminal => m.conts[p] == ContV::Terminal,
        Continuation::Simple(k) => m.conts.contains_key(k) && m.conts[p] == ContV::Simple(
            Box::new(m.conts[k]),
        ),
        Continuation::Call(a, b, k) => m.exprs.contains_key(a) && m.exprs.contains_key(b)
            && m.conts.contains_key(k) && m.conts[p] == ContV::Call(
            Box::new(m.exprs[a]),
            Box::new(m.exprs[b]),
            Box::new(m.conts[k]),
        ),
        Continuation::Call2(a, b, k) => m.exprs.contains_key(a) && m.exprs.contains_key(b)
            && m.conts.contains_key(k) && m.conts[p] == ContV::Call2(
            Box::new(m.exprs[a]),
            Box::new(m.exprs[b]),
            Box::new(m.conts[k]),
        ),
        Continuation::Tail(a, k) => m.exprs.contains_key(a) && m.conts.contains_key(k)
            && m.conts[p] == ContV::Tail(Box::new(m.exprs[a]), Box::new(m.conts[k])),
        Continuation::Lookup(a, k) => m.exprs.contains_key(a) && m.conts.contains_key(k)
            && m.conts[p] == ContV::Lookup(Box::new(m.exprs[a]), Box::new(m.conts[k])),
        Continuation::Unop(op, k) => m.conts.contains_key(k) && m.conts[p] == ContV::Unop(
            op,
            Box::new(m.conts[k]),
        ),
        Continuation::Binop(op, a, b, k) => m.exprs.contains_key(a) && m.exprs.contains_key(b)
            && m.conts.contains_key(k) && m.conts[p] == ContV::Binop(
            op,
            Box::new(m.exprs[a]),
            Box::new(m.exprs[b]),
            Box::new(m.conts[k]),
        ),
        Continuation::Binop2(op, a, k) => m.exprs.contains_key(a) && m.conts.contains_key(k)
            && m.conts[p] == ContV::Binop2(op, Box::new(m.exprs[a]), Box::new(m.conts[k])),
        Continuation::Relop(op, a, b, k) => m.exprs.contains_key(a) && m.exprs.contains_key(b)
            && m.conts.contains_key(k) && m.conts[p] == ContV::Relop(
            op,
            Box::new(m.exprs[a]),
            Box::new(m.exprs[b]),
            Box::new(m.conts[k]),
        ),
        Continuation::Relop2(op, a, k) => m.exprs.contains_key(a) && m.conts.contains_key(k)
            && m.conts[p] == ContV::Relop2(op, Box::new(m.exprs[a]), Box::new(m.conts[k])),
        Continuation::If(a, k) => m.exprs.contains_key(a) && m.conts.contains_key(k)
            && m.conts[p] == ContV::If(Box::new(m.exprs[a]), Box::new(m.conts[k])),
        Continuation::LetStar(a, b, w, k) => m.exprs.contains_key(a) && m.exprs.contains_key(b)
            && m.exprs.contains_key(w) && m.conts.contains_key(k) && m.conts[p]
            == ContV::LetStar(
            Box::new(m.exprs[a]),
            Box::new(m.exprs[b]),
            Box::new(m.exprs[w]),
            Box::new(m.conts[k]),
        ),
        Continuation::LetRecStar(a, b, w, k) => m.exprs.contains_key(a) && m.exprs.contains_key(
            b,
        ) && m.exprs.contains_key(w) && m.conts.contains_key(k) && m.conts[p]
            == ContV::LetRecStar(
            Box::new(m.exprs[a]),
            Box::new(m.exprs[b]),
            Box::new(m.exprs[w]),
            Box::new(m.conts[k]),
        ),
    }
}

impl Store {
    /// An immutable view of a continuation frame, or `None` on a dangling
    /// pointer.
    pub fn fetch_cont(&self, ptr: &ContPtr) -> (r: Option<Continuation>)
        requires
            self.wf(),
        ensures
            self@.conts.contains_key(*ptr) ==> (match r {
                Some(c) => cont_fetch_agrees(self@, *ptr, c),
                None => false,
            }),
            !self@.conts.contains_key(*ptr) ==> r is None,
    {
        let ghost s = *self;
        if !self.has_cont(ptr) {
            return None;
        }
        match ptr.tag {
            ContTag::Outermost => {
                proof {
                    assert(s.den_cont@[*ptr] == ContV::Outermost);
                }
                Some(Continuation::Outermost)
            },
            ContTag::Error => {
                proof {
                    assert(s.den_cont@[*ptr] == ContV::Error);
                }
                Some(Continuation::Error)
            },
            ContTag::Dummy => {
                proof {
                    assert(s.den_cont@[*ptr] == ContV::Dummy);
                }
                Some(Continuation::Dummy)
            },
            ContTag::Terminal => {
                proof {
                    assert(s.den_cont@[*ptr] == ContV::Terminal);
                }
                Some(Continuation::Terminal)
            },
            ContTag::Simple => self.fetch_cont_simple_at(ptr),
            ContTag::Call => self.fetch_cont_call_at(ptr),
            ContTag::Call2 => self.fetch_cont_call2_at(ptr),
            ContTag::Tail => self.fetch_cont_tail_at(ptr),
            ContTag::Lookup => self.fetch_cont_lookup_at(ptr),
            ContTag::Unop => self.fetch_cont_unop_at(ptr),
            ContTag::Binop => self.fetch_cont_binop_at(ptr),
            ContTag::Binop2 => self.fetch_cont_binop2_at(ptr),
            ContTag::Relop => self.fetch_cont_relop_at(ptr),
            ContTag::Relop2 => self.fetch_cont_relop2_at(ptr),
            ContTag::If => self.fetch_cont_if_at(ptr),
            ContTag::LetStar => self.fetch_cont_letstar_at(ptr),
            ContTag::LetRecStar => self.fetch_cont_letrecstar_at(ptr),
        }
    }

    fn fetch_cont_simple_at(&self, ptr: &ContPtr) -> (out: Option<Continuation>)
        requires
            self.wf(),
            self@.conts.contains_key(*ptr),
            ptr.tag is Simple,
        ensures
            (match out {
                Some(c) => cont_fetch_agrees(self@, *ptr, c),
                None => false,
            }),
    {
        let ghost s = *self;
        let got = table_get(&self.simple_store, ptr.raw.idx);
        proof {
            assert(s.vck(*ptr));
            assert(simple_entry_ok(
                table_entries(s.simple_store),
                s.simple_list@,
                s.den_cont@,
                ptr.raw.idx as int,
            ));
        }
        match got {
            Some(kk) => {
                let o_c = Self::decode_kptr(kk.0, kk.1);
                let c = match o_c { Some(x) => x, None => vstd::pervasive::unreached() };
                proof {
                    let idx = ptr.raw.idx as int;
                    assert(kk == table_entries(s.simple_store)[idx]);
                    assert(kptr(ContTag::Simple, ptr.raw.idx as int) == *ptr);
                    assert(enc_k(s.simple_list@[idx]) == (kk.0, kk.1));
                    assert(o_c == Some(s.simple_list@[idx]));
                }
                Some(Continuation::Simple(c))
            },
            None => vstd::pervasive::unreached(),
        }
    }

    fn fetch_cont_call_at(&self, ptr: &ContPtr) -> (out: Option<Continuation>)
        requires
            self.wf(),
            self@.conts.contains_key(*ptr),
            ptr.tag is Call,
        ensures
            (match out {
                Some(c) => cont_fetch_agrees(self@, *ptr, c),
                None => false,
            }),
    {
        let ghost s = *self;
        let got = table_get(&self.call_store, ptr.raw.idx);
        proof {
            assert(s.vck(*ptr));
            assert(call_entry_ok(
                table_entries(s.call_store),
                s.call_list@,
                s.den_expr@,
                s.den_cont@,
                ptr.raw.idx as int,
            ));
        }
        match got {
            Some(kk) => {
                let o_a = Self::decode_eptr(kk.0, kk.1);
                let o_b = Self::decode_eptr(kk.2, kk.3);
                let o_c = Self::decode_kptr(kk.4, kk.5);
                let a = match o_a { Some(x) => x, None => vstd::pervasive::unreached() };
                let b = match o_b { Some(x) => x, None => vstd::pervasive::unreached() };
                let c = match o_c { Some(x) => x, None => vstd::pervasive::unreached() };
                proof {
                    let idx = ptr.raw.idx as int;
                    assert(kk == table_entries(s.call_store)[idx]);
                    assert(kptr(ContTag::Call, ptr.raw.idx as int) == *ptr);
                    assert(enc_e(s.call_list@[idx].0) == (kk.0, kk.1));
                    assert(o_a == Some(s.call_list@[idx].0));
                    assert(enc_e(s.call_list@[idx].1) == (kk.2, kk.3));
                    assert(o_b == Some(s.call_list@[idx].1));
                    assert(enc_k(s.call_list@[idx].2) == (kk.4, kk.5));
                    assert(o_c == Some(s.call_list@[idx].2));
                }
                Some(Continuation::Call(a, b, c))
            },
            None => vstd::pervasive::unreached(),
        }
    }

    fn fetch_cont_call2_at(&self, ptr: &ContPtr) -> (out: Option<Continuation>)
        requires
            self.wf(),
            self@.conts.contains_key(*ptr),
            ptr.tag is Call2,
        ensures
            (match out {
                Some(c) => cont_fetch_agrees(self@, *ptr, c),
                None => false,
            }),
    {
        let ghost s = *self;
        let got = table_get(&self.call2_store, ptr.raw.idx);
        proof {
            assert(s.vck(*ptr));
            assert(call2_entry_ok(
                table_entries(s.call2_store),
                s.call2_list@,
                s.den_expr@,
                s.den_cont@,
                ptr.raw.idx as int,
            ));
        }
        match got {
            Some(kk) => {
                let o_a = Self::decode_eptr(kk.0, kk.1);
                let o_b = Self::decode_eptr(kk.2, kk.3);
                let o_c = Self::decode_kptr(kk.4, kk.5);
                let a = match o_a { Some(x) => x, None => vstd::pervasive::unreached() };
                let b = match o_b { Some(x) => x, None => vstd::pervasive::unreached() };
                let c = match o_c { Some(x) => x, None => vstd::pervasive::unreached() };
                proof {
                    let idx = ptr.raw.idx as int;
                    assert(kk == table_entries(s.call2_store)[idx]);
                    assert(kptr(ContTag::Call2, ptr.raw.idx as int) == *ptr);
                    assert(enc_e(s.call2_list@[idx].0) == (kk.0, kk.1));
                    assert(o_a == Some(s.call2_list@[idx].0));
                    assert(enc_e(s.call2_list@[idx].1) == (kk.2, kk.3));
                    assert(o_b == Some(s.call2_list@[idx].1));
                    assert(enc_k(s.call2_list@[idx].2) == (kk.4, kk.5));
                    assert(o_c == Some(s.call2_list@[idx].2));
                }
                Some(Continuation::Call2(a, b, c))
            },
            None => vstd::pervasive::unreached(),
        }
    }

    fn fetch_cont_tail_at(&self, ptr: &ContPtr) -> (out: Option<Continuation>)
        requires
            self.wf(),
            self@.conts.contains_key(*ptr),
            ptr.tag is Tail,
        ensures
            (match out {
                Some(c) => cont_fetch_agrees(self@, *ptr, c),
                None => false,
            }),
    {
        let ghost s = *self;
        let got = table_get(&self.tail_store, ptr.raw.idx);
        proof {
            assert(s.vck(*ptr));
            assert(tail_entry_ok(
                table_entries(s.tail_store),
                s.tail_list@,
                s.den_expr@,
                s.den_cont@,
                ptr.raw.idx as int,
            ));
        }
        match got {
            Some(kk) => {
                let o_a = Self::decode_eptr(kk.0, kk.1);
                let o_c = Self::decode_kptr(kk.2, kk.3);
                let a = match o_a { Some(x) => x, None => vstd::pervasive::unreached() };
                let c = match o_c { Some(x) => x, None => vstd::pervasive::unreached() };
                proof {
                    let idx = ptr.raw.idx as int;
                    assert(kk == table_entries(s.tail_store)[idx]);
                    assert(kptr(ContTag::Tail, ptr.raw.idx as int) == *ptr);
                    assert(enc_e(s.tail_list@[idx].0) == (kk.0, kk.1));
                    assert(o_a == Some(s.tail_list@[idx].0));
                    assert(enc_k(s.tail_list@[idx].1) == (kk.2, kk.3));
                    assert(o_c == Some(s.tail_list@[idx].1));
                }
                Some(Continuation::Tail(a, c))
            },
            None => vstd::pervasive::unreached(),
        }
    }

    fn fetch_cont_lookup_at(&self, ptr: &ContPtr) -> (out: Option<Continuation>)
        requires
            self.wf(),
            self@.conts.contains_key(*ptr),
            ptr.tag is Lookup,
        ensures
            (match out {
                Some(c) => cont_fetch_agrees(self@, *ptr, c),
                None => false,
            }),
    {
        let ghost s = *self;
        let got = table_get(&self.lookup_store, ptr.raw.idx);
        proof {
            assert(s.vck(*ptr));
            assert(lookup_entry_ok(
                table_entries(s.lookup_store),
                s.lookup_list@,
                s.den_expr@,
                s.den_cont@,
                ptr.raw.idx as int,
            ));
        }
        match got {
            Some(kk) => {
                let o_a = Self::decode_eptr(kk.0, kk.1);
                let o_c = Self::decode_kptr(kk.2, kk.3);
                let a = match o_a { Some(x) => x, None => vstd::pervasive::unreached() };
                let c = match o_c { Some(x) => x, None => vstd::pervasive::unreached() };
                proof {
                    let idx = ptr.raw.idx as int;
                    assert(kk == table_entries(s.lookup_store)[idx]);
                    assert(kptr(ContTag::Lookup, ptr.raw.idx as int) == *ptr);
                    assert(enc_e(s.lookup_list@[idx].0) == (kk.0, kk.1));
                    assert(o_a == Some(s.lookup_list@[idx].0));
                    assert(enc_k(s.lookup_list@[idx].1) == (kk.2, kk.3));
                    assert(o_c == Some(s.lookup_list@[idx].1));
                }
                Some(Continuation::Lookup(a, c))
            },
            None => vstd::pervasive::unreached(),
        }
    }

    fn fetch_cont_unop_at(&self, ptr: &ContPtr) -> (out: Option<Continuation>)
        requires
            self.wf(),
            self@.conts.contains_key(*ptr),
            ptr.tag is Unop,
        ensures
            (match out {
                Some(c) => cont_fetch_agrees(self@, *ptr, c),
                None => false,
            }),
    {
        let ghost s = *self;
        let got = table_get(&self.unop_store, ptr.raw.idx);
        proof {
            assert(s.vck(*ptr));
            assert(unop_entry_ok(
                table_entries(s.unop_store),
                s.unop_list@,
                s.den_cont@,
                ptr.raw.idx as int,
            ));
        }
        match got {
            Some(kk) => {
                let op = if kk.0 == 0x2000 { Op1::Car } else if kk.0 == 0x2001 { Op1::Cdr } else { Op1::Atom };
                let o_c = Self::decode_kptr(kk.1, kk.2);
                let c = match o_c { Some(x) => x, None => vstd::pervasive::unreached() };
                proof {
                    let idx = ptr.raw.idx as int;
                    assert(kk == table_entries(s.unop_store)[idx]);
                    assert(kptr(ContTag::Unop, ptr.raw.idx as int) == *ptr);
                    assert(op1_u64(s.unop_list@[idx].0) == kk.0);
                    lemma_op1_inj(s.unop_list@[idx].0, op);
                    assert(enc_k(s.unop_list@[idx].1) == (kk.1, kk.2));
                    assert(o_c == Some(s.unop_list@[idx].1));
                }
                Some(Continuation::Unop(op, c))
            },
            None => vstd::pervasive::unreached(),
        }
    }

    fn fetch_cont_binop_at(&self, ptr: &ContPtr) -> (out: Option<Continuation>)
        requires
            self.wf(),
            self@.conts.contains_key(*ptr),
            ptr.tag is Binop,
        ensures
            (match out {
                Some(c) => cont_fetch_agrees(self@, *ptr, c),
                None => false,
            }),
    {
        let ghost s = *self;
        let got = table_get(&self.binop_store, ptr.raw.idx);
        proof {
            assert(s.vck(*ptr));
            assert(binop_entry_ok(
                table_entries(s.binop_store),
                s.binop_list@,
                s.den_expr@,
                s.den_cont@,
                ptr.raw.idx as int,
            ));
        }
        match got {
            Some(kk) => {
                let op = if kk.0 == 0x3000 { Op2::Sum } else if kk.0 == 0x3001 { Op2::Diff } else if kk.0 == 0x3002 { Op2::Product } else if kk.0 == 0x3003 { Op2::Quotient } else { Op2::Cons };
                let o_a = Self::decode_eptr(kk.1, kk.2);
                let o_b = Self::decode_eptr(kk.3, kk.4);
                let o_c = Self::decode_kptr(kk.5, kk.6);
                let a = match o_a { Some(x) => x, None => vstd::pervasive::unreached() };
                let b = match o_b { Some(x) => x, None => vstd::pervasive::unreached() };
                let c = match o_c { Some(x) => x, None => vstd::pervasive::unreached() };
                proof {
                    let idx = ptr.raw.idx as int;
                    assert(kk == table_entries(s.binop_store)[idx]);
                    assert(kptr(ContTag::Binop, ptr.raw.idx as int) == *ptr);
                    assert(op2_u64(s.binop_list@[idx].0) == kk.0);
                    lemma_op2_inj(s.binop_list@[idx].0, op);
                    assert(enc_e(s.binop_list@[idx].1) == (kk.1, kk.2));
                    assert(o_a == Some(s.binop_list@[idx].1));
                    assert(enc_e(s.binop_list@[idx].2) == (kk.3, kk.4));
                    assert(o_b == Some(s.binop_list@[idx].2));
                    assert(enc_k(s.binop_list@[idx].3) == (kk.5, kk.6));
                    assert(o_c == Some(s.binop_list@[idx].3));
                }
                Some(Continuation::Binop(op, a, b, c))
            },
            None => vstd::pervasive::unreached(),
        }
    }

    fn fetch_cont_binop2_at(&self, ptr: &ContPtr) -> (out: Option<Continuation>)
        requires
            self.wf(),
            self@.conts.contains_key(*ptr),
            ptr.tag is Binop2,
        ensures
            (match out {
                Some(c) => cont_fetch_agrees(self@, *ptr, c),
                None => false,
            }),
    {
        let ghost s = *self;
        let got = table_get(&self.binop2_store, ptr.raw.idx);
        proof {
            assert(s.vck(*ptr));
            assert(binop2_entry_ok(
                table_entries(s.binop2_store),
                s.binop2_list@,
                s.den_expr@,
                s.den_cont@,
                ptr.raw.idx as int,
            ));
        }
        match got {
            Some(kk) => {
                let op = if kk.0 == 0x3000 { Op2::Sum } else if kk.0 == 0x3001 { Op2::Diff } else if kk.0 == 0x3002 { Op2::Product } else if kk.0 == 0x3003 { Op2::Quotient } else { Op2::Cons };
                let o_a = Self::decode_eptr(kk.1, kk.2);
                let o_c = Self::decode_kptr(kk.3, kk.4);
                let a = match o_a { Some(x) => x, None => vstd::pervasive::unreached() };
                let c = match o_c { Some(x) => x, None => vstd::pervasive::unreached() };
                proof {
                    let idx = ptr.raw.idx as int;
                    assert(kk == table_entries(s.binop2_store)[idx]);
                    assert(kptr(ContTag::Binop2, ptr.raw.idx as int) == *ptr);
                    assert(op2_u64(s.binop2_list@[idx].0) == kk.0);
                    lemma_op2_inj(s.binop2_list@[idx].0, op);
                    assert(enc_e(s.binop2_list@[idx].1) == (kk.1, kk.2));
                    assert(o_a == Some(s.binop2_list@[idx].1));
                    assert(enc_k(s.binop2_list@[idx].2) == (kk.3, kk.4));
                    assert(o_c == Some(s.binop2_list@[idx].2));
                }
                Some(Continuation::Binop2(op, a, c))
            },
            None => vstd::pervasive::unreached(),
        }
    }

    fn fetch_cont_relop_at(&self, ptr: &ContPtr) -> (out: Option<Continuation>)
        requires
            self.wf(),
            self@.conts.contains_key(*ptr),
            ptr.tag is Relop,
        ensures
            (match out {
                Some(c) => cont_fetch_agrees(self@, *ptr, c),
                None => false,
            }),
    {
        let ghost s = *self;
        let got = table_get(&self.relop_store, ptr.raw.idx);
        proof {
            assert(s.vck(*ptr));
            assert(relop_entry_ok(
                table_entries(s.relop_store),
                s.relop_list@,
                s.den_expr@,
                s.den_cont@,
                ptr.raw.idx as int,
            ));
        }
        match got {
            Some(kk) => {
                let op = if kk.0 == 0x4000 { Rel2::Equal } else { Rel2::NumEqual };
                let o_a = Self::decode_eptr(kk.1, kk.2);
                let o_b = Self::decode_eptr(kk.3, kk.4);
                let o_c = Self::decode_kptr(kk.5, kk.6);
                let a = match o_a { Some(x) => x, None => vstd::pervasive::unreached() };
                let b = match o_b { Some(x) => x, None => vstd::pervasive::unreached() };
                let c = match o_c { Some(x) => x, None => vstd::pervasive::unreached() };
                proof {
                    let idx = ptr.raw.idx as int;
                    assert(kk == table_entries(s.relop_store)[idx]);
                    assert(kptr(ContTag::Relop, ptr.raw.idx as int) == *ptr);
                    assert(rel2_u64(s.relop_list@[idx].0) == kk.0);
                    lemma_rel2_inj(s.relop_list@[idx].0, op);
                    assert(enc_e(s.relop_list@[idx].1) == (kk.1, kk.2));
                    assert(o_a == Some(s.relop_list@[idx].1));
                    assert(enc_e(s.relop_list@[idx].2) == (kk.3, kk.4));
                    assert(o_b == Some(s.relop_list@[idx].2));
                    assert(enc_k(s.relop_list@[idx].3) == (kk.5, kk.6));
                    assert(o_c == Some(s.relop_list@[idx].3));
                }
                Some(Continuation::Relop(op, a, b, c))
            },
            None => vstd::pervasive::unreached(),
        }
    }

    fn fetch_cont_relop2_at(&self, ptr: &ContPtr) -> (out: Option<Continuation>)
        requires
            self.wf(),
            self@.conts.contains_key(*ptr),
            ptr.tag is Relop2,
        ensures
            (match out {
                Some(c) => cont_fetch_agrees(self@, *ptr, c),
                None => false,
            }),
    {
        let ghost s = *self;
        let got = table_get(&self.relop2_store, ptr.raw.idx);
        proof {
            assert(s.vck(*ptr));
            assert(relop2_entry_ok(
                table_entries(s.relop2_store),
                s.relop2_list@,
                s.den_expr@,
                s.den_cont@,
                ptr.raw.idx as int,
            ));
        }
        match got {
            Some(kk) => {
                let op = if kk.0 == 0x4000 { Rel2::Equal } else { Rel2::NumEqual };
                let o_a = Self::decode_eptr(kk.1, kk.2);
                let o_c = Self::decode_kptr(kk.3, kk.4);
                let a = match o_a { Some(x) => x, None => vstd::pervasive::unreached() };
                let c = match o_c { Some(x) => x, None => vstd::pervasive::unreached() };
                proof {
                    let idx = ptr.raw.idx as int;
                    assert(kk == table_entries(s.relop2_store)[idx]);
                    assert(kptr(ContTag::Relop2, ptr.raw.idx as int) == *ptr);
                    assert(rel2_u64(s.relop2_list@[idx].0) == kk.0);
                    lemma_rel2_inj(s.relop2_list@[idx].0, op);
                    assert(enc_e(s.relop2_list@[idx].1) == (kk.1, kk.2));
                    assert(o_a == Some(s.relop2_list@[idx].1));
                    assert(enc_k(s.relop2_list@[idx].2) == (kk.3, kk.4));
                    assert(o_c == Some(s.relop2_list@[idx].2));
                }
                Some(Continuation::Relop2(op, a, c))
            },
            None => vstd::pervasive::unreached(),
        }
    }

    fn fetch_cont_if_at(&self, ptr: &ContPtr) -> (out: Option<Continuation>)
        requires
            self.wf(),
            self@.conts.contains_key(*ptr),
            ptr.tag is If,
        ensures
            (match out {
                Some(c) => cont_fetch_agrees(self@, *ptr, c),
                None => false,
            }),
    {
        let ghost s = *self;
        let got = table_get(&self.if_store, ptr.raw.idx);
        proof {
            assert(s.vck(*ptr));
            assert(if_entry_ok(
                table_entries(s.if_store),
                s.if_list@,
                s.den_expr@,
                s.den_cont@,
                ptr.raw.idx as int,
            ));
        }
        match got {
            Some(kk) => {
                let o_a = Self::decode_eptr(kk.0, kk.1);
                let o_c = Self::decode_kptr(kk.2, kk.3);
                let a = match o_a { Some(x) => x, None => vstd::pervasive::unreached() };
                let c = match o_c { Some(x) => x, None => vstd::pervasive::unreached() };
                proof {
                    let idx = ptr.raw.idx as int;
                    assert(kk == table_entries(s.if_store)[idx]);
                    assert(kptr(ContTag::If, ptr.raw.idx as int) == *ptr);
                    assert(enc_e(s.if_list@[idx].0) == (kk.0, kk.1));
                    assert(o_a == Some(s.if_list@[idx].0));
                    assert(enc_k(s.if_list@[idx].1) == (kk.2, kk.3));
                    assert(o_c == Some(s.if_list@[idx].1));
                }
                Some(Continuation::If(a, c))
            },
            None => vstd::pervasive::unreached(),
        }
    }

    fn fetch_cont_letstar_at(&self, ptr: &ContPtr) -> (out: Option<Continuation>)
        requires
            self.wf(),
            self@.conts.contains_key(*ptr),
            ptr.tag is LetStar,
        ensures
            (match out {
                Some(c) => cont_fetch_agrees(self@, *ptr, c),
                None => false,
            }),
    {
        let ghost s = *self;
        let got = table_get(&self.let_star_store, ptr.raw.idx);
        proof {
            assert(s.vck(*ptr));
            assert(let_star_entry_ok(
                table_entries(s.let_star_store),
                s.let_star_list@,
                s.den_expr@,
                s.den_cont@,
                ptr.raw.idx as int,
            ));
        }
        match got {
            Some(kk) => {
                let o_a = Self::decode_eptr(kk.0, kk.1);
                let o_b = Self::decode_eptr(kk.2, kk.3);
                let o_w = Self::decode_eptr(kk.4, kk.5);
                let o_c = Self::decode_kptr(kk.6, kk.7);
                let a = match o_a { Some(x) => x, None => vstd::pervasive::unreached() };
                let b = match o_b { Some(x) => x, None => vstd::pervasive::unreached() };
                let w = match o_w { Some(x) => x, None => vstd::pervasive::unreached() };
                let c = match o_c { Some(x) => x, None => vstd::pervasive::unreached() };
                proof {
                    let idx = ptr.raw.idx as int;
                    assert(kk == table_entries(s.let_star_store)[idx]);
                    assert(kptr(ContTag::LetStar, ptr.raw.idx as int) == *ptr);
                    assert(enc_e(s.let_star_list@[idx].0) == (kk.0, kk.1));
                    assert(o_a == Some(s.let_star_list@[idx].0));
                    assert(enc_e(s.let_star_list@[idx].1) == (kk.2, kk.3));
                    assert(o_b == Some(s.let_star_list@[idx].1));
                    assert(enc_e(s.let_star_list@[idx].2) == (kk.4, kk.5));
                    assert(o_w == Some(s.let_star_list@[idx].2));
                    assert(enc_k(s.let_star_list@[idx].3) == (kk.6, kk.7));
                    assert(o_c == Some(s.let_star_list@[idx].3));
                }
                Some(Continuation::LetStar(a, b, w, c))
            },
            None => vstd::pervasive::unreached(),
        }
    }

    fn fetch_cont_letrecstar_at(&self, ptr: &ContPtr) -> (out: Option<Continuation>)
        requires
            self.wf(),
            self@.conts.contains_key(*ptr),
            ptr.tag is LetRecStar,
        ensures
            (match out {
                Some(c) => cont_fetch_agrees(self@, *ptr, c),
                None => false,
            }),
    {
        let ghost s = *self;
        let got = table_get(&self.let_rec_star_store, ptr.raw.idx);
        proof {
            assert(s.vck(*ptr));
            assert(let_rec_star_entry_ok(
                table_entries(s.let_rec_star_store),
                s.let_rec_star_list@,
                s.den_expr@,
                s.den_cont@,
                ptr.raw.idx as int,
            ));
        }
        match got {
            Some(kk) => {
                let o_a = Self::decode_eptr(kk.0, kk.1);
                let o_b = Self::decode_eptr(kk.2, kk.3);
                let o_w = Self::decode_eptr(kk.4, kk.5);
                let o_c = Self::decode_kptr(kk.6, kk.7);
                let a = match o_a { Some(x) => x, None => vstd::pervasive::unreached() };
                let b = match o_b { Some(x) => x, None => vstd::pervasive::unreached() };
                let w = match o_w { Some(x) => x, None => vstd::pervasive::unreached() };
                let c = match o_c { Some(x) => x, None => vstd::pervasive::unreached() };
                proof {
                    let idx = ptr.raw.idx as int;
                    assert(kk == table_entries(s.let_rec_star_store)[idx]);
                    assert(kptr(ContTag::LetRecStar, ptr.raw.idx as int) == *ptr);
                    assert(enc_e(s.let_rec_star_list@[idx].0) == (kk.0, kk.1));
                    assert(o_a == Some(s.let_rec_star_list@[idx].0));
                    assert(enc_e(s.let_rec_star_list@[idx].1) == (kk.2, kk.3));
                    assert(o_b == Some(s.let_rec_star_list@[idx].1));
                    assert(enc_e(s.let_rec_star_list@[idx].2) == (kk.4, kk.5));
                    assert(o_w == Some(s.let_rec_star_list@[idx].2));
                    assert(enc_k(s.let_rec_star_list@[idx].3) == (kk.6, kk.7));
                    assert(o_c == Some(s.let_rec_star_list@[idx].3));
                }
                Some(Continuation::LetRecStar(a, b, w, c))
            },
            None => vstd::pervasive::unreached(),
        }
    }
}



impl Store {
    /// An immutable view of an expression node, or `None` on a dangling
    /// pointer.
    pub fn fetch(&self, ptr: &Ptr) -> (r: Option<Expression>)
        requires
            self.wf(),
        ensures
            self@.exprs.contains_key(*ptr) ==> (match r {
                Some(ex) => fetch_agrees(self@, *ptr, ex),
                None => false,
            }),
            !self@.exprs.contains_key(*ptr) ==> r is None,
    {
        let ghost s = *self;
        if !self.has_expr(ptr) {
            return None;
        }
        match ptr.tag {
            Tag::Nil => {
                proof {
                    s.lemma_tag_agree_expr(*ptr);
                    assert(s.den_expr@[*ptr] == ExprV::Nil);
                }
                Some(Expression::Nil)
            },
            Tag::Sym => {
                let nm = str_table_resolve(&self.sym_store, ptr.raw.idx);
                proof {
                    let e = s.syms();
                    assert(e.contains((ptr.raw.idx, nm@)));
                    let j2 = choose|j2: int|
                        0 <= j2 < e.len() && #[trigger] e[j2] == (ptr.raw.idx, nm@);
                    let j = choose|j: int|
                        0 <= j < e.len() && (#[trigger] e[j]).0 == ptr.raw.idx && e[j].1
                            != nil_name();
                    if j2 < j {
                        assert(e[j2].0 < e[j].0);
                    }
                    if j < j2 {
                        assert(e[j].0 < e[j2].0);
                    }
                    assert(j2 == j);
                    assert(sym_entry_ok(e, s.nil_id, s.den_expr@, j));
                    assert(psym(ptr.raw.idx) == *ptr);
                    assert(s.den_expr@[*ptr] == ExprV::Sym(nm@));
                }
                Some(Expression::Sym(nm))
            },
            Tag::Str => {
                let nm = str_table_resolve(&self.str_store, ptr.raw.idx);
                proof {
                    let e = s.strs();
                    assert(e.contains((ptr.raw.idx, nm@)));
                    let j2 = choose|j2: int|
                        0 <= j2 < e.len() && #[trigger] e[j2] == (ptr.raw.idx, nm@);
                    let j = choose|j: int|
                        0 <= j < e.len() && (#[trigger] e[j]).0 == ptr.raw.idx;
                    if j2 < j {
                        assert(e[j2].0 < e[j].0);
                    }
                    if j < j2 {
                        assert(e[j].0 < e[j2].0);
                    }
                    assert(j2 == j);
                    assert(str_entry_ok(e, s.den_expr@, j));
                    assert(pstr(ptr.raw.idx) == *ptr);
                    assert(s.den_expr@[*ptr] == ExprV::Str(nm@));
                }
                Some(Expression::Str(nm))
            },
            Tag::Num => {
                let got = table_get(&self.num_store, ptr.raw.idx);
                proof {
                    assert(s.vex(*ptr));
                    assert(num_entry_ok(
                        table_entries(s.num_store),
                        s.num_list@,
                        s.den_expr@,
                        ptr.raw.idx as int,
                    ));
                    assert(pnum(ptr.raw.idx as int) == *ptr);
                }
                match got {
                    Some(kk) => {
                        proof {
                            assert(kk.0 == s.num_list@[ptr.raw.idx as int]);
                        }
                        Some(Expression::Num(Num::new(kk.0)))
                    },
                    None => vstd::pervasive::unreached(),
                }
            },
            Tag::Cons => {
                let got = table_get(&self.cons_store, ptr.raw.idx);
                proof {
                    assert(s.vex(*ptr));
                    assert(cons_entry_ok(
                        table_entries(s.cons_store),
                        s.cons_list@,
                        s.den_expr@,
                        ptr.raw.idx as int,
                    ));
                    assert(pcons(ptr.raw.idx as int) == *ptr);
                }
                match got {
                    Some(kk) => {
                        let o_a = Self::decode_eptr(kk.0, kk.1);
                        let o_b = Self::decode_eptr(kk.2, kk.3);
                        proof {
                            let idx = ptr.raw.idx as int;
                            assert(enc_e(s.cons_list@[idx].0) == (kk.0, kk.1));
                            assert(enc_e(s.cons_list@[idx].1) == (kk.2, kk.3));
                            assert(o_a == Some(s.cons_list@[idx].0));
                            assert(o_b == Some(s.cons_list@[idx].1));
                        }
                        match (o_a, o_b) {
                            (Some(a), Some(b)) => Some(Expression::Cons(a, b)),
                            _ => vstd::pervasive::unreached(),
                        }
                    },
                    None => vstd::pervasive::unreached(),
                }
            },
            Tag::Fun => {
                let got = table_get(&self.fun_store, ptr.raw.idx);
                proof {
                    assert(s.vex(*ptr));
                    assert(fun_entry_ok(
                        table_entries(s.fun_store),
                        s.fun_list@,
                        s.den_expr@,
                        ptr.raw.idx as int,
                    ));
                    assert(pfun(ptr.raw.idx as int) == *ptr);
                }
                match got {
                    Some(kk) => {
                        let o_a = Self::decode_eptr(kk.0, kk.1);
                        let o_b = Self::decode_eptr(kk.2, kk.3);
                        let o_c = Self::decode_eptr(kk.4, kk.5);
                        proof {
                            let idx = ptr.raw.idx as int;
                            assert(enc_e(s.fun_list@[idx].0) == (kk.0, kk.1));
                            assert(enc_e(s.fun_list@[idx].1) == (kk.2, kk.3));
                            assert(enc_e(s.fun_list@[idx].2) == (kk.4, kk.5));
                            assert(o_a == Some(s.fun_list@[idx].0));
                            assert(o_b == Some(s.fun_list@[idx].1));
                            assert(o_c == Some(s.fun_list@[idx].2));
                        }
                        match (o_a, o_b, o_c) {
                            (Some(a), Some(b), Some(c)) => Some(Expression::Fun(a, b, c)),
                            _ => vstd::pervasive::unreached(),
                        }
                    },
                    None => vstd::pervasive::unreached(),
                }
            },
            Tag::Thunk => {
                let got = table_get(&self.thunk_store, ptr.raw.idx);
                proof {
                    assert(s.vex(*ptr));
                    assert(thunk_entry_ok(
                        table_entries(s.thunk_store),
                        s.thunk_list@,
                        s.den_expr@,
                        s.den_cont@,
                        ptr.raw.idx as int,
                    ));
                    assert(pthunk(ptr.raw.idx as int) == *ptr);
                }
                match got {
                    Some(kk) => {
                        let o_a = Self::decode_eptr(kk.0, kk.1);
                        let o_c = Self::decode_kptr(kk.2, kk.3);
                        proof {
                            let idx = ptr.raw.idx as int;
                            assert(enc_e(s.thunk_list@[idx].0) == (kk.0, kk.1));
                            assert(enc_k(s.thunk_list@[idx].1) == (kk.2, kk.3));
                            assert(o_a == Some(s.thunk_list@[idx].0));
                            assert(o_c == Some(s.thunk_list@[idx].1));
                        }
                        match (o_a, o_c) {
                            (Some(a), Some(c)) => Some(Expression::Thunk(Thunk::new(a, c))),
                            _ => vstd::pervasive::unreached(),
                        }
                    },
                    None => vstd::pervasive::unreached(),
                }
            },
        }
    }

    /// The canonical outermost continuation.  The preload guarantees its
    /// slot.
    pub fn get_cont_outermost(&self) -> (r: ContPtr)
        requires
            self.wf(),
        ensures
            r.tag is Outermost,
            self@.conts.contains_key(r),
            self@.conts[r] == ContV::Outermost,
    {
        let r = ContPtr::new(ContTag::Outermost, RawPtr::new(self.outermost_id));
        proof {
            assert(self.vck(r));
            assert(r == kptr(ContTag::Outermost, self.outermost_id as int));
        }
        r
    }

    /// The canonical outermost continuation.
    pub fn intern_cont_outermost(&self) -> (r: ContPtr)
        requires
            self.wf(),
        ensures
            r.tag is Outermost,
            self@.conts.contains_key(r),
            self@.conts[r] == ContV::Outermost,
    {
        self.get_cont_outermost()
    }

    /// The canonical error continuation.
    pub fn get_cont_error(&self) -> (r: ContPtr)
        requires
            self.wf(),
        ensures
            r.tag is Error,
            self@.conts.contains_key(r),
            self@.conts[r] == ContV::Error,
    {
        let r = ContPtr::new(ContTag::Error, RawPtr::new(self.error_id));
        proof {
            assert(self.vck(r));
            assert(r == kptr(ContTag::Error, self.error_id as int));
        }
        r
    }

    /// The canonical error continuation.
    pub fn intern_cont_error(&self) -> (r: ContPtr)
        requires
            self.wf(),
        ensures
            r.tag is Error,
            self@.conts.contains_key(r),
            self@.conts[r] == ContV::Error,
    {
        self.get_cont_error()
    }

    /// The canonical terminal continuation.
    pub fn get_cont_terminal(&self) -> (r: ContPtr)
        requires
            self.wf(),
        ensures
            r.tag is Terminal,
            self@.conts.contains_key(r),
            self@.conts[r] == ContV::Terminal,
    {
        let r = ContPtr::new(ContTag::Terminal, RawPtr::new(self.terminal_id));
        proof {
            assert(self.vck(r));
            assert(r == kptr(ContTag::Terminal, self.terminal_id as int));
        }
        r
    }

    /// The canonical terminal continuation.
    pub fn intern_cont_terminal(&self) -> (r: ContPtr)
        requires
            self.wf(),
        ensures
            r.tag is Terminal,
            self@.conts.contains_key(r),
            self@.conts[r] == ContV::Terminal,
    {
        self.get_cont_terminal()
    }

    /// The canonical dummy continuation.
    pub fn get_cont_dummy(&self) -> (r: ContPtr)
        requires
            self.wf(),
        ensures
            r.tag is Dummy,
            self@.conts.contains_key(r),
            self@.conts[r] == ContV::Dummy,
    {
        let r = ContPtr::new(ContTag::Dummy, RawPtr::new(self.dummy_id));
        proof {
            assert(self.vck(r));
            assert(r == kptr(ContTag::Dummy, self.dummy_id as int));
        }
        r
    }

    /// The canonical dummy continuation.
    pub fn intern_cont_dummy(&self) -> (r: ContPtr)
        requires
            self.wf(),
        ensures
            r.tag is Dummy,
            self@.conts.contains_key(r),
            self@.conts[r] == ContV::Dummy,
    {
        self.get_cont_dummy()
    }
}


impl Store {
    fn copy_usizes(v: &Vec<usize>) -> (r: Vec<usize>)
        ensures
            r@ == v@,
    {
        let mut r: Vec<usize> = Vec::new();
        let n = v.len();
        let mut i: usize = 0;
        while i < n
            invariant
                n == v@.len(),
                i <= n,
                r@ == v@.take(i as int),
            decreases n - i,
        {
            r.push(v[i]);
            proof {
                assert(r@ =~= v@.take(i + 1));
            }
            i += 1;
        }
        proof {
            assert(v@.take(n as int) =~= v@);
        }
        r
    }

    /// Hashes every live slot `0..n` of one expression tag.
    fn hydrate_expr_range(&mut self, tag: Tag, n: usize)
        requires
            old(self).wf(),
        ensures
            final(self).wf(),
            same_skeleton(old(self)@, final(self)@),
            hash_grows(old(self)@, final(self)@),
            forall|i: usize|
                i < n && #[trigger] old(self)@.exprs.contains_key(
                    (Ptr { tag, raw: RawPtr { idx: i } }),
                ) ==> final(self)@.scalar_exprs.contains_key(
                    expr_scalar(old(self)@.exprs[(Ptr { tag, raw: RawPtr { idx: i } })]),
                ) && digest_preimage_cached(
                    final(self)@,
                    old(self)@.exprs[(Ptr { tag, raw: RawPtr { idx: i } })],
                ),
    {
        let ghost s0 = *self;
        let mut i: usize = 0;
        while i < n
            invariant
                self.wf(),
                i <= n,
                same_skeleton(s0@, self@),
                hash_grows(s0@, self@),
                forall|j: usize|
                    j < i && #[trigger] s0@.exprs.contains_key(
                        (Ptr { tag, raw: RawPtr { idx: j } }),
                    ) ==> self@.scalar_exprs.contains_key(
                        expr_scalar(s0@.exprs[(Ptr { tag, raw: RawPtr { idx: j } })]),
                    ) && digest_preimage_cached(
                        self@,
                        s0@.exprs[(Ptr { tag, raw: RawPtr { idx: j } })],
                    ),
            decreases n - i,
        {
            let p = Ptr::new(tag, RawPtr::new(i));
            let _ = self.hash_expr(&p);
            i += 1;
        }
    }

    /// Hashes every listed interner id under one expression tag.
    fn hydrate_expr_ids(&mut self, tag: Tag, ids: &Vec<usize>)
        requires
            old(self).wf(),
        ensures
            final(self).wf(),
            same_skeleton(old(self)@, final(self)@),
            hash_grows(old(self)@, final(self)@),
            forall|j: int|
                0 <= j < ids@.len() && #[trigger] old(self)@.exprs.contains_key(
                    (Ptr { tag, raw: RawPtr { idx: ids@[j] } }),
                ) ==> final(self)@.scalar_exprs.contains_key(
                    expr_scalar(old(self)@.exprs[(Ptr { tag, raw: RawPtr { idx: ids@[j] } })]),
                ) && digest_preimage_cached(
                    final(self)@,
                    old(self)@.exprs[(Ptr { tag, raw: RawPtr { idx: ids@[j] } })],
                ),
    {
        let ghost s0 = *self;
        let n = ids.len();
        let mut i: usize = 0;
        while i < n
            invariant
                self.wf(),
                i <= n,
                n == ids@.len(),
                same_skeleton(s0@, self@),
                hash_grows(s0@, self@),
                forall|j: int|
                    0 <= j < i && #[trigger] s0@.exprs.contains_key(
                        (Ptr { tag, raw: RawPtr { idx: ids@[j] } }),
                    ) ==> self@.scalar_exprs.contains_key(
                        expr_scalar(s0@.exprs[(Ptr { tag, raw: RawPtr { idx: ids@[j] } })]),
                    ) && digest_preimage_cached(
                        self@,
                        s0@.exprs[(Ptr { tag, raw: RawPtr { idx: ids@[j] } })],
                    ),
            decreases n - i,
        {
            let p = Ptr::new(tag, RawPtr::new(ids[i]));
            let _ = self.hash_expr(&p);
            i += 1;
        }
    }

    /// Hashes every live slot `0..n` of one continuation tag.
    fn hydrate_cont_range(&mut self, tag: ContTag, n: usize)
        requires
            old(self).wf(),
        ensures
            final(self).wf(),
            same_skeleton(old(self)@, final(self)@),
            hash_grows(old(self)@, final(self)@),
            forall|i: usize|
                i < n && #[trigger] old(self)@.conts.contains_key(
                    (ContPtr { tag, raw: RawPtr { idx: i } }),
                ) ==> final(self)@.scalar_conts.contains_key(
                    cont_scalar(old(self)@.conts[(ContPtr { tag, raw: RawPtr { idx: i } })]),
                ) && final(self)@.cache8.contains_key(
                    cont_preimage(old(self)@.conts[(ContPtr { tag, raw: RawPtr { idx: i } })]),
                ),
    {
        let ghost s0 = *self;
        let mut i: usize = 0;
        while i < n
            invariant
                self.wf(),
                i <= n,
                same_skeleton(s0@, self@),
                hash_grows(s0@, self@),
                forall|j: usize|
                    j < i && #[trigger] s0@.conts.contains_key(
                        (ContPtr { tag, raw: RawPtr { idx: j } }),
                    ) ==> self@.scalar_conts.contains_key(
                        cont_scalar(s0@.conts[(ContPtr { tag, raw: RawPtr { idx: j } })]),
                    ) && self@.cache8.contains_key(
                        cont_preimage(s0@.conts[(ContPtr { tag, raw: RawPtr { idx: j } })]),
                    ),
            decreases n - i,
        {
            let p = ContPtr::new(tag, RawPtr::new(i));
            let _ = self.hash_cont(&p);
            i += 1;
        }
    }

    /// Hashes every expression in the store.
    #[verifier::rlimit(100)]
    #[verifier::spinoff_prover]
    fn hydrate_exprs(&mut self)
        requires
            old(self).wf(),
        ensures
            final(self).wf(),
            same_skeleton(old(self)@, final(self)@),
            hash_grows(old(self)@, final(self)@),
            forall|p: Ptr| #[trigger]
                old(self)@.exprs.contains_key(p)
                    ==> final(self)@.scalar_exprs.contains_key(expr_scalar(old(self)@.exprs[p])),
            forall|p: Ptr| #[trigger]
                old(self)@.exprs.contains_key(p) ==> digest_preimage_cached(
                    final(self)@,
                    old(self)@.exprs[p],
                ),
    {
        let ghost s0 = *self;
        let n_cons = table_len(&self.cons_store);
        let n_num = table_len(&self.num_store);
        let n_fun = table_len(&self.fun_store);
        let n_thunk = table_len(&self.thunk_store);
        let sym_ids = Self::copy_usizes(&self.sym_ids);
        let str_ids = Self::copy_usizes(&self.str_ids);
        let nilp = self.get_nil();
        let _ = self.hash_expr(&nilp);
        let ghost m1 = *self;
        self.hydrate_expr_ids(Tag::Sym, &sym_ids);
        let ghost m2 = *self;
        self.hydrate_expr_ids(Tag::Str, &str_ids);
        let ghost m3 = *self;
        self.hydrate_expr_range(Tag::Cons, n_cons);
        let ghost m4 = *self;
        self.hydrate_expr_range(Tag::Num, n_num);
        let ghost m5 = *self;
        self.hydrate_expr_range(Tag::Fun, n_fun);
        let ghost m6 = *self;
        self.hydrate_expr_range(Tag::Thunk, n_thunk);
        proof {
            assert(map_extends(m6@.scalar_exprs, self@.scalar_exprs));
            assert(map_extends(m5@.scalar_exprs, self@.scalar_exprs));
            assert(map_extends(m4@.scalar_exprs, self@.scalar_exprs));
            assert(map_extends(m3@.scalar_exprs, self@.scalar_exprs));
            assert(map_extends(m2@.scalar_exprs, self@.scalar_exprs));
            assert(map_extends(m1@.scalar_exprs, self@.scalar_exprs));
            assert(map_extends(m6@.cache4, self@.cache4));
            assert(map_extends(m5@.cache4, self@.cache4));
            assert(map_extends(m4@.cache4, self@.cache4));
            assert(map_extends(m3@.cache4, self@.cache4));
            assert(map_extends(m2@.cache4, self@.cache4));
            assert(map_extends(m1@.cache4, self@.cache4));
            assert(map_extends(m6@.cache6, self@.cache6));
            assert(map_extends(m5@.cache6, self@.cache6));
            assert(map_extends(m4@.cache6, self@.cache6));
            assert(map_extends(m3@.cache6, self@.cache6));
            assert(map_extends(m2@.cache6, self@.cache6));
            assert(map_extends(m1@.cache6, self@.cache6));
            assert forall|p: Ptr| s0@.exprs.contains_key(p) implies
                self@.scalar_exprs.contains_key(expr_scalar(s0@.exprs[p]))
                && digest_preimage_cached(self@, s0@.exprs[p]) by {
                assert(s0.vex(p));
                match p.tag {
                    Tag::Nil => {
                        assert(p == pnil(s0.nil_id));
                        assert(s0@.exprs[p] == ExprV::Nil);
                        assert(m1@.scalar_exprs.contains_key(expr_scalar(s0@.exprs[p])));
                        assert(digest_preimage_cached(m1@, s0@.exprs[p]));
                        lemma_preimage_cached_mono(m1@, self@, s0@.exprs[p]);
                    },
                    Tag::Sym => {
                        let e = s0.syms();
                        let j = choose|j: int|
                            0 <= j < e.len() && (#[trigger] e[j]).0 == p.raw.idx && e[j].1
                                != nil_name();
                        assert(s0.sym_ids@[j] == p.raw.idx);
                        assert(sym_ids@[j] == p.raw.idx);
                        assert(p == (Ptr { tag: Tag::Sym, raw: RawPtr { idx: sym_ids@[j] } }));
                        assert(m1@.exprs.contains_key(p));
                        assert(m2@.scalar_exprs.contains_key(expr_scalar(m1@.exprs[p])));
                        assert(digest_preimage_cached(m2@, m1@.exprs[p]));
                        lemma_preimage_cached_mono(m2@, self@, s0@.exprs[p]);
                    },
                    Tag::Str => {
                        let e = s0.strs();
                        let j = choose|j: int|
                            0 <= j < e.len() && (#[trigger] e[j]).0 == p.raw.idx;
                        assert(s0.str_ids@[j] == p.raw.idx);
                        assert(str_ids@[j] == p.raw.idx);
                        assert(p == (Ptr { tag: Tag::Str, raw: RawPtr { idx: str_ids@[j] } }));
                        assert(m2@.exprs.contains_key(p));
                        assert(m3@.scalar_exprs.contains_key(expr_scalar(m2@.exprs[p])));
                        assert(digest_preimage_cached(m3@, m2@.exprs[p]));
                        lemma_preimage_cached_mono(m3@, self@, s0@.exprs[p]);
                    },
                    Tag::Cons => {
                        assert(p.raw.idx < n_cons);
                        assert(p == (Ptr { tag: Tag::Cons, raw: RawPtr { idx: p.raw.idx } }));
                        assert(m3@.exprs.contains_key(p));
                        assert(m4@.scalar_exprs.contains_key(expr_scalar(m3@.exprs[p])));
                        assert(digest_preimage_cached(m4@, m3@.exprs[p]));
                        lemma_preimage_cached_mono(m4@, self@, s0@.exprs[p]);
                    },
                    Tag::Num => {
                        assert(p.raw.idx < n_num);
                        assert(p == (Ptr { tag: Tag::Num, raw: RawPtr { idx: p.raw.idx } }));
                        assert(m4@.exprs.contains_key(p));
                        assert(m5@.scalar_exprs.contains_key(expr_scalar(m4@.exprs[p])));
                        assert(digest_preimage_cached(m5@, m4@.exprs[p]));
                        lemma_preimage_cached_mono(m5@, self@, s0@.exprs[p]);
                    },
                    Tag::Fun => {
                        assert(p.raw.idx < n_fun);
                        assert(p == (Ptr { tag: Tag::Fun, raw: RawPtr { idx: p.raw.idx } }));
                        assert(m5@.exprs.contains_key(p));
                        assert(m6@.scalar_exprs.contains_key(expr_scalar(m5@.exprs[p])));
                        assert(digest_preimage_cached(m6@, m5@.exprs[p]));
                        lemma_preimage_cached_mono(m6@, self@, s0@.exprs[p]);
                    },
                    Tag::Thunk => {
                        assert(p.raw.idx < n_thunk);
                        assert(p == (Ptr { tag: Tag::Thunk, raw: RawPtr { idx: p.raw.idx } }));
                        assert(m6@.exprs.contains_key(p));
                        assert(self@.scalar_exprs.contains_key(expr_scalar(m6@.exprs[p])));
                        assert(digest_preimage_cached(self@, m6@.exprs[p]));
                    },
                }
            }
        }
    }

    /// Hashes every continuation in the store.
    #[verifier::rlimit(100)]
    #[verifier::spinoff_prover]
    fn hydrate_conts(&mut self)
        requires
            old(self).wf(),
        ensures
            final(self).wf(),
            same_skeleton(old(self)@, final(self)@),
            hash_grows(old(self)@, final(self)@),
            forall|k: ContPtr| #[trigger]
                old(self)@.conts.contains_key(k)
                    ==> final(self)@.scalar_conts.contains_key(cont_scalar(old(self)@.conts[k])),
            forall|k: ContPtr| #[trigger]
                old(self)@.conts.contains_key(k) ==> final(self)@.cache8.contains_key(
                    cont_preimage(old(self)@.conts[k]),
                ),
    {
        let ghost s0 = *self;
        let n_simple = table_len(&self.simple_store);
        let n_call = table_len(&self.call_store);
        let n_call2 = table_len(&self.call2_store);
        let n_tail = table_len(&self.tail_store);
        let n_lookup = table_len(&self.lookup_store);
        let n_unop = table_len(&self.unop_store);
        let n_binop = table_len(&self.binop_store);
        let n_binop2 = table_len(&self.binop2_store);
        let n_relop = table_len(&self.relop_store);
        let n_relop2 = table_len(&self.relop2_store);
        let n_if = table_len(&self.if_store);
        let n_ls = table_len(&self.let_star_store);
        let n_lrs = table_len(&self.let_rec_star_store);
        let ko = self.get_cont_outermost();
        let _ = self.hash_cont(&ko);
        let ke = self.get_cont_error();
        let _ = self.hash_cont(&ke);
        let kd = self.get_cont_dummy();
        let _ = self.hash_cont(&kd);
        let kt = self.get_cont_terminal();
        let _ = self.hash_cont(&kt);
        let ghost m0 = *self;
        self.hydrate_cont_range(ContTag::Simple, n_simple);
        let ghost m1 = *self;
        self.hydrate_cont_range(ContTag::Call, n_call);
        let ghost m2 = *self;
        self.hydrate_cont_range(ContTag::Call2, n_call2);
        let ghost m3 = *self;
        self.hydrate_cont_range(ContTag::Tail, n_tail);
        let ghost m4 = *self;
        self.hydrate_cont_range(ContTag::Lookup, n_lookup);
        let ghost m5 = *self;
        self.hydrate_cont_range(ContTag::Unop, n_unop);
        let ghost m6 = *self;
        self.hydrate_cont_range(ContTag::Binop, n_binop);
        let ghost m7 = *self;
        self.hydrate_cont_range(ContTag::Binop2, n_binop2);
        let ghost m8 = *self;
        self.hydrate_cont_range(ContTag::Relop, n_relop);
        let ghost m9 = *self;
        self.hydrate_cont_range(ContTag::Relop2, n_relop2);
        let ghost m10 = *self;
        self.hydrate_cont_range(ContTag::If, n_if);
        let ghost m11 = *self;
        self.hydrate_cont_range(ContTag::LetStar, n_ls);
        let ghost m12 = *self;
        self.hydrate_cont_range(ContTag::LetRecStar, n_lrs);
        proof {
            assert(map_extends(m12@.scalar_conts, self@.scalar_conts));
            assert(map_extends(m11@.scalar_conts, self@.scalar_conts));
            assert(map_extends(m10@.scalar_conts, self@.scalar_conts));
            assert(map_extends(m9@.scalar_conts, self@.scalar_conts));
            assert(map_extends(m8@.scalar_conts, self@.scalar_conts));
            assert(map_extends(m7@.scalar_conts, self@.scalar_conts));
            assert(map_extends(m6@.scalar_conts, self@.scalar_conts));
            assert(map_extends(m5@.scalar_conts, self@.scalar_conts));
            assert(map_extends(m4@.scalar_conts, self@.scalar_conts));
            assert(map_extends(m3@.scalar_conts, self@.scalar_conts));
            assert(map_extends(m2@.scalar_conts, self@.scalar_conts));
            assert(map_extends(m1@.scalar_conts, self@.scalar_conts));
            assert(map_extends(m0@.scalar_conts, self@.scalar_conts));
            assert(map_extends(m12@.cache8, self@.cache8));
            assert(map_extends(m11@.cache8, self@.cache8));
            assert(map_extends(m10@.cache8, self@.cache8));
            assert(map_extends(m9@.cache8, self@.cache8));
            assert(map_extends(m8@.cache8, self@.cache8));
            assert(map_extends(m7@.cache8, self@.cache8));
            assert(map_extends(m6@.cache8, self@.cache8));
            assert(map_extends(m5@.cache8, self@.cache8));
            assert(map_extends(m4@.cache8, self@.cache8));
            assert(map_extends(m3@.cache8, self@.cache8));
            assert(map_extends(m2@.cache8, self@.cache8));
            assert(map_extends(m1@.cache8, self@.cache8));
            assert(map_extends(m0@.cache8, self@.cache8));
            assert forall|k: ContPtr| s0@.conts.contains_key(k) implies
                self@.scalar_conts.contains_key(cont_scalar(s0@.conts[k]))
                && self@.cache8.contains_key(cont_preimage(s0@.conts[k])) by {
                assert(s0.vck(k));
                match k.tag {
                    ContTag::Outermost => {
                        assert(k == kptr(ContTag::Outermost, s0.outermost_id as int));
                        assert(m0@.scalar_conts.contains_key(cont_scalar(s0@.conts[k])));
                        assert(m0@.cache8.contains_key(cont_preimage(s0@.conts[k])));
                    },
                    ContTag::Error => {
                        assert(k == kptr(ContTag::Error, s0.error_id as int));
                        assert(m0@.scalar_conts.contains_key(cont_scalar(s0@.conts[k])));
                        assert(m0@.cache8.contains_key(cont_preimage(s0@.conts[k])));
                    },
                    ContTag::Dummy => {
                        assert(k == kptr(ContTag::Dummy, s0.dummy_id as int));
                        assert(m0@.scalar_conts.contains_key(cont_scalar(s0@.conts[k])));
                        assert(m0@.cache8.contains_key(cont_preimage(s0@.conts[k])));
                    },
                    ContTag::Terminal => {
                        assert(k == kptr(ContTag::Terminal, s0.terminal_id as int));
                        assert(m0@.scalar_conts.contains_key(cont_scalar(s0@.conts[k])));
                        assert(m0@.cache8.contains_key(cont_preimage(s0@.conts[k])));
                    },
                    ContTag::Simple => {
                        assert(k.raw.idx < n_simple);
                        assert(k == (ContPtr { tag: k.tag, raw: RawPtr { idx: k.raw.idx } }));
                        assert(m0@.conts.contains_key(k));
                        assert(m1@.scalar_conts.contains_key(cont_scalar(m0@.conts[k])));
                        assert(m1@.cache8.contains_key(cont_preimage(m0@.conts[k])));
                    },
                    ContTag::Call => {
                        assert(k.raw.idx < n_call);
                        assert(k == (ContPtr { tag: k.tag, raw: RawPtr { idx: k.raw.idx } }));
                        assert(m1@.conts.contains_key(k));
                        assert(m2@.scalar_conts.contains_key(cont_scalar(m1@.conts[k])));
                        assert(m2@.cache8.contains_key(cont_preimage(m1@.conts[k])));
                    },
                    ContTag::Call2 => {
                        assert(k.raw.idx < n_call2);
                        assert(k == (ContPtr { tag: k.tag, raw: RawPtr { idx: k.raw.idx } }));
                        assert(m2@.conts.contains_key(k));
                        assert(m3@.scalar_conts.contains_key(cont_scalar(m2@.conts[k])));
                        assert(m3@.cache8.contains_key(cont_preimage(m2@.conts[k])));
                    },
                    ContTag::Tail => {
                        assert(k.raw.idx < n_tail);
                        assert(k == (ContPtr { tag: k.tag, raw: RawPtr { idx: k.raw.idx } }));
                        assert(m3@.conts.contains_key(k));
                        assert(m4@.scalar_conts.contains_key(cont_scalar(m3@.conts[k])));
                        assert(m4@.cache8.contains_key(cont_preimage(m3@.conts[k])));
                    },
                    ContTag::Lookup => {
                        assert(k.raw.idx < n_lookup);
                        assert(k == (ContPtr { tag: k.tag, raw: RawPtr { idx: k.raw.idx } }));
                        assert(m4@.conts.contains_key(k));
                        assert(m5@.scalar_conts.contains_key(cont_scalar(m4@.conts[k])));
                        assert(m5@.cache8.contains_key(cont_preimage(m4@.conts[k])));
                    },
                    ContTag::Unop => {
                        assert(k.raw.idx < n_unop);
                        assert(k == (ContPtr { tag: k.tag, raw: RawPtr { idx: k.raw.idx } }));
                        assert(m5@.conts.contains_key(k));
                        assert(m6@.scalar_conts.contains_key(cont_scalar(m5@.conts[k])));
                        assert(m6@.cache8.contains_key(cont_preimage(m5@.conts[k])));
                    },
                    ContTag::Binop => {
                        assert(k.raw.idx < n_binop);
                        assert(k == (ContPtr { tag: k.tag, raw: RawPtr { idx: k.raw.idx } }));
                        assert(m6@.conts.contains_key(k));
                        assert(m7@.scalar_conts.contains_key(cont_scalar(m6@.conts[k])));
                        assert(m7@.cache8.contains_key(cont_preimage(m6@.conts[k])));
                    },
                    ContTag::Binop2 => {
                        assert(k.raw.idx < n_binop2);
                        assert(k == (ContPtr { tag: k.tag, raw: RawPtr { idx: k.raw.idx } }));
                        assert(m7@.conts.contains_key(k));
                        assert(m8@.scalar_conts.contains_key(cont_scalar(m7@.conts[k])));
                        assert(m8@.cache8.contains_key(cont_preimage(m7@.conts[k])));
                    },
                    ContTag::Relop => {
                        assert(k.raw.idx < n_relop);
                        assert(k == (ContPtr { tag: k.tag, raw: RawPtr { idx: k.raw.idx } }));
                        assert(m8@.conts.contains_key(k));
                        assert(m9@.scalar_conts.contains_key(cont_scalar(m8@.conts[k])));
                        assert(m9@.cache8.contains_key(cont_preimage(m8@.conts[k])));
                    },
                    ContTag::Relop2 => {
                        assert(k.raw.idx < n_relop2);
                        assert(k == (ContPtr { tag: k.tag, raw: RawPtr { idx: k.raw.idx } }));
                        assert(m9@.conts.contains_key(k));
                        assert(m10@.scalar_conts.contains_key(cont_scalar(m9@.conts[k])));
                        assert(m10@.cache8.contains_key(cont_preimage(m9@.conts[k])));
                    },
                    ContTag::If => {
                        assert(k.raw.idx < n_if);
                        assert(k == (ContPtr { tag: k.tag, raw: RawPtr { idx: k.raw.idx } }));
                        assert(m10@.conts.contains_key(k));
                        assert(m11@.scalar_conts.contains_key(cont_scalar(m10@.conts[k])));
                        assert(m11@.cache8.contains_key(cont_preimage(m10@.conts[k])));
                    },
                    ContTag::LetStar => {
                        assert(k.raw.idx < n_ls);
                        assert(k == (ContPtr { tag: k.tag, raw: RawPtr { idx: k.raw.idx } }));
                        assert(m11@.conts.contains_key(k));
                        assert(m12@.scalar_conts.contains_key(cont_scalar(m11@.conts[k])));
                        assert(m12@.cache8.contains_key(cont_preimage(m11@.conts[k])));
                    },
                    ContTag::LetRecStar => {
                        assert(k.raw.idx < n_lrs);
                        assert(k == (ContPtr { tag: k.tag, raw: RawPtr { idx: k.raw.idx } }));
                        assert(m12@.conts.contains_key(k));
                        assert(self@.scalar_conts.contains_key(cont_scalar(m12@.conts[k])));
                        assert(self@.cache8.contains_key(cont_preimage(m12@.conts[k])));
                    },
                }
            }
        }
    }

    /// Forces the complete scalar representation of the store: every
    /// expression and continuation is hashed, warming the Poseidon caches
    /// and the reverse maps.  Idempotent.
    pub fn hydrate_scalar_cache(&mut self)
        requires
            old(self).wf(),
        ensures
            final(self).wf(),
            same_skeleton(old(self)@, final(self)@),
            hash_grows(old(self)@, final(self)@),
            forall|p: Ptr| #[trigger]
                old(self)@.exprs.contains_key(p)
                    ==> final(self)@.scalar_exprs.contains_key(expr_scalar(old(self)@.exprs[p])),
            forall|k: ContPtr| #[trigger]
                old(self)@.conts.contains_key(k)
                    ==> final(self)@.scalar_conts.contains_key(cont_scalar(old(self)@.conts[k])),
            forall|p: Ptr| #[trigger]
                old(self)@.exprs.contains_key(p) ==> digest_preimage_cached(
                    final(self)@,
                    old(self)@.exprs[p],
                ),
            forall|k: ContPtr| #[trigger]
                old(self)@.conts.contains_key(k) ==> final(self)@.cache8.contains_key(
                    cont_preimage(old(self)@.conts[k]),
                ),
    {
        let ghost s0 = *self;
        self.hydrate_exprs();
        let ghost mid = *self;
        self.hydrate_conts();
        proof {
            assert forall|p: Ptr| s0@.exprs.contains_key(p) implies digest_preimage_cached(
                self@,
                s0@.exprs[p],
            ) by {
                assert(digest_preimage_cached(mid@, s0@.exprs[p]));
                lemma_preimage_cached_mono(mid@, self@, s0@.exprs[p]);
            }
        }
    }
}


impl Default for Store {
    /// A new store with the well-known symbols preloaded, in their
    /// canonical order, and everything else empty.
    fn default() -> (r: Store)
        ensures
            r.wf(),
            sym_names(r@.syms) == preload_names(),
            r@.strs == str_entries_empty(),
            r@.scalar_exprs == rev_empty(),
            r@.scalar_conts == rev_empty(),
            r@.cache4 == cache_empty(),
            r@.cache6 == cache_empty(),
            r@.cache8 == cache_empty(),
            forall|p: Ptr| #[trigger]
                r@.exprs.contains_key(p) ==> ((p.tag is Nil) || (p.tag is Sym)),
            forall|k: ContPtr| #[trigger]
                r@.conts.contains_key(k) ==> ((k.tag is Outermost) || (k.tag is Error) || (
                k.tag is Dummy) || (k.tag is Terminal)),
    {
        Store::new()
    }
}

/// Interning is canonical: two valid expression pointers with identical
/// transitive content are the same pointer.
pub proof fn lemma_interning_canonical(s: Store, p: Ptr, q: Ptr)
    requires
        s.wf(),
        s@.exprs.contains_key(p),
        s@.exprs.contains_key(q),
        s@.exprs[p] == s@.exprs[q],
    ensures
        p == q,
{
    assert(s.den_expr@[p] == s.den_expr@[q]);
}

/// Interning is canonical for continuations as well.
pub proof fn lemma_interning_canonical_cont(s: Store, p: ContPtr, q: ContPtr)
    requires
        s.wf(),
        s@.conts.contains_key(p),
        s@.conts.contains_key(q),
        s@.conts[p] == s@.conts[q],
    ensures
        p == q,
{
    assert(s.den_cont@[p] == s.den_cont@[q]);
}

/// Hashing is deterministic: the scalar pointer is a pure function of the
/// denoted tree, so repeated calls, and stores with equal content, agree.
/// `hash_expr` promises its result equals `expr_scalar` of the tree.
pub proof fn lemma_hashing_deterministic(s1: Store, s2: Store, p1: Ptr, p2: Ptr)
    requires
        s1.wf(),
        s2.wf(),
        s1@.exprs.contains_key(p1),
        s2@.exprs.contains_key(p2),
        s1@.exprs[p1] == s2@.exprs[p2],
    ensures
        expr_scalar(s1@.exprs[p1]) == expr_scalar(s2@.exprs[p2]),
{
}

/// Pointer words decode uniquely: the reverse maps pin typed pointers.
pub proof fn lemma_enc_injective(p: Ptr, q: Ptr)
    requires
        enc_e(p) == enc_e(q),
    ensures
        p == q,
{
    lemma_enc_e_inj(p, q);
}

/// The continuation analogue of `lemma_enc_injective`.
pub proof fn lemma_enc_injective_cont(p: ContPtr, q: ContPtr)
    requires
        enc_k(p) == enc_k(q),
    ensures
        p == q,
{
    lemma_enc_k_inj(p, q);
}

/// Reverse-map round trip: once `hash_expr(p)` has recorded `p`'s scalar
/// and no other live pointer shares that scalar, `fetch_scalar` returns
/// exactly `p`.  (The hypothesis excludes a Poseidon collision between two
/// distinct stored trees, which no implementation could rule out.)
pub proof fn lemma_reverse_map_round_trip(s: Store, p: Ptr, q: Ptr)
    requires
        s.wf(),
        s@.exprs.contains_key(p),
        s@.scalar_exprs.contains_key(expr_scalar(s@.exprs[p])),
        s@.scalar_exprs[expr_scalar(s@.exprs[p])] == enc_e(p),
        enc_e(q) == s@.scalar_exprs[expr_scalar(s@.exprs[p])],
    ensures
        q == p,
{
    lemma_enc_e_inj(q, p);
}

/// Tag-field agreement: a valid pointer's denotation carries the pointer's
/// own tag, so the scalar pointer's tag field is the typed pointer's tag
/// as a field element.
pub proof fn lemma_tag_field_agreement(s: Store, p: Ptr)
    requires
        s.wf(),
        s@.exprs.contains_key(p),
    ensures
        crate::model::exprv_tag(s@.exprs[p]) == p.tag,
        expr_scalar(s@.exprs[p]).0 == crate::field::fe(tag_u64(p.tag)),
{
    s.lemma_tag_agree_expr(p);
}

/// Tag-field agreement for continuations.
pub proof fn lemma_tag_field_agreement_cont(s: Store, k: ContPtr)
    requires
        s.wf(),
        s@.conts.contains_key(k),
    ensures
        crate::model::contv_tag(s@.conts[k]) == k.tag,
        cont_scalar(s@.conts[k]).0 == crate::field::fe(cont_tag_u64(k.tag)),
{
    s.lemma_tag_agree_cont(k);
}

/// Nil hashes as the symbol `NIL`: its digest is the string digest of the
/// canonical name, under the nil expression tag, whose field value is zero.
pub proof fn lemma_nil_hashes_as_symbol()
    ensures
        expr_digest(ExprV::Nil) == crate::model::str_digest(nil_name()),
        expr_digest(ExprV::Nil) == expr_digest(ExprV::Sym(nil_name())),
        expr_scalar(ExprV::Nil).0 == crate::field::fe(0),
{
}

/// Num is identity: a number's digest is the number itself injected into
/// the field.
pub proof fn lemma_num_identity(n: u64)
    ensures
        expr_digest(ExprV::Num(n)) == crate::field::fe(n),
        expr_scalar(ExprV::Num(n)).1 == crate::field::fe(n),
{
}

/// The list fold law: a list denotes the n-fold right cons ending in nil.
pub proof fn lemma_list_fold(ts: Seq<ExprV>)
    ensures
        ts.len() == 0 ==> list_den(ts) == ExprV::Nil,
        ts.len() > 0 ==> list_den(ts) == ExprV::Cons(
            Box::new(ts[0]),
            Box::new(list_den(ts.drop_first())),
        ),
{
}

/// The call continuation's preimage layout: saved env before unevaluated
/// argument, then the next frame, then a zero slot.
pub proof fn lemma_call_preimage(arg: ExprV, env: ExprV, k: ContV)
    ensures
        cont_preimage(ContV::Call(Box::new(arg), Box::new(env), Box::new(k))) =~= seq![
            crate::field::fe(tag_u64(crate::model::exprv_tag(env))),
            expr_digest(env),
            crate::field::fe(tag_u64(crate::model::exprv_tag(arg))),
            expr_digest(arg),
            crate::field::fe(cont_tag_u64(crate::model::contv_tag(k))),
            cont_digest(k),
            crate::field::fe(0),
            crate::field::fe(0),
        ],
{
}

/// The binop continuation's preimage layout: the operator with a zero,
/// the saved env, the unevaluated arguments, and the next frame.
pub proof fn lemma_binop_preimage(op: Op2, env: ExprV, args: ExprV, k: ContV)
    ensures
        cont_preimage(ContV::Binop(op, Box::new(env), Box::new(args), Box::new(k))) =~= seq![
            crate::field::fe(op2_u64(op)),
            crate::field::fe(0),
            crate::field::fe(tag_u64(crate::model::exprv_tag(env))),
            expr_digest(env),
            crate::field::fe(tag_u64(crate::model::exprv_tag(args))),
            expr_digest(args),
            crate::field::fe(cont_tag_u64(crate::model::contv_tag(k))),
            cont_digest(k),
        ],
{
}


/// No cons cell can contain itself: denotations are finite trees, so a
/// self-referential pair is not constructible through the interning API.
pub proof fn lemma_no_self_referential_cons(t: ExprV, b: Box<ExprV>)
    ensures
        t != ExprV::Cons(Box::new(t), b),
        t != ExprV::Cons(b, Box::new(t)),
{
    let c1 = ExprV::Cons(Box::new(t), b);
    if t == c1 {
        assert(*c1->Cons_0 == t);
        assert(decreases_to!(c1 => *c1->Cons_0));
        assert(false);
    }
    let c2 = ExprV::Cons(b, Box::new(t));
    if t == c2 {
        assert(*c2->Cons_1 == t);
        assert(decreases_to!(c2 => *c2->Cons_1));
        assert(false);
    }
}


/// The well-known symbol names, upper-cased, in their canonical insertion
/// order.
pub open spec fn preload_names() -> Seq<Seq<char>> {
    seq![
        "NIL"@,
        "T"@,
        "QUOTE"@,
        "LAMBDA"@,
        "_"@,
        "LET*"@,
        "LETREC*"@,
        "CAR"@,
        "CDR"@,
        "ATOM"@,
        "+"@,
        "-"@,
        "*"@,
        "/"@,
        "="@,
        "EQ"@,
        "CURRENT-ENV"@,
        "IF"@,
        "TERMINAL"@,
        "DUMMY"@,
        "OUTERMOST"@,
        "ERROR"@,
    ]
}

/// The names of an interner's entries, in insertion order.
pub open spec fn sym_names(e: Seq<(usize, Seq<char>)>) -> Seq<Seq<char>> {
    e.map_values(|x: (usize, Seq<char>)| x.1)
}

proof fn lemma_preload_fresh_1()
    ensures
        forall|j: int| 0 <= j < 1 ==> #[trigger] preload_names()[j] != preload_names()[1],
{
    reveal_strlit("NIL");
    reveal_strlit("T");
    reveal_strlit("QUOTE");
    reveal_strlit("LAMBDA");
    reveal_strlit("_");
    reveal_strlit("LET*");
    reveal_strlit("LETREC*");
    reveal_strlit("CAR");
    reveal_strlit("CDR");
    reveal_strlit("ATOM");
    reveal_strlit("+");
    reveal_strlit("-");
    reveal_strlit("*");
    reveal_strlit("/");
    reveal_strlit("=");
    reveal_strlit("EQ");
    reveal_strlit("CURRENT-ENV");
    reveal_strlit("IF");
    reveal_strlit("TERMINAL");
    reveal_strlit("DUMMY");
    reveal_strlit("OUTERMOST");
    reveal_strlit("ERROR");
    lemma_preload_names_index();
    assert forall|j: int| 0 <= j < 1 implies #[trigger] preload_names()[j] != preload_names()[1] by {
        if j == 0 {
            assert(preload_names()[0] == "NIL"@);
            assert(preload_names()[1] == "T"@);
            assert("NIL"@.len() == 3);
            assert("T"@.len() == 1);
        }
    }
}

proof fn lemma_preload_fresh_2()
    ensures
        forall|j: int| 0 <= j < 2 ==> #[trigger] preload_names()[j] != preload_names()[2],
{
    reveal_strlit("NIL");
    reveal_strlit("T");
    reveal_strlit("QUOTE");
    reveal_strlit("LAMBDA");
    reveal_strlit("_");
    reveal_strlit("LET*");
    reveal_strlit("LETREC*");
    reveal_strlit("CAR");
    reveal_strlit("CDR");
    reveal_strlit("ATOM");
    reveal_strlit("+");
    reveal_strlit("-");
    reveal_strlit("*");
    reveal_strlit("/");
    reveal_strlit("=");
    reveal_strlit("EQ");
    reveal_strlit("CURRENT-ENV");
    reveal_strlit("IF");
    reveal_strlit("TERMINAL");
    reveal_strlit("DUMMY");
    reveal_strlit("OUTERMOST");
    reveal_strlit("ERROR");
    lemma_preload_names_index();
    assert forall|j: int| 0 <= j < 2 implies #[trigger] preload_names()[j] != preload_names()[2] by {
        if j == 0 {
            assert(preload_names()[0] == "NIL"@);
            assert(preload_names()[2] == "QUOTE"@);
            assert("NIL"@.len() == 3);
            assert("QUOTE"@.len() == 5);
        }
        else if j == 1 {
            assert(preload_names()[1] == "T"@);
            assert(preload_names()[2] == "QUOTE"@);
            assert("T"@.len() == 1);
            assert("QUOTE"@.len() == 5);
        }
    }
}

proof fn lemma_preload_fresh_3()
    ensures
        forall|j: int| 0 <= j < 3 ==> #[trigger] preload_names()[j] != preload_names()[3],
{
    reveal_strlit("NIL");
    reveal_strlit("T");
    reveal_strlit("QUOTE");
    reveal_strlit("LAMBDA");
    reveal_strlit("_");
    reveal_strlit("LET*");
    reveal_strlit("LETREC*");
    reveal_strlit("CAR");
    reveal_strlit("CDR");
    reveal_strlit("ATOM");
    reveal_strlit("+");
    reveal_strlit("-");
    reveal_strlit("*");
    reveal_strlit("/");
    reveal_strlit("=");
    reveal_strlit("EQ");
    reveal_strlit("CURRENT-ENV");
    reveal_strlit("IF");
    reveal_strlit("TERMINAL");
    reveal_strlit("DUMMY");
    reveal_strlit("OUTERMOST");
    reveal_strlit("ERROR");
    lemma_preload_names_index();
    assert forall|j: int| 0 <= j < 3 implies #[trigger] preload_names()[j] != preload_names()[3] by {
        if j == 0 {
            assert(preload_names()[0] == "NIL"@);
            assert(preload_names()[3] == "LAMBDA"@);
            assert("NIL"@.len() == 3);
            assert("LAMBDA"@.len() == 6);
        }
        else if j == 1 {
            assert(preload_names()[1] == "T"@);
            assert(preload_names()[3] == "LAMBDA"@);
            assert("T"@.len() == 1);
            assert("LAMBDA"@.len() == 6);
        }
        else if j == 2 {
            assert(preload_names()[2] == "QUOTE"@);
            assert(preload_names()[3] == "LAMBDA"@);
            assert("QUOTE"@.len() == 5);
            assert("LAMBDA"@.len() == 6);
        }
    }
}

proof fn lemma_preload_fresh_4()
    ensures
        forall|j: int| 0 <= j < 4 ==> #[trigger] preload_names()[j] != preload_names()[4],
{
    reveal_strlit("NIL");
    reveal_strlit("T");
    reveal_strlit("QUOTE");
    reveal_strlit("LAMBDA");
    reveal_strlit("_");
    reveal_strlit("LET*");
    reveal_strlit("LETREC*");
    reveal_strlit("CAR");
    reveal_strlit("CDR");
    reveal_strlit("ATOM");
    reveal_strlit("+");
    reveal_strlit("-");
    reveal_strlit("*");
    reveal_strlit("/");
    reveal_strlit("=");
    reveal_strlit("EQ");
    reveal_strlit("CURRENT-ENV");
    reveal_strlit("IF");
    reveal_strlit("TERMINAL");
    reveal_strlit("DUMMY");
    reveal_strlit("OUTERMOST");
    reveal_strlit("ERROR");
    lemma_preload_names_index();
    assert forall|j: int| 0 <= j < 4 implies #[trigger] preload_names()[j] != preload_names()[4] by {
        if j == 0 {
            assert(preload_names()[0] == "NIL"@);
            assert(preload_names()[4] == "_"@);
            assert("NIL"@.len() == 3);
            assert("_"@.len() == 1);
        }
        else if j == 1 {
            assert(preload_names()[1] == "T"@);
            assert(preload_names()[4] == "_"@);
            assert("T"@.len() == 1);
            assert("_"@.len() == 1);
            assert("T"@[0] != "_"@[0]);
        }
        else if j == 2 {
            assert(preload_names()[2] == "QUOTE"@);
            assert(preload_names()[4] == "_"@);
            assert("QUOTE"@.len() == 5);
            assert("_"@.len() == 1);
        }
        else if j == 3 {
            assert(preload_names()[3] == "LAMBDA"@);
            assert(preload_names()[4] == "_"@);
            assert("LAMBDA"@.len() == 6);
            assert("_"@.len() == 1);
        }
    }
}

proof fn lemma_preload_fresh_5()
    ensures
        forall|j: int| 0 <= j < 5 ==> #[trigger] preload_names()[j] != preload_names()[5],
{
    reveal_strlit("NIL");
    reveal_strlit("T");
    reveal_strlit("QUOTE");
    reveal_strlit("LAMBDA");
    reveal_strlit("_");
    reveal_strlit("LET*");
    reveal_strlit("LETREC*");
    reveal_strlit("CAR");
    reveal_strlit("CDR");
    reveal_strlit("ATOM");
    reveal_strlit("+");
    reveal_strlit("-");
    reveal_strlit("*");
    reveal_strlit("/");
    reveal_strlit("=");
    reveal_strlit("EQ");
    reveal_strlit("CURRENT-ENV");
    reveal_strlit("IF");
    reveal_strlit("TERMINAL");
    reveal_strlit("DUMMY");
    reveal_strlit("OUTERMOST");
    reveal_strlit("ERROR");
    lemma_preload_names_index();
    assert forall|j: int| 0 <= j < 5 implies #[trigger] preload_names()[j] != preload_names()[5] by {
        if j == 0 {
            assert(preload_names()[0] == "NIL"@);
            assert(preload_names()[5] == "LET*"@);
            assert("NIL"@.len() == 3);
            assert("LET*"@.len() == 4);
        }
        else if j == 1 {
            assert(preload_names()[1] == "T"@);
            assert(preload_names()[5] == "LET*"@);
            assert("T"@.len() == 1);
            assert("LET*"@.len() == 4);
        }
        else if j == 2 {
            assert(preload_names()[2] == "QUOTE"@);
            assert(preload_names()[5] == "LET*"@);
            assert("QUOTE"@.len() == 5);
            assert("LET*"@.len() == 4);
        }
        else if j == 3 {
            assert(preload_names()[3] == "LAMBDA"@);
            assert(preload_names()[5] == "LET*"@);
            assert("LAMBDA"@.len() == 6);
            assert("LET*"@.len() == 4);
        }
        else if j == 4 {
            assert(preload_names()[4] == "_"@);
            assert(preload_names()[5] == "LET*"@);
            assert("_"@.len() == 1);
            assert("LET*"@.len() == 4);
        }
    }
}

proof fn lemma_preload_fresh_6()
    ensures
        forall|j: int| 0 <= j < 6 ==> #[trigger] preload_names()[j] != preload_names()[6],
{
    reveal_strlit("NIL");
    reveal_strlit("T");
    reveal_strlit("QUOTE");
    reveal_strlit("LAMBDA");
    reveal_strlit("_");
    reveal_strlit("LET*");
    reveal_strlit("LETREC*");
    reveal_strlit("CAR");
    reveal_strlit("CDR");
    reveal_strlit("ATOM");
    reveal_strlit("+");
    reveal_strlit("-");
    reveal_strlit("*");
    reveal_strlit("/");
    reveal_strlit("=");
    reveal_strlit("EQ");
    reveal_strlit("CURRENT-ENV");
    reveal_strlit("IF");
    reveal_strlit("TERMINAL");
    reveal_strlit("DUMMY");
    reveal_strlit("OUTERMOST");
    reveal_strlit("ERROR");
    lemma_preload_names_index();
    assert forall|j: int| 0 <= j < 6 implies #[trigger] preload_names()[j] != preload_names()[6] by {
        if j == 0 {
            assert(preload_names()[0] == "NIL"@);
            assert(preload_names()[6] == "LETREC*"@);
            assert("NIL"@.len() == 3);
            assert("LETREC*"@.len() == 7);
        }
        else if j == 1 {
            assert(preload_names()[1] == "T"@);
            assert(preload_names()[6] == "LETREC*"@);
            assert("T"@.len() == 1);
            assert("LETREC*"@.len() == 7);
        }
        else if j == 2 {
            assert(preload_names()[2] == "QUOTE"@);
            assert(preload_names()[6] == "LETREC*"@);
            assert("QUOTE"@.len() == 5);
            assert("LETREC*"@.len() == 7);
        }
        else if j == 3 {
            assert(preload_names()[3] == "LAMBDA"@);
            assert(preload_names()[6] == "LETREC*"@);
            assert("LAMBDA"@.len() == 6);
            assert("LETREC*"@.len() == 7);
        }
        else if j == 4 {
            assert(preload_names()[4] == "_"@);
            assert(preload_names()[6] == "LETREC*"@);
            assert("_"@.len() == 1);
            assert("LETREC*"@.len() == 7);
        }
        else if j == 5 {
            assert(preload_names()[5] == "LET*"@);
            assert(preload_names()[6] == "LETREC*"@);
            assert("LET*"@.len() == 4);
            assert("LETREC*"@.len() == 7);
        }
    }
}

proof fn lemma_preload_fresh_7()
    ensures
        forall|j: int| 0 <= j < 7 ==> #[trigger] preload_names()[j] != preload_names()[7],
{
    reveal_strlit("NIL");
    reveal_strlit("T");
    reveal_strlit("QUOTE");
    reveal_strlit("LAMBDA");
    reveal_strlit("_");
    reveal_strlit("LET*");
    reveal_strlit("LETREC*");
    reveal_strlit("CAR");
    reveal_strlit("CDR");
    reveal_strlit("ATOM");
    reveal_strlit("+");
    reveal_strlit("-");
    reveal_strlit("*");
    reveal_strlit("/");
    reveal_strlit("=");
    reveal_strlit("EQ");
    reveal_strlit("CURRENT-ENV");
    reveal_strlit("IF");
    reveal_strlit("TERMINAL");
    reveal_strlit("DUMMY");
    reveal_strlit("OUTERMOST");
    reveal_strlit("ERROR");
    lemma_preload_names_index();
    assert forall|j: int| 0 <= j < 7 implies #[trigger] preload_names()[j] != preload_names()[7] by {
        if j == 0 {
            assert(preload_names()[0] == "NIL"@);
            assert(preload_names()[7] == "CAR"@);
            assert("NIL"@.len() == 3);
            assert("CAR"@.len() == 3);
            assert("NIL"@[0] != "CAR"@[0]);
        }
        else if j == 1 {
            assert(preload_names()[1] == "T"@);
            assert(preload_names()[7] == "CAR"@);
            assert("T"@.len() == 1);
            assert("CAR"@.len() == 3);
        }
        else if j == 2 {
            assert(preload_names()[2] == "QUOTE"@);
            assert(preload_names()[7] == "CAR"@);
            assert("QUOTE"@.len() == 5);
            assert("CAR"@.len() == 3);
        }
        else if j == 3 {
            assert(preload_names()[3] == "LAMBDA"@);
            assert(preload_names()[7] == "CAR"@);
            assert("LAMBDA"@.len() == 6);
            assert("CAR"@.len() == 3);
        }
        else if j == 4 {
            assert(preload_names()[4] == "_"@);
            assert(preload_names()[7] == "CAR"@);
            assert("_"@.len() == 1);
            assert("CAR"@.len() == 3);
        }
        else if j == 5 {
            assert(preload_names()[5] == "LET*"@);
            assert(preload_names()[7] == "CAR"@);
            assert("LET*"@.len() == 4);
            assert("CAR"@.len() == 3);
        }
        else if j == 6 {
            assert(preload_names()[6] == "LETREC*"@);
            assert(preload_names()[7] == "CAR"@);
            assert("LETREC*"@.len() == 7);
            assert("CAR"@.len() == 3);
        }
    }
}

proof fn lemma_preload_fresh_8()
    ensures
        forall|j: int| 0 <= j < 8 ==> #[trigger] preload_names()[j] != preload_names()[8],
{
    reveal_strlit("NIL");
    reveal_strlit("T");
    reveal_strlit("QUOTE");
    reveal_strlit("LAMBDA");
    reveal_strlit("_");
    reveal_strlit("LET*");
    reveal_strlit("LETREC*");
    reveal_strlit("CAR");
    reveal_strlit("CDR");
    reveal_strlit("ATOM");
    reveal_strlit("+");
    reveal_strlit("-");
    reveal_strlit("*");
    reveal_strlit("/");
    reveal_strlit("=");
    reveal_strlit("EQ");
    reveal_strlit("CURRENT-ENV");
    reveal_strlit("IF");
    reveal_strlit("TERMINAL");
    reveal_strlit("DUMMY");
    reveal_strlit("OUTERMOST");
    reveal_strlit("ERROR");
    lemma_preload_names_index();
    assert forall|j: int| 0 <= j < 8 implies #[trigger] preload_names()[j] != preload_names()[8] by {
        if j == 0 {
            assert(preload_names()[0] == "NIL"@);
            assert(preload_names()[8] == "CDR"@);
            assert("NIL"@.len() == 3);
            assert("CDR"@.len() == 3);
            assert("NIL"@[0] != "CDR"@[0]);
        }
        else if j == 1 {
            assert(preload_names()[1] == "T"@);
            assert(preload_names()[8] == "CDR"@);
            assert("T"@.len() == 1);
            assert("CDR"@.len() == 3);
        }
        else if j == 2 {
            assert(preload_names()[2] == "QUOTE"@);
            assert(preload_names()[8] == "CDR"@);
            assert("QUOTE"@.len() == 5);
            assert("CDR"@.len() == 3);
        }
        else if j == 3 {
            assert(preload_names()[3] == "LAMBDA"@);
            assert(preload_names()[8] == "CDR"@);
            assert("LAMBDA"@.len() == 6);
            assert("CDR"@.len() == 3);
        }
        else if j == 4 {
            assert(preload_names()[4] == "_"@);
            assert(preload_names()[8] == "CDR"@);
            assert("_"@.len() == 1);
            assert("CDR"@.len() == 3);
        }
        else if j == 5 {
            assert(preload_names()[5] == "LET*"@);
            assert(preload_names()[8] == "CDR"@);
            assert("LET*"@.len() == 4);
            assert("CDR"@.len() == 3);
        }
        else if j == 6 {
            assert(preload_names()[6] == "LETREC*"@);
            assert(preload_names()[8] == "CDR"@);
            assert("LETREC*"@.len() == 7);
            assert("CDR"@.len() == 3);
        }
        else if j == 7 {
            assert(preload_names()[7] == "CAR"@);
            assert(preload_names()[8] == "CDR"@);
            assert("CAR"@.len() == 3);
            assert("CDR"@.len() == 3);
            assert("CAR"@[1] != "CDR"@[1]);
        }
    }
}

proof fn lemma_preload_fresh_9()
    ensures
        forall|j: int| 0 <= j < 9 ==> #[trigger] preload_names()[j] != preload_names()[9],
{
    reveal_strlit("NIL");
    reveal_strlit("T");
    reveal_strlit("QUOTE");
    reveal_strlit("LAMBDA");
    reveal_strlit("_");
    reveal_strlit("LET*");
    reveal_strlit("LETREC*");
    reveal_strlit("CAR");
    reveal_strlit("CDR");
    reveal_strlit("ATOM");
    reveal_strlit("+");
    reveal_strlit("-");
    reveal_strlit("*");
    reveal_strlit("/");
    reveal_strlit("=");
    reveal_strlit("EQ");
    reveal_strlit("CURRENT-ENV");
    reveal_strlit("IF");
    reveal_strlit("TERMINAL");
    reveal_strlit("DUMMY");
    reveal_strlit("OUTERMOST");
    reveal_strlit("ERROR");
    lemma_preload_names_index();
    assert forall|j: int| 0 <= j < 9 implies #[trigger] preload_names()[j] != preload_names()[9] by {
        if j == 0 {
            assert(preload_names()[0] == "NIL"@);
            assert(preload_names()[9] == "ATOM"@);
            assert("NIL"@.len() == 3);
            assert("ATOM"@.len() == 4);
        }
        else if j == 1 {
            assert(preload_names()[1] == "T"@);
            assert(preload_names()[9] == "ATOM"@);
            assert("T"@.len() == 1);
            assert("ATOM"@.len() == 4);
        }
        else if j == 2 {
            assert(preload_names()[2] == "QUOTE"@);
            assert(preload_names()[9] == "ATOM"@);
            assert("QUOTE"@.len() == 5);
            assert("ATOM"@.len() == 4);
        }
        else if j == 3 {
            assert(preload_names()[3] == "LAMBDA"@);
            assert(preload_names()[9] == "ATOM"@);
            assert("LAMBDA"@.len() == 6);
            assert("ATOM"@.len() == 4);
        }
        else if j == 4 {
            assert(preload_names()[4] == "_"@);
            assert(preload_names()[9] == "ATOM"@);
            assert("_"@.len() == 1);
            assert("ATOM"@.len() == 4);
        }
        else if j == 5 {
            assert(preload_names()[5] == "LET*"@);
            assert(preload_names()[9] == "ATOM"@);
            assert("LET*"@.len() == 4);
            assert("ATOM"@.len() == 4);
            assert("LET*"@[0] != "ATOM"@[0]);
        }
        else if j == 6 {
            assert(preload_names()[6] == "LETREC*"@);
            assert(preload_names()[9] == "ATOM"@);
            assert("LETREC*"@.len() == 7);
            assert("ATOM"@.len() == 4);
        }
        else if j == 7 {
            assert(preload_names()[7] == "CAR"@);
            assert(preload_names()[9] == "ATOM"@);
            assert("CAR"@.len() == 3);
            assert("ATOM"@.len() == 4);
        }
        else if j == 8 {
            assert(preload_names()[8] == "CDR"@);
            assert(preload_names()[9] == "ATOM"@);
            assert("CDR"@.len() == 3);
            assert("ATOM"@.len() == 4);
        }
    }
}

proof fn lemma_preload_fresh_10()
    ensures
        forall|j: int| 0 <= j < 10 ==> #[trigger] preload_names()[j] != preload_names()[10],
{
    reveal_strlit("NIL");
    reveal_strlit("T");
    reveal_strlit("QUOTE");
    reveal_strlit("LAMBDA");
    reveal_strlit("_");
    reveal_strlit("LET*");
    reveal_strlit("LETREC*");
    reveal_strlit("CAR");
    reveal_strlit("CDR");
    reveal_strlit("ATOM");
    reveal_strlit("+");
    reveal_strlit("-");
    reveal_strlit("*");
    reveal_strlit("/");
    reveal_strlit("=");
    reveal_strlit("EQ");
    reveal_strlit("CURRENT-ENV");
    reveal_strlit("IF");
    reveal_strlit("TERMINAL");
    reveal_strlit("DUMMY");
    reveal_strlit("OUTERMOST");
    reveal_strlit("ERROR");
    lemma_preload_names_index();
    assert forall|j: int| 0 <= j < 10 implies #[trigger] preload_names()[j] != preload_names()[10] by {
        if j == 0 {
            assert(preload_names()[0] == "NIL"@);
            assert(preload_names()[10] == "+"@);
            assert("NIL"@.len() == 3);
            assert("+"@.len() == 1);
        }
        else if j == 1 {
            assert(preload_names()[1] == "T"@);
            assert(preload_names()[10] == "+"@);
            assert("T"@.len() == 1);
            assert("+"@.len() == 1);
            assert("T"@[0] != "+"@[0]);
        }
        else if j == 2 {
            assert(preload_names()[2] == "QUOTE"@);
            assert(preload_names()[10] == "+"@);
            assert("QUOTE"@.len() == 5);
            assert("+"@.len() == 1);
        }
        else if j == 3 {
            assert(preload_names()[3] == "LAMBDA"@);
            assert(preload_names()[10] == "+"@);
            assert("LAMBDA"@.len() == 6);
            assert("+"@.len() == 1);
        }
        else if j == 4 {
            assert(preload_names()[4] == "_"@);
            assert(preload_names()[10] == "+"@);
            assert("_"@.len() == 1);
            assert("+"@.len() == 1);
            assert("_"@[0] != "+"@[0]);
        }
        else if j == 5 {
            assert(preload_names()[5] == "LET*"@);
            assert(preload_names()[10] == "+"@);
            assert("LET*"@.len() == 4);
            assert("+"@.len() == 1);
        }
        else if j == 6 {
            assert(preload_names()[6] == "LETREC*"@);
            assert(preload_names()[10] == "+"@);
            assert("LETREC*"@.len() == 7);
            assert("+"@.len() == 1);
        }
        else if j == 7 {
            assert(preload_names()[7] == "CAR"@);
            assert(preload_names()[10] == "+"@);
            assert("CAR"@.len() == 3);
            assert("+"@.len() == 1);
        }
        else if j == 8 {
            assert(preload_names()[8] == "CDR"@);
            assert(preload_names()[10] == "+"@);
            assert("CDR"@.len() == 3);
            assert("+"@.len() == 1);
        }
        else if j == 9 {
            assert(preload_names()[9] == "ATOM"@);
            assert(preload_names()[10] == "+"@);
            assert("ATOM"@.len() == 4);
            assert("+"@.len() == 1);
        }
    }
}

proof fn lemma_preload_fresh_11()
    ensures
        forall|j: int| 0 <= j < 11 ==> #[trigger] preload_names()[j] != preload_names()[11],
{
    reveal_strlit("NIL");
    reveal_strlit("T");
    reveal_strlit("QUOTE");
    reveal_strlit("LAMBDA");
    reveal_strlit("_");
    reveal_strlit("LET*");
    reveal_strlit("LETREC*");
    reveal_strlit("CAR");
    reveal_strlit("CDR");
    reveal_strlit("ATOM");
    reveal_strlit("+");
    reveal_strlit("-");
    reveal_strlit("*");
    reveal_strlit("/");
    reveal_strlit("=");
    reveal_strlit("EQ");
    reveal_strlit("CURRENT-ENV");
    reveal_strlit("IF");
    reveal_strlit("TERMINAL");
    reveal_strlit("DUMMY");
    reveal_strlit("OUTERMOST");
    reveal_strlit("ERROR");
    lemma_preload_names_index();
    assert forall|j: int| 0 <= j < 11 implies #[trigger] preload_names()[j] != preload_names()[11] by {
        if j == 0 {
            assert(preload_names()[0] == "NIL"@);
            assert(preload_names()[11] == "-"@);
            assert("NIL"@.len() == 3);
            assert("-"@.len() == 1);
        }
        else if j == 1 {
            assert(preload_names()[1] == "T"@);
            assert(preload_names()[11] == "-"@);
            assert("T"@.len() == 1);
            assert("-"@.len() == 1);
            assert("T"@[0] != "-"@[0]);
        }
        else if j == 2 {
            assert(preload_names()[2] == "QUOTE"@);
            assert(preload_names()[11] == "-"@);
            assert("QUOTE"@.len() == 5);
            assert("-"@.len() == 1);
        }
        else if j == 3 {
            assert(preload_names()[3] == "LAMBDA"@);
            assert(preload_names()[11] == "-"@);
            assert("LAMBDA"@.len() == 6);
            assert("-"@.len() == 1);
        }
        else if j == 4 {
            assert(preload_names()[4] == "_"@);
            assert(preload_names()[11] == "-"@);
            assert("_"@.len() == 1);
            assert("-"@.len() == 1);
            assert("_"@[0] != "-"@[0]);
        }
        else if j == 5 {
            assert(preload_names()[5] == "LET*"@);
            assert(preload_names()[11] == "-"@);
            assert("LET*"@.len() == 4);
            assert("-"@.len() == 1);
        }
        else if j == 6 {
            assert(preload_names()[6] == "LETREC*"@);
            assert(preload_names()[11] == "-"@);
            assert("LETREC*"@.len() == 7);
            assert("-"@.len() == 1);
        }
        else if j == 7 {
            assert(preload_names()[7] == "CAR"@);
            assert(preload_names()[11] == "-"@);
            assert("CAR"@.len() == 3);
            assert("-"@.len() == 1);
        }
        else if j == 8 {
            assert(preload_names()[8] == "CDR"@);
            assert(preload_names()[11] == "-"@);
            assert("CDR"@.len() == 3);
            assert("-"@.len() == 1);
        }
        else if j == 9 {
            assert(preload_names()[9] == "ATOM"@);
            assert(preload_names()[11] == "-"@);
            assert("ATOM"@.len() == 4);
            assert("-"@.len() == 1);
        }
        else if j == 10 {
            assert(preload_names()[10] == "+"@);
            assert(preload_names()[11] == "-"@);
            assert("+"@.len() == 1);
            assert("-"@.len() == 1);
            assert("+"@[0] != "-"@[0]);
        }
    }
}

proof fn lemma_preload_fresh_12()
    ensures
        forall|j: int| 0 <= j < 12 ==> #[trigger] preload_names()[j] != preload_names()[12],
{
    reveal_strlit("NIL");
    reveal_strlit("T");
    reveal_strlit("QUOTE");
    reveal_strlit("LAMBDA");
    reveal_strlit("_");
    reveal_strlit("LET*");
    reveal_strlit("LETREC*");
    reveal_strlit("CAR");
    reveal_strlit("CDR");
    reveal_strlit("ATOM");
    reveal_strlit("+");
    reveal_strlit("-");
    reveal_strlit("*");
    reveal_strlit("/");
    reveal_strlit("=");
    reveal_strlit("EQ");
    reveal_strlit("CURRENT-ENV");
    reveal_strlit("IF");
    reveal_strlit("TERMINAL");
    reveal_strlit("DUMMY");
    reveal_strlit("OUTERMOST");
    reveal_strlit("ERROR");
    lemma_preload_names_index();
    assert forall|j: int| 0 <= j < 12 implies #[trigger] preload_names()[j] != preload_names()[12] by {
        if j == 0 {
            assert(preload_names()[0] == "NIL"@);
            assert(preload_names()[12] == "*"@);
            assert("NIL"@.len() == 3);
            assert("*"@.len() == 1);
        }
        else if j == 1 {
            assert(preload_names()[1] == "T"@);
            assert(preload_names()[12] == "*"@);
            assert("T"@.len() == 1);
            assert("*"@.len() == 1);
            assert("T"@[0] != "*"@[0]);
        }
        else if j == 2 {
            assert(preload_names()[2] == "QUOTE"@);
            assert(preload_names()[12] == "*"@);
            assert("QUOTE"@.len() == 5);
            assert("*"@.len() == 1);
        }
        else if j == 3 {
            assert(preload_names()[3] == "LAMBDA"@);
            assert(preload_names()[12] == "*"@);
            assert("LAMBDA"@.len() == 6);
            assert("*"@.len() == 1);
        }
        else if j == 4 {
            assert(preload_names()[4] == "_"@);
            assert(preload_names()[12] == "*"@);
            assert("_"@.len() == 1);
            assert("*"@.len() == 1);
            assert("_"@[0] != "*"@[0]);
        }
        else if j == 5 {
            assert(preload_names()[5] == "LET*"@);
            assert(preload_names()[12] == "*"@);
            assert("LET*"@.len() == 4);
            assert("*"@.len() == 1);
        }
        else if j == 6 {
            assert(preload_names()[6] == "LETREC*"@);
            assert(preload_names()[12] == "*"@);
            assert("LETREC*"@.len() == 7);
            assert("*"@.len() == 1);
        }
        else if j == 7 {
            assert(preload_names()[7] == "CAR"@);
            assert(preload_names()[12] == "*"@);
            assert("CAR"@.len() == 3);
            assert("*"@.len() == 1);
        }
        else if j == 8 {
            assert(preload_names()[8] == "CDR"@);
            assert(preload_names()[12] == "*"@);
            assert("CDR"@.len() == 3);
            assert("*"@.len() == 1);
        }
        else if j == 9 {
            assert(preload_names()[9] == "ATOM"@);
            assert(preload_names()[12] == "*"@);
            assert("ATOM"@.len() == 4);
            assert("*"@.len() == 1);
        }
        else if j == 10 {
            assert(preload_names()[10] == "+"@);
            assert(preload_names()[12] == "*"@);
            assert("+"@.len() == 1);
            assert("*"@.len() == 1);
            assert("+"@[0] != "*"@[0]);
        }
        else if j == 11 {
            assert(preload_names()[11] == "-"@);
            assert(preload_names()[12] == "*"@);
            assert("-"@.len() == 1);
            assert("*"@.len() == 1);
            assert("-"@[0] != "*"@[0]);
        }
    }
}

proof fn lemma_preload_fresh_13()
    ensures
        forall|j: int| 0 <= j < 13 ==> #[trigger] preload_names()[j] != preload_names()[13],
{
    reveal_strlit("NIL");
    reveal_strlit("T");
    reveal_strlit("QUOTE");
    reveal_strlit("LAMBDA");
    reveal_strlit("_");
    reveal_strlit("LET*");
    reveal_strlit("LETREC*");
    reveal_strlit("CAR");
    reveal_strlit("CDR");
    reveal_strlit("ATOM");
    reveal_strlit("+");
    reveal_strlit("-");
    reveal_strlit("*");
    reveal_strlit("/");
    reveal_strlit("=");
    reveal_strlit("EQ");
    reveal_strlit("CURRENT-ENV");
    reveal_strlit("IF");
    reveal_strlit("TERMINAL");
    reveal_strlit("DUMMY");
    reveal_strlit("OUTERMOST");
    reveal_strlit("ERROR");
    lemma_preload_names_index();
    assert forall|j: int| 0 <= j < 13 implies #[trigger] preload_names()[j] != preload_names()[13] by {
        if j == 0 {
            assert(preload_names()[0] == "NIL"@);
            assert(preload_names()[13] == "/"@);
            assert("NIL"@.len() == 3);
            assert("/"@.len() == 1);
        }
        else if j == 1 {
            assert(preload_names()[1] == "T"@);
            assert(preload_names()[13] == "/"@);
            assert("T"@.len() == 1);
            assert("/"@.len() == 1);
            assert("T"@[0] != "/"@[0]);
        }
        else if j == 2 {
            assert(preload_names()[2] == "QUOTE"@);
            assert(preload_names()[13] == "/"@);
            assert("QUOTE"@.len() == 5);
            assert("/"@.len() == 1);
        }
        else if j == 3 {
            assert(preload_names()[3] == "LAMBDA"@);
            assert(preload_names()[13] == "/"@);
            assert("LAMBDA"@.len() == 6);
            assert("/"@.len() == 1);
        }
        else if j == 4 {
            assert(preload_names()[4] == "_"@);
            assert(preload_names()[13] == "/"@);
            assert("_"@.len() == 1);
            assert("/"@.len() == 1);
            assert("_"@[0] != "/"@[0]);
        }
        else if j == 5 {
            assert(preload_names()[5] == "LET*"@);
            assert(preload_names()[13] == "/"@);
            assert("LET*"@.len() == 4);
            assert("/"@.len() == 1);
        }
        else if j == 6 {
            assert(preload_names()[6] == "LETREC*"@);
            assert(preload_names()[13] == "/"@);
            assert("LETREC*"@.len() == 7);
            assert("/"@.len() == 1);
        }
        else if j == 7 {
            assert(preload_names()[7] == "CAR"@);
            assert(preload_names()[13] == "/"@);
            assert("CAR"@.len() == 3);
            assert("/"@.len() == 1);
        }
        else if j == 8 {
            assert(preload_names()[8] == "CDR"@);
            assert(preload_names()[13] == "/"@);
            assert("CDR"@.len() == 3);
            assert("/"@.len() == 1);
        }
        else if j == 9 {
            assert(preload_names()[9] == "ATOM"@);
            assert(preload_names()[13] == "/"@);
            assert("ATOM"@.len() == 4);
            assert("/"@.len() == 1);
        }
        else if j == 10 {
            assert(preload_names()[10] == "+"@);
            assert(preload_names()[13] == "/"@);
            assert("+"@.len() == 1);
            assert("/"@.len() == 1);
            assert("+"@[0] != "/"@[0]);
        }
        else if j == 11 {
            assert(preload_names()[11] == "-"@);
            assert(preload_names()[13] == "/"@);
            assert("-"@.len() == 1);
            assert("/"@.len() == 1);
            assert("-"@[0] != "/"@[0]);
        }
        else if j == 12 {
            assert(preload_names()[12] == "*"@);
            assert(preload_names()[13] == "/"@);
            assert("*"@.len() == 1);
            assert("/"@.len() == 1);
            assert("*"@[0] != "/"@[0]);
        }
    }
}

proof fn lemma_preload_fresh_14()
    ensures
        forall|j: int| 0 <= j < 14 ==> #[trigger] preload_names()[j] != preload_names()[14],
{
    reveal_strlit("NIL");
    reveal_strlit("T");
    reveal_strlit("QUOTE");
    reveal_strlit("LAMBDA");
    reveal_strlit("_");
    reveal_strlit("LET*");
    reveal_strlit("LETREC*");
    reveal_strlit("CAR");
    reveal_strlit("CDR");
    reveal_strlit("ATOM");
    reveal_strlit("+");
    reveal_strlit("-");
    reveal_strlit("*");
    reveal_strlit("/");
    reveal_strlit("=");
    reveal_strlit("EQ");
    reveal_strlit("CURRENT-ENV");
    reveal_strlit("IF");
    reveal_strlit("TERMINAL");
    reveal_strlit("DUMMY");
    reveal_strlit("OUTERMOST");
    reveal_strlit("ERROR");
    lemma_preload_names_index();
    assert forall|j: int| 0 <= j < 14 implies #[trigger] preload_names()[j] != preload_names()[14] by {
        if j == 0 {
            assert(preload_names()[0] == "NIL"@);
            assert(preload_names()[14] == "="@);
            assert("NIL"@.len() == 3);
            assert("="@.len() == 1);
        }
        else if j == 1 {
            assert(preload_names()[1] == "T"@);
            assert(preload_names()[14] == "="@);
            assert("T"@.len() == 1);
            assert("="@.len() == 1);
            assert("T"@[0] != "="@[0]);
        }
        else if j == 2 {
            assert(preload_names()[2] == "QUOTE"@);
            assert(preload_names()[14] == "="@);
            assert("QUOTE"@.len() == 5);
            assert("="@.len() == 1);
        }
        else if j == 3 {
            assert(preload_names()[3] == "LAMBDA"@);
            assert(preload_names()[14] == "="@);
            assert("LAMBDA"@.len() == 6);
            assert("="@.len() == 1);
        }
        else if j == 4 {
            assert(preload_names()[4] == "_"@);
            assert(preload_names()[14] == "="@);
            assert("_"@.len() == 1);
            assert("="@.len() == 1);
            assert("_"@[0] != "="@[0]);
        }
        else if j == 5 {
            assert(preload_names()[5] == "LET*"@);
            assert(preload_names()[14] == "="@);
            assert("LET*"@.len() == 4);
            assert("="@.len() == 1);
        }
        else if j == 6 {
            assert(preload_names()[6] == "LETREC*"@);
            assert(preload_names()[14] == "="@);
            assert("LETREC*"@.len() == 7);
            assert("="@.len() == 1);
        }
        else if j == 7 {
            assert(preload_names()[7] == "CAR"@);
            assert(preload_names()[14] == "="@);
            assert("CAR"@.len() == 3);
            assert("="@.len() == 1);
        }
        else if j == 8 {
            assert(preload_names()[8] == "CDR"@);
            assert(preload_names()[14] == "="@);
            assert("CDR"@.len() == 3);
            assert("="@.len() == 1);
        }
        else if j == 9 {
            assert(preload_names()[9] == "ATOM"@);
            assert(preload_names()[14] == "="@);
            assert("ATOM"@.len() == 4);
            assert("="@.len() == 1);
        }
        else if j == 10 {
            assert(preload_names()[10] == "+"@);
            assert(preload_names()[14] == "="@);
            assert("+"@.len() == 1);
            assert("="@.len() == 1);
            assert("+"@[0] != "="@[0]);
        }
        else if j == 11 {
            assert(preload_names()[11] == "-"@);
            assert(preload_names()[14] == "="@);
            assert("-"@.len() == 1);
            assert("="@.len() == 1);
            assert("-"@[0] != "="@[0]);
        }
        else if j == 12 {
            assert(preload_names()[12] == "*"@);
            assert(preload_names()[14] == "="@);
            assert("*"@.len() == 1);
            assert("="@.len() == 1);
            assert("*"@[0] != "="@[0]);
        }
        else if j == 13 {
            assert(preload_names()[13] == "/"@);
            assert(preload_names()[14] == "="@);
            assert("/"@.len() == 1);
            assert("="@.len() == 1);
            assert("/"@[0] != "="@[0]);
        }
    }
}

proof fn lemma_preload_fresh_15()
    ensures
        forall|j: int| 0 <= j < 15 ==> #[trigger] preload_names()[j] != preload_names()[15],
{
    reveal_strlit("NIL");
    reveal_strlit("T");
    reveal_strlit("QUOTE");
    reveal_strlit("LAMBDA");
    reveal_strlit("_");
    reveal_strlit("LET*");
    reveal_strlit("LETREC*");
    reveal_strlit("CAR");
    reveal_strlit("CDR");
    reveal_strlit("ATOM");
    reveal_strlit("+");
    reveal_strlit("-");
    reveal_strlit("*");
    reveal_strlit("/");
    reveal_strlit("=");
    reveal_strlit("EQ");
    reveal_strlit("CURRENT-ENV");
    reveal_strlit("IF");
    reveal_strlit("TERMINAL");
    reveal_strlit("DUMMY");
    reveal_strlit("OUTERMOST");
    reveal_strlit("ERROR");
    lemma_preload_names_index();
    assert forall|j: int| 0 <= j < 15 implies #[trigger] preload_names()[j] != preload_names()[15] by {
        if j == 0 {
            assert(preload_names()[0] == "NIL"@);
            assert(preload_names()[15] == "EQ"@);
            assert("NIL"@.len() == 3);
            assert("EQ"@.len() == 2);
        }
        else if j == 1 {
            assert(preload_names()[1] == "T"@);
            assert(preload_names()[15] == "EQ"@);
            assert("T"@.len() == 1);
            assert("EQ"@.len() == 2);
        }
        else if j == 2 {
            assert(preload_names()[2] == "QUOTE"@);
            assert(preload_names()[15] == "EQ"@);
            assert("QUOTE"@.len() == 5);
            assert("EQ"@.len() == 2);
        }
        else if j == 3 {
            assert(preload_names()[3] == "LAMBDA"@);
            assert(preload_names()[15] == "EQ"@);
            assert("LAMBDA"@.len() == 6);
            assert("EQ"@.len() == 2);
        }
        else if j == 4 {
            assert(preload_names()[4] == "_"@);
            assert(preload_names()[15] == "EQ"@);
            assert("_"@.len() == 1);
            assert("EQ"@.len() == 2);
        }
        else if j == 5 {
            assert(preload_names()[5] == "LET*"@);
            assert(preload_names()[15] == "EQ"@);
            assert("LET*"@.len() == 4);
            assert("EQ"@.len() == 2);
        }
        else if j == 6 {
            assert(preload_names()[6] == "LETREC*"@);
            assert(preload_names()[15] == "EQ"@);
            assert("LETREC*"@.len() == 7);
            assert("EQ"@.len() == 2);
        }
        else if j == 7 {
            assert(preload_names()[7] == "CAR"@);
            assert(preload_names()[15] == "EQ"@);
            assert("CAR"@.len() == 3);
            assert("EQ"@.len() == 2);
        }
        else if j == 8 {
            assert(preload_names()[8] == "CDR"@);
            assert(preload_names()[15] == "EQ"@);
            assert("CDR"@.len() == 3);
            assert("EQ"@.len() == 2);
        }
        else if j == 9 {
            assert(preload_names()[9] == "ATOM"@);
            assert(preload_names()[15] == "EQ"@);
            assert("ATOM"@.len() == 4);
            assert("EQ"@.len() == 2);
        }
        else if j == 10 {
            assert(preload_names()[10] == "+"@);
            assert(preload_names()[15] == "EQ"@);
            assert("+"@.len() == 1);
            assert("EQ"@.len() == 2);
        }
        else if j == 11 {
            assert(preload_names()[11] == "-"@);
            assert(preload_names()[15] == "EQ"@);
            assert("-"@.len() == 1);
            assert("EQ"@.len() == 2);
        }
        else if j == 12 {
            assert(preload_names()[12] == "*"@);
            assert(preload_names()[15] == "EQ"@);
            assert("*"@.len() == 1);
            assert("EQ"@.len() == 2);
        }
        else if j == 13 {
            assert(preload_names()[13] == "/"@);
            assert(preload_names()[15] == "EQ"@);
            assert("/"@.len() == 1);
            assert("EQ"@.len() == 2);
        }
        else if j == 14 {
            assert(preload_names()[14] == "="@);
            assert(preload_names()[15] == "EQ"@);
            assert("="@.len() == 1);
            assert("EQ"@.len() == 2);
        }
    }
}

proof fn lemma_preload_fresh_16()
    ensures
        forall|j: int| 0 <= j < 16 ==> #[trigger] preload_names()[j] != preload_names()[16],
{
    reveal_strlit("NIL");
    reveal_strlit("T");
    reveal_strlit("QUOTE");
    reveal_strlit("LAMBDA");
    reveal_strlit("_");
    reveal_strlit("LET*");
    reveal_strlit("LETREC*");
    reveal_strlit("CAR");
    reveal_strlit("CDR");
    reveal_strlit("ATOM");
    reveal_strlit("+");
    reveal_strlit("-");
    reveal_strlit("*");
    reveal_strlit("/");
    reveal_strlit("=");
    reveal_strlit("EQ");
    reveal_strlit("CURRENT-ENV");
    reveal_strlit("IF");
    reveal_strlit("TERMINAL");
    reveal_strlit("DUMMY");
    reveal_strlit("OUTERMOST");
    reveal_strlit("ERROR");
    lemma_preload_names_index();
    assert forall|j: int| 0 <= j < 16 implies #[trigger] preload_names()[j] != preload_names()[16] by {
        if j == 0 {
            assert(preload_names()[0] == "NIL"@);
            assert(preload_names()[16] == "CURRENT-ENV"@);
            assert("NIL"@.len() == 3);
            assert("CURRENT-ENV"@.len() == 11);
        }
        else if j == 1 {
            assert(preload_names()[1] == "T"@);
            assert(preload_names()[16] == "CURRENT-ENV"@);
            assert("T"@.len() == 1);
            assert("CURRENT-ENV"@.len() == 11);
        }
        else if j == 2 {
            assert(preload_names()[2] == "QUOTE"@);
            assert(preload_names()[16] == "CURRENT-ENV"@);
            assert("QUOTE"@.len() == 5);
            assert("CURRENT-ENV"@.len() == 11);
        }
        else if j == 3 {
            assert(preload_names()[3] == "LAMBDA"@);
            assert(preload_names()[16] == "CURRENT-ENV"@);
            assert("LAMBDA"@.len() == 6);
            assert("CURRENT-ENV"@.len() == 11);
        }
        else if j == 4 {
            assert(preload_names()[4] == "_"@);
            assert(preload_names()[16] == "CURRENT-ENV"@);
            assert("_"@.len() == 1);
            assert("CURRENT-ENV"@.len() == 11);
        }
        else if j == 5 {
            assert(preload_names()[5] == "LET*"@);
            assert(preload_names()[16] == "CURRENT-ENV"@);
            assert("LET*"@.len() == 4);
            assert("CURRENT-ENV"@.len() == 11);
        }
        else if j == 6 {
            assert(preload_names()[6] == "LETREC*"@);
            assert(preload_names()[16] == "CURRENT-ENV"@);
            assert("LETREC*"@.len() == 7);
            assert("CURRENT-ENV"@.len() == 11);
        }
        else if j == 7 {
            assert(preload_names()[7] == "CAR"@);
            assert(preload_names()[16] == "CURRENT-ENV"@);
            assert("CAR"@.len() == 3);
            assert("CURRENT-ENV"@.len() == 11);
        }
        else if j == 8 {
            assert(preload_names()[8] == "CDR"@);
            assert(preload_names()[16] == "CURRENT-ENV"@);
            assert("CDR"@.len() == 3);
            assert("CURRENT-ENV"@.len() == 11);
        }
        else if j == 9 {
            assert(preload_names()[9] == "ATOM"@);
            assert(preload_names()[16] == "CURRENT-ENV"@);
            assert("ATOM"@.len() == 4);
            assert("CURRENT-ENV"@.len() == 11);
        }
        else if j == 10 {
            assert(preload_names()[10] == "+"@);
            assert(preload_names()[16] == "CURRENT-ENV"@);
            assert("+"@.len() == 1);
            assert("CURRENT-ENV"@.len() == 11);
        }
        else if j == 11 {
            assert(preload_names()[11] == "-"@);
            assert(preload_names()[16] == "CURRENT-ENV"@);
            assert("-"@.len() == 1);
            assert("CURRENT-ENV"@.len() == 11);
        }
        else if j == 12 {
            assert(preload_names()[12] == "*"@);
            assert(preload_names()[16] == "CURRENT-ENV"@);
            assert("*"@.len() == 1);
            assert("CURRENT-ENV"@.len() == 11);
        }
        else if j == 13 {
            assert(preload_names()[13] == "/"@);
            assert(preload_names()[16] == "CURRENT-ENV"@);
            assert("/"@.len() == 1);
            assert("CURRENT-ENV"@.len() == 11);
        }
        else if j == 14 {
            assert(preload_names()[14] == "="@);
            assert(preload_names()[16] == "CURRENT-ENV"@);
            assert("="@.len() == 1);
            assert("CURRENT-ENV"@.len() == 11);
        }
        else if j == 15 {
            assert(preload_names()[15] == "EQ"@);
            assert(preload_names()[16] == "CURRENT-ENV"@);
            assert("EQ"@.len() == 2);
            assert("CURRENT-ENV"@.len() == 11);
        }
    }
}

proof fn lemma_preload_fresh_17()
    ensures
        forall|j: int| 0 <= j < 17 ==> #[trigger] preload_names()[j] != preload_names()[17],
{
    reveal_strlit("NIL");
    reveal_strlit("T");
    reveal_strlit("QUOTE");
    reveal_strlit("LAMBDA");
    reveal_strlit("_");
    reveal_strlit("LET*");
    reveal_strlit("LETREC*");
    reveal_strlit("CAR");
    reveal_strlit("CDR");
    reveal_strlit("ATOM");
    reveal_strlit("+");
    reveal_strlit("-");
    reveal_strlit("*");
    reveal_strlit("/");
    reveal_strlit("=");
    reveal_strlit("EQ");
    reveal_strlit("CURRENT-ENV");
    reveal_strlit("IF");
    reveal_strlit("TERMINAL");
    reveal_strlit("DUMMY");
    reveal_strlit("OUTERMOST");
    reveal_strlit("ERROR");
    lemma_preload_names_index();
    assert forall|j: int| 0 <= j < 17 implies #[trigger] preload_names()[j] != preload_names()[17] by {
        if j == 0 {
            assert(preload_names()[0] == "NIL"@);
            assert(preload_names()[17] == "IF"@);
            assert("NIL"@.len() == 3);
            assert("IF"@.len() == 2);
        }
        else if j == 1 {
            assert(preload_names()[1] == "T"@);
            assert(preload_names()[17] == "IF"@);
            assert("T"@.len() == 1);
            assert("IF"@.len() == 2);
        }
        else if j == 2 {
            assert(preload_names()[2] == "QUOTE"@);
            assert(preload_names()[17] == "IF"@);
            assert("QUOTE"@.len() == 5);
            assert("IF"@.len() == 2);
        }
        else if j == 3 {
            assert(preload_names()[3] == "LAMBDA"@);
            assert(preload_names()[17] == "IF"@);
            assert("LAMBDA"@.len() == 6);
            assert("IF"@.len() == 2);
        }
        else if j == 4 {
            assert(preload_names()[4] == "_"@);
            assert(preload_names()[17] == "IF"@);
            assert("_"@.len() == 1);
            assert("IF"@.len() == 2);
        }
        else if j == 5 {
            assert(preload_names()[5] == "LET*"@);
            assert(preload_names()[17] == "IF"@);
            assert("LET*"@.len() == 4);
            assert("IF"@.len() == 2);
        }
        else if j == 6 {
            assert(preload_names()[6] == "LETREC*"@);
            assert(preload_names()[17] == "IF"@);
            assert("LETREC*"@.len() == 7);
            assert("IF"@.len() == 2);
        }
        else if j == 7 {
            assert(preload_names()[7] == "CAR"@);
            assert(preload_names()[17] == "IF"@);
            assert("CAR"@.len() == 3);
            assert("IF"@.len() == 2);
        }
        else if j == 8 {
            assert(preload_names()[8] == "CDR"@);
            assert(preload_names()[17] == "IF"@);
            assert("CDR"@.len() == 3);
            assert("IF"@.len() == 2);
        }
        else if j == 9 {
            assert(preload_names()[9] == "ATOM"@);
            assert(preload_names()[17] == "IF"@);
            assert("ATOM"@.len() == 4);
            assert("IF"@.len() == 2);
        }
        else if j == 10 {
            assert(preload_names()[10] == "+"@);
            assert(preload_names()[17] == "IF"@);
            assert("+"@.len() == 1);
            assert("IF"@.len() == 2);
        }
        else if j == 11 {
            assert(preload_names()[11] == "-"@);
            assert(preload_names()[17] == "IF"@);
            assert("-"@.len() == 1);
            assert("IF"@.len() == 2);
        }
        else if j == 12 {
            assert(preload_names()[12] == "*"@);
            assert(preload_names()[17] == "IF"@);
            assert("*"@.len() == 1);
            assert("IF"@.len() == 2);
        }
        else if j == 13 {
            assert(preload_names()[13] == "/"@);
            assert(preload_names()[17] == "IF"@);
            assert("/"@.len() == 1);
            assert("IF"@.len() == 2);
        }
        else if j == 14 {
            assert(preload_names()[14] == "="@);
            assert(preload_names()[17] == "IF"@);
            assert("="@.len() == 1);
            assert("IF"@.len() == 2);
        }
        else if j == 15 {
            assert(preload_names()[15] == "EQ"@);
            assert(preload_names()[17] == "IF"@);
            assert("EQ"@.len() == 2);
            assert("IF"@.len() == 2);
            assert("EQ"@[0] != "IF"@[0]);
        }
        else if j == 16 {
            assert(preload_names()[16] == "CURRENT-ENV"@);
            assert(preload_names()[17] == "IF"@);
            assert("CURRENT-ENV"@.len() == 11);
            assert("IF"@.len() == 2);
        }
    }
}

proof fn lemma_preload_fresh_18()
    ensures
        forall|j: int| 0 <= j < 18 ==> #[trigger] preload_names()[j] != preload_names()[18],
{
    reveal_strlit("NIL");
    reveal_strlit("T");
    reveal_strlit("QUOTE");
    reveal_strlit("LAMBDA");
    reveal_strlit("_");
    reveal_strlit("LET*");
    reveal_strlit("LETREC*");
    reveal_strlit("CAR");
    reveal_strlit("CDR");
    reveal_strlit("ATOM");
    reveal_strlit("+");
    reveal_strlit("-");
    reveal_strlit("*");
    reveal_strlit("/");
    reveal_strlit("=");
    reveal_strlit("EQ");
    reveal_strlit("CURRENT-ENV");
    reveal_strlit("IF");
    reveal_strlit("TERMINAL");
    reveal_strlit("DUMMY");
    reveal_strlit("OUTERMOST");
    reveal_strlit("ERROR");
    lemma_preload_names_index();
    assert forall|j: int| 0 <= j < 18 implies #[trigger] preload_names()[j] != preload_names()[18] by {
        if j == 0 {
            assert(preload_names()[0] == "NIL"@);
            assert(preload_names()[18] == "TERMINAL"@);
            assert("NIL"@.len() == 3);
            assert("TERMINAL"@.len() == 8);
        }
        else if j == 1 {
            assert(preload_names()[1] == "T"@);
            assert(preload_names()[18] == "TERMINAL"@);
            assert("T"@.len() == 1);
            assert("TERMINAL"@.len() == 8);
        }
        else if j == 2 {
            assert(preload_names()[2] == "QUOTE"@);
            assert(preload_names()[18] == "TERMINAL"@);
            assert("QUOTE"@.len() == 5);
            assert("TERMINAL"@.len() == 8);
        }
        else if j == 3 {
            assert(preload_names()[3] == "LAMBDA"@);
            assert(preload_names()[18] == "TERMINAL"@);
            assert("LAMBDA"@.len() == 6);
            assert("TERMINAL"@.len() == 8);
        }
        else if j == 4 {
            assert(preload_names()[4] == "_"@);
            assert(preload_names()[18] == "TERMINAL"@);
            assert("_"@.len() == 1);
            assert("TERMINAL"@.len() == 8);
        }
        else if j == 5 {
            assert(preload_names()[5] == "LET*"@);
            assert(preload_names()[18] == "TERMINAL"@);
            assert("LET*"@.len() == 4);
            assert("TERMINAL"@.len() == 8);
        }
        else if j == 6 {
            assert(preload_names()[6] == "LETREC*"@);
            assert(preload_names()[18] == "TERMINAL"@);
            assert("LETREC*"@.len() == 7);
            assert("TERMINAL"@.len() == 8);
        }
        else if j == 7 {
            assert(preload_names()[7] == "CAR"@);
            assert(preload_names()[18] == "TERMINAL"@);
            assert("CAR"@.len() == 3);
            assert("TERMINAL"@.len() == 8);
        }
        else if j == 8 {
            assert(preload_names()[8] == "CDR"@);
            assert(preload_names()[18] == "TERMINAL"@);
            assert("CDR"@.len() == 3);
            assert("TERMINAL"@.len() == 8);
        }
        else if j == 9 {
            assert(preload_names()[9] == "ATOM"@);
            assert(preload_names()[18] == "TERMINAL"@);
            assert("ATOM"@.len() == 4);
            assert("TERMINAL"@.len() == 8);
        }
        else if j == 10 {
            assert(preload_names()[10] == "+"@);
            assert(preload_names()[18] == "TERMINAL"@);
            assert("+"@.len() == 1);
            assert("TERMINAL"@.len() == 8);
        }
        else if j == 11 {
            assert(preload_names()[11] == "-"@);
            assert(preload_names()[18] == "TERMINAL"@);
            assert("-"@.len() == 1);
            assert("TERMINAL"@.len() == 8);
        }
        else if j == 12 {
            assert(preload_names()[12] == "*"@);
            assert(preload_names()[18] == "TERMINAL"@);
            assert("*"@.len() == 1);
            assert("TERMINAL"@.len() == 8);
        }
        else if j == 13 {
            assert(preload_names()[13] == "/"@);
            assert(preload_names()[18] == "TERMINAL"@);
            assert("/"@.len() == 1);
            assert("TERMINAL"@.len() == 8);
        }
        else if j == 14 {
            assert(preload_names()[14] == "="@);
            assert(preload_names()[18] == "TERMINAL"@);
            assert("="@.len() == 1);
            assert("TERMINAL"@.len() == 8);
        }
        else if j == 15 {
            assert(preload_names()[15] == "EQ"@);
            assert(preload_names()[18] == "TERMINAL"@);
            assert("EQ"@.len() == 2);
            assert("TERMINAL"@.len() == 8);
        }
        else if j == 16 {
            assert(preload_names()[16] == "CURRENT-ENV"@);
            assert(preload_names()[18] == "TERMINAL"@);
            assert("CURRENT-ENV"@.len() == 11);
            assert("TERMINAL"@.len() == 8);
        }
        else if j == 17 {
            assert(preload_names()[17] == "IF"@);
            assert(preload_names()[18] == "TERMINAL"@);
            assert("IF"@.len() == 2);
            assert("TERMINAL"@.len() == 8);
        }
    }
}

proof fn lemma_preload_fresh_19()
    ensures
        forall|j: int| 0 <= j < 19 ==> #[trigger] preload_names()[j] != preload_names()[19],
{
    reveal_strlit("NIL");
    reveal_strlit("T");
    reveal_strlit("QUOTE");
    reveal_strlit("LAMBDA");
    reveal_strlit("_");
    reveal_strlit("LET*");
    reveal_strlit("LETREC*");
    reveal_strlit("CAR");
    reveal_strlit("CDR");
    reveal_strlit("ATOM");
    reveal_strlit("+");
    reveal_strlit("-");
    reveal_strlit("*");
    reveal_strlit("/");
    reveal_strlit("=");
    reveal_strlit("EQ");
    reveal_strlit("CURRENT-ENV");
    reveal_strlit("IF");
    reveal_strlit("TERMINAL");
    reveal_strlit("DUMMY");
    reveal_strlit("OUTERMOST");
    reveal_strlit("ERROR");
    lemma_preload_names_index();
    assert forall|j: int| 0 <= j < 19 implies #[trigger] preload_names()[j] != preload_names()[19] by {
        if j == 0 {
            assert(preload_names()[0] == "NIL"@);
            assert(preload_names()[19] == "DUMMY"@);
            assert("NIL"@.len() == 3);
            assert("DUMMY"@.len() == 5);
        }
        else if j == 1 {
            assert(preload_names()[1] == "T"@);
            assert(preload_names()[19] == "DUMMY"@);
            assert("T"@.len() == 1);
            assert("DUMMY"@.len() == 5);
        }
        else if j == 2 {
            assert(preload_names()[2] == "QUOTE"@);
            assert(preload_names()[19] == "DUMMY"@);
            assert("QUOTE"@.len() == 5);
            assert("DUMMY"@.len() == 5);
            assert("QUOTE"@[0] != "DUMMY"@[0]);
        }
        else if j == 3 {
            assert(preload_names()[3] == "LAMBDA"@);
            assert(preload_names()[19] == "DUMMY"@);
            assert("LAMBDA"@.len() == 6);
            assert("DUMMY"@.len() == 5);
        }
        else if j == 4 {
            assert(preload_names()[4] == "_"@);
            assert(preload_names()[19] == "DUMMY"@);
            assert("_"@.len() == 1);
            assert("DUMMY"@.len() == 5);
        }
        else if j == 5 {
            assert(preload_names()[5] == "LET*"@);
            assert(preload_names()[19] == "DUMMY"@);
            assert("LET*"@.len() == 4);
            assert("DUMMY"@.len() == 5);
        }
        else if j == 6 {
            assert(preload_names()[6] == "LETREC*"@);
            assert(preload_names()[19] == "DUMMY"@);
            assert("LETREC*"@.len() == 7);
            assert("DUMMY"@.len() == 5);
        }
        else if j == 7 {
            assert(preload_names()[7] == "CAR"@);
            assert(preload_names()[19] == "DUMMY"@);
            assert("CAR"@.len() == 3);
            assert("DUMMY"@.len() == 5);
        }
        else if j == 8 {
            assert(preload_names()[8] == "CDR"@);
            assert(preload_names()[19] == "DUMMY"@);
            assert("CDR"@.len() == 3);
            assert("DUMMY"@.len() == 5);
        }
        else if j == 9 {
            assert(preload_names()[9] == "ATOM"@);
            assert(preload_names()[19] == "DUMMY"@);
            assert("ATOM"@.len() == 4);
            assert("DUMMY"@.len() == 5);
        }
        else if j == 10 {
            assert(preload_names()[10] == "+"@);
            assert(preload_names()[19] == "DUMMY"@);
            assert("+"@.len() == 1);
            assert("DUMMY"@.len() == 5);
        }
        else if j == 11 {
            assert(preload_names()[11] == "-"@);
            assert(preload_names()[19] == "DUMMY"@);
            assert("-"@.len() == 1);
            assert("DUMMY"@.len() == 5);
        }
        else if j == 12 {
            assert(preload_names()[12] == "*"@);
            assert(preload_names()[19] == "DUMMY"@);
            assert("*"@.len() == 1);
            assert("DUMMY"@.len() == 5);
        }
        else if j == 13 {
            assert(preload_names()[13] == "/"@);
            assert(preload_names()[19] == "DUMMY"@);
            assert("/"@.len() == 1);
            assert("DUMMY"@.len() == 5);
        }
        else if j == 14 {
            assert(preload_names()[14] == "="@);
            assert(preload_names()[19] == "DUMMY"@);
            assert("="@.len() == 1);
            assert("DUMMY"@.len() == 5);
        }
        else if j == 15 {
            assert(preload_names()[15] == "EQ"@);
            assert(preload_names()[19] == "DUMMY"@);
            assert("EQ"@.len() == 2);
            assert("DUMMY"@.len() == 5);
        }
        else if j == 16 {
            assert(preload_names()[16] == "CURRENT-ENV"@);
            assert(preload_names()[19] == "DUMMY"@);
            assert("CURRENT-ENV"@.len() == 11);
            assert("DUMMY"@.len() == 5);
        }
        else if j == 17 {
            assert(preload_names()[17] == "IF"@);
            assert(preload_names()[19] == "DUMMY"@);
            assert("IF"@.len() == 2);
            assert("DUMMY"@.len() == 5);
        }
        else if j == 18 {
            assert(preload_names()[18] == "TERMINAL"@);
            assert(preload_names()[19] == "DUMMY"@);
            assert("TERMINAL"@.len() == 8);
            assert("DUMMY"@.len() == 5);
        }
    }
}

proof fn lemma_preload_fresh_20()
    ensures
        forall|j: int| 0 <= j < 20 ==> #[trigger] preload_names()[j] != preload_names()[20],
{
    reveal_strlit("NIL");
    reveal_strlit("T");
    reveal_strlit("QUOTE");
    reveal_strlit("LAMBDA");
    reveal_strlit("_");
    reveal_strlit("LET*");
    reveal_strlit("LETREC*");
    reveal_strlit("CAR");
    reveal_strlit("CDR");
    reveal_strlit("ATOM");
    reveal_strlit("+");
    reveal_strlit("-");
    reveal_strlit("*");
    reveal_strlit("/");
    reveal_strlit("=");
    reveal_strlit("EQ");
    reveal_strlit("CURRENT-ENV");
    reveal_strlit("IF");
    reveal_strlit("TERMINAL");
    reveal_strlit("DUMMY");
    reveal_strlit("OUTERMOST");
    reveal_strlit("ERROR");
    lemma_preload_names_index();
    assert forall|j: int| 0 <= j < 20 implies #[trigger] preload_names()[j] != preload_names()[20] by {
        if j == 0 {
            assert(preload_names()[0] == "NIL"@);
            assert(preload_names()[20] == "OUTERMOST"@);
            assert("NIL"@.len() == 3);
            assert("OUTERMOST"@.len() == 9);
        }
        else if j == 1 {
            assert(preload_names()[1] == "T"@);
            assert(preload_names()[20] == "OUTERMOST"@);
            assert("T"@.len() == 1);
            assert("OUTERMOST"@.len() == 9);
        }
        else if j == 2 {
            assert(preload_names()[2] == "QUOTE"@);
            assert(preload_names()[20] == "OUTERMOST"@);
            assert("QUOTE"@.len() == 5);
            assert("OUTERMOST"@.len() == 9);
        }
        else if j == 3 {
            assert(preload_names()[3] == "LAMBDA"@);
            assert(preload_names()[20] == "OUTERMOST"@);
            assert("LAMBDA"@.len() == 6);
            assert("OUTERMOST"@.len() == 9);
        }
        else if j == 4 {
            assert(preload_names()[4] == "_"@);
            assert(preload_names()[20] == "OUTERMOST"@);
            assert("_"@.len() == 1);
            assert("OUTERMOST"@.len() == 9);
        }
        else if j == 5 {
            assert(preload_names()[5] == "LET*"@);
            assert(preload_names()[20] == "OUTERMOST"@);
            assert("LET*"@.len() == 4);
            assert("OUTERMOST"@.len() == 9);
        }
        else if j == 6 {
            assert(preload_names()[6] == "LETREC*"@);
            assert(preload_names()[20] == "OUTERMOST"@);
            assert("LETREC*"@.len() == 7);
            assert("OUTERMOST"@.len() == 9);
        }
        else if j == 7 {
            assert(preload_names()[7] == "CAR"@);
            assert(preload_names()[20] == "OUTERMOST"@);
            assert("CAR"@.len() == 3);
            assert("OUTERMOST"@.len() == 9);
        }
        else if j == 8 {
            assert(preload_names()[8] == "CDR"@);
            assert(preload_names()[20] == "OUTERMOST"@);
            assert("CDR"@.len() == 3);
            assert("OUTERMOST"@.len() == 9);
        }
        else if j == 9 {
            assert(preload_names()[9] == "ATOM"@);
            assert(preload_names()[20] == "OUTERMOST"@);
            assert("ATOM"@.len() == 4);
            assert("OUTERMOST"@.len() == 9);
        }
        else if j == 10 {
            assert(preload_names()[10] == "+"@);
            assert(preload_names()[20] == "OUTERMOST"@);
            assert("+"@.len() == 1);
            assert("OUTERMOST"@.len() == 9);
        }
        else if j == 11 {
            assert(preload_names()[11] == "-"@);
            assert(preload_names()[20] == "OUTERMOST"@);
            assert("-"@.len() == 1);
            assert("OUTERMOST"@.len() == 9);
        }
        else if j == 12 {
            assert(preload_names()[12] == "*"@);
            assert(preload_names()[20] == "OUTERMOST"@);
            assert("*"@.len() == 1);
            assert("OUTERMOST"@.len() == 9);
        }
        else if j == 13 {
            assert(preload_names()[13] == "/"@);
            assert(preload_names()[20] == "OUTERMOST"@);
            assert("/"@.len() == 1);
            assert("OUTERMOST"@.len() == 9);
        }
        else if j == 14 {
            assert(preload_names()[14] == "="@);
            assert(preload_names()[20] == "OUTERMOST"@);
            assert("="@.len() == 1);
            assert("OUTERMOST"@.len() == 9);
        }
        else if j == 15 {
            assert(preload_names()[15] == "EQ"@);
            assert(preload_names()[20] == "OUTERMOST"@);
            assert("EQ"@.len() == 2);
            assert("OUTERMOST"@.len() == 9);
        }
        else if j == 16 {
            assert(preload_names()[16] == "CURRENT-ENV"@);
            assert(preload_names()[20] == "OUTERMOST"@);
            assert("CURRENT-ENV"@.len() == 11);
            assert("OUTERMOST"@.len() == 9);
        }
        else if j == 17 {
            assert(preload_names()[17] == "IF"@);
            assert(preload_names()[20] == "OUTERMOST"@);
            assert("IF"@.len() == 2);
            assert("OUTERMOST"@.len() == 9);
        }
        else if j == 18 {
            assert(preload_names()[18] == "TERMINAL"@);
            assert(preload_names()[20] == "OUTERMOST"@);
            assert("TERMINAL"@.len() == 8);
            assert("OUTERMOST"@.len() == 9);
        }
        else if j == 19 {
            assert(preload_names()[19] == "DUMMY"@);
            assert(preload_names()[20] == "OUTERMOST"@);
            assert("DUMMY"@.len() == 5);
            assert("OUTERMOST"@.len() == 9);
        }
    }
}

proof fn lemma_preload_fresh_21()
    ensures
        forall|j: int| 0 <= j < 21 ==> #[trigger] preload_names()[j] != preload_names()[21],
{
    reveal_strlit("NIL");
    reveal_strlit("T");
    reveal_strlit("QUOTE");
    reveal_strlit("LAMBDA");
    reveal_strlit("_");
    reveal_strlit("LET*");
    reveal_strlit("LETREC*");
    reveal_strlit("CAR");
    reveal_strlit("CDR");
    reveal_strlit("ATOM");
    reveal_strlit("+");
    reveal_strlit("-");
    reveal_strlit("*");
    reveal_strlit("/");
    reveal_strlit("=");
    reveal_strlit("EQ");
    reveal_strlit("CURRENT-ENV");
    reveal_strlit("IF");
    reveal_strlit("TERMINAL");
    reveal_strlit("DUMMY");
    reveal_strlit("OUTERMOST");
    reveal_strlit("ERROR");
    lemma_preload_names_index();
    assert forall|j: int| 0 <= j < 21 implies #[trigger] preload_names()[j] != preload_names()[21] by {
        if j == 0 {
            assert(preload_names()[0] == "NIL"@);
            assert(preload_names()[21] == "ERROR"@);
            assert("NIL"@.len() == 3);
            assert("ERROR"@.len() == 5);
        }
        else if j == 1 {
            assert(preload_names()[1] == "T"@);
            assert(preload_names()[21] == "ERROR"@);
            assert("T"@.len() == 1);
            assert("ERROR"@.len() == 5);
        }
        else if j == 2 {
            assert(preload_names()[2] == "QUOTE"@);
            assert(preload_names()[21] == "ERROR"@);
            assert("QUOTE"@.len() == 5);
            assert("ERROR"@.len() == 5);
            assert("QUOTE"@[0] != "ERROR"@[0]);
        }
        else if j == 3 {
            assert(preload_names()[3] == "LAMBDA"@);
            assert(preload_names()[21] == "ERROR"@);
            assert("LAMBDA"@.len() == 6);
            assert("ERROR"@.len() == 5);
        }
        else if j == 4 {
            assert(preload_names()[4] == "_"@);
            assert(preload_names()[21] == "ERROR"@);
            assert("_"@.len() == 1);
            assert("ERROR"@.len() == 5);
        }
        else if j == 5 {
            assert(preload_names()[5] == "LET*"@);
            assert(preload_names()[21] == "ERROR"@);
            assert("LET*"@.len() == 4);
            assert("ERROR"@.len() == 5);
        }
        else if j == 6 {
            assert(preload_names()[6] == "LETREC*"@);
            assert(preload_names()[21] == "ERROR"@);
            assert("LETREC*"@.len() == 7);
            assert("ERROR"@.len() == 5);
        }
        else if j == 7 {
            assert(preload_names()[7] == "CAR"@);
            assert(preload_names()[21] == "ERROR"@);
            assert("CAR"@.len() == 3);
            assert("ERROR"@.len() == 5);
        }
        else if j == 8 {
            assert(preload_names()[8] == "CDR"@);
            assert(preload_names()[21] == "ERROR"@);
            assert("CDR"@.len() == 3);
            assert("ERROR"@.len() == 5);
        }
        else if j == 9 {
            assert(preload_names()[9] == "ATOM"@);
            assert(preload_names()[21] == "ERROR"@);
            assert("ATOM"@.len() == 4);
            assert("ERROR"@.len() == 5);
        }
        else if j == 10 {
            assert(preload_names()[10] == "+"@);
            assert(preload_names()[21] == "ERROR"@);
            assert("+"@.len() == 1);
            assert("ERROR"@.len() == 5);
        }
        else if j == 11 {
            assert(preload_names()[11] == "-"@);
            assert(preload_names()[21] == "ERROR"@);
            assert("-"@.len() == 1);
            assert("ERROR"@.len() == 5);
        }
        else if j == 12 {
            assert(preload_names()[12] == "*"@);
            assert(preload_names()[21] == "ERROR"@);
            assert("*"@.len() == 1);
            assert("ERROR"@.len() == 5);
        }
        else if j == 13 {
            assert(preload_names()[13] == "/"@);
            assert(preload_names()[21] == "ERROR"@);
            assert("/"@.len() == 1);
            assert("ERROR"@.len() == 5);
        }
        else if j == 14 {
            assert(preload_names()[14] == "="@);
            assert(preload_names()[21] == "ERROR"@);
            assert("="@.len() == 1);
            assert("ERROR"@.len() == 5);
        }
        else if j == 15 {
            assert(preload_names()[15] == "EQ"@);
            assert(preload_names()[21] == "ERROR"@);
            assert("EQ"@.len() == 2);
            assert("ERROR"@.len() == 5);
        }
        else if j == 16 {
            assert(preload_names()[16] == "CURRENT-ENV"@);
            assert(preload_names()[21] == "ERROR"@);
            assert("CURRENT-ENV"@.len() == 11);
            assert("ERROR"@.len() == 5);
        }
        else if j == 17 {
            assert(preload_names()[17] == "IF"@);
            assert(preload_names()[21] == "ERROR"@);
            assert("IF"@.len() == 2);
            assert("ERROR"@.len() == 5);
        }
        else if j == 18 {
            assert(preload_names()[18] == "TERMINAL"@);
            assert(preload_names()[21] == "ERROR"@);
            assert("TERMINAL"@.len() == 8);
            assert("ERROR"@.len() == 5);
        }
        else if j == 19 {
            assert(preload_names()[19] == "DUMMY"@);
            assert(preload_names()[21] == "ERROR"@);
            assert("DUMMY"@.len() == 5);
            assert("ERROR"@.len() == 5);
            assert("DUMMY"@[0] != "ERROR"@[0]);
        }
        else if j == 20 {
            assert(preload_names()[20] == "OUTERMOST"@);
            assert(preload_names()[21] == "ERROR"@);
            assert("OUTERMOST"@.len() == 9);
            assert("ERROR"@.len() == 5);
        }
    }
}


proof fn lemma_preload_names_index()
    ensures
        preload_names().len() == 22,
        preload_names()[0] == "NIL"@,
        preload_names()[1] == "T"@,
        preload_names()[2] == "QUOTE"@,
        preload_names()[3] == "LAMBDA"@,
        preload_names()[4] == "_"@,
        preload_names()[5] == "LET*"@,
        preload_names()[6] == "LETREC*"@,
        preload_names()[7] == "CAR"@,
        preload_names()[8] == "CDR"@,
        preload_names()[9] == "ATOM"@,
        preload_names()[10] == "+"@,
        preload_names()[11] == "-"@,
        preload_names()[12] == "*"@,
        preload_names()[13] == "/"@,
        preload_names()[14] == "="@,
        preload_names()[15] == "EQ"@,
        preload_names()[16] == "CURRENT-ENV"@,
        preload_names()[17] == "IF"@,
        preload_names()[18] == "TERMINAL"@,
        preload_names()[19] == "DUMMY"@,
        preload_names()[20] == "OUTERMOST"@,
        preload_names()[21] == "ERROR"@,
{
}

proof fn lemma_sym_names_index(e: Seq<(usize, Seq<char>)>, j: int)
    requires
        0 <= j < e.len(),
    ensures
        sym_names(e).len() == e.len(),
        sym_names(e)[j] == e[j].1,
{
}

} // verus!
