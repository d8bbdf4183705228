use ff::PrimeField;
use scalar_store::expr::Expression;
use scalar_store::expr::Num;
use scalar_store::ptr::RawPtr;
use scalar_store::ptr::Ptr;
use scalar_store::store::Store;
use scalar_store::tags::ContTag;
use scalar_store::tags::Tag;

#[test]
fn test_print_num() {
    let mut store = Store::default();
    let num = store.num(5);
    let res = match store.fetch(&num) {
        Some(Expression::Num(n)) => n.fmt_to_string(),
        _ => panic!("num expected"),
    };
    assert_eq!(&res, &"Num(0x5)");
}

#[test]
fn tag_vals() {
    assert_eq!(0, Tag::Nil as u64);
    assert_eq!(1, Tag::Cons as u64);
    assert_eq!(2, Tag::Sym as u64);
    assert_eq!(3, Tag::Fun as u64);
    assert_eq!(4, Tag::Num as u64);
    assert_eq!(5, Tag::Thunk as u64);
    assert_eq!(6, Tag::Str as u64);
}

#[test]
fn cont_tag_vals() {
    assert_eq!(0b0001_0000_0000_0000, ContTag::Outermost.to_u64());
    assert_eq!(0b0001_0000_0000_0001, ContTag::Simple.to_u64());
    assert_eq!(0b0001_0000_0000_0010, ContTag::Call.to_u64());
    assert_eq!(0b0001_0000_0000_0011, ContTag::Call2.to_u64());
    assert_eq!(0b0001_0000_0000_0100, ContTag::Tail.to_u64());
    assert_eq!(0b0001_0000_0000_0101, ContTag::Error.to_u64());
    assert_eq!(0b0001_0000_0000_0110, ContTag::Lookup.to_u64());
    assert_eq!(0b0001_0000_0000_0111, ContTag::Unop.to_u64());
    assert_eq!(0b0001_0000_0000_1000, ContTag::Binop.to_u64());
    assert_eq!(0b0001_0000_0000_1001, ContTag::Binop2.to_u64());
    assert_eq!(0b0001_0000_0000_1010, ContTag::Relop.to_u64());
    assert_eq!(0b0001_0000_0000_1011, ContTag::Relop2.to_u64());
    assert_eq!(0b0001_0000_0000_1100, ContTag::If.to_u64());
    assert_eq!(0b0001_0000_0000_1101, ContTag::LetStar.to_u64());
    assert_eq!(0b0001_0000_0000_1110, ContTag::LetRecStar.to_u64());
    assert_eq!(0b0001_0000_0000_1111, ContTag::Dummy.to_u64());
    assert_eq!(0b0001_0000_0001_0000, ContTag::Terminal.to_u64());
}

#[test]
fn store() {
    let mut store = Store::default();

    let num_ptr = store.num(123);
    let num = store.fetch(&num_ptr).unwrap();
    let num_again = store.fetch(&num_ptr).unwrap();

    assert_eq!(num, num_again);
}

#[test]
fn equality() {
    let mut store = Store::default();

    let (a, b) = (store.num(123), store.sym("pumpkin"));
    let cons1 = store.intern_cons(a, b);
    let (a, b) = (store.num(123), store.sym("pumpkin"));
    let cons2 = store.intern_cons(a, b);

    assert_eq!(cons1, cons2);
    assert_eq!(store.car(&cons1), store.car(&cons2));
    assert_eq!(store.cdr(&cons1), store.cdr(&cons2));

    let (a, d) = store.car_cdr(&cons1);
    assert_eq!(store.car(&cons1), a);
    assert_eq!(store.cdr(&cons1), d);
}

#[test]
fn sym_case_conversion() {
    let mut store = Store::new();
    let upper = store.sym("T");
    let lower = store.sym("t");
    assert_eq!(upper, lower);
    let nil1 = store.sym("NIL");
    let nil2 = store.sym("nil");
    let nil3 = store.get_nil();
    assert_eq!(nil1, nil2);
    assert_eq!(nil1, nil3);
    assert!(nil1.is_nil());
    assert!(nil2.is_nil());
}

#[test]
fn nil_hashes_as_symbol() {
    let mut store = Store::new();
    let nil = store.get_nil();
    let h1 = store.hash_nil().unwrap();
    let h2 = store.hash_sym(nil).unwrap();
    assert_eq!(h1, h2);
    // the nil tag injects as the field element zero
    let zero = blstrs::Scalar::from(0u64);
    assert_eq!(h1.tag().as_slice(), zero.to_repr().as_ref());
}

#[test]
fn num_hash_is_identity() {
    let mut store = Store::new();
    let five = store.num(5);
    let h = store.hash_expr(&five).unwrap();
    let n = Num::new(5);
    assert_eq!(h.value(), &n.into_scalar());
    // the scalar injection of a machine integer is its little-endian bytes
    let mut expected = vec![0u8; 32];
    expected[0] = 5;
    assert_eq!(h.value(), &expected);
}

#[test]
fn list_is_right_fold() {
    let mut store = Store::new();
    let one = store.num(1);
    let two = store.num(2);
    let elts = vec![one, two];
    let list = store.intern_list(&elts);
    let nil = store.get_nil();
    let tail = store.cons(two, nil);
    let expected = store.cons(one, tail);
    assert_eq!(list, expected);
    let empty: Vec<Ptr> = Vec::new();
    let empty_list = store.intern_list(&empty);
    assert!(empty_list.is_nil());
}

#[test]
fn empty_string_interns_and_hashes() {
    let mut store = Store::new();
    let empty = store.intern_str("");
    let h_empty = store.hash_expr(&empty).unwrap();
    let ha = store.intern_str("a");
    let h_a = store.hash_expr(&ha).unwrap();
    let hb = store.intern_str("pumpkin");
    let h_b = store.hash_expr(&hb).unwrap();
    assert_ne!(h_empty.value(), h_a.value());
    assert_ne!(h_empty.value(), h_b.value());
    // the empty string's digest is the zero length prefix itself
    let zero = vec![0u8; 32];
    assert_eq!(h_empty.value(), &zero);
}

#[test]
fn hashing_is_deterministic_across_stores() {
    let mut s1 = Store::new();
    let mut s2 = Store::new();
    let a1 = s1.num(42);
    let b1 = s1.sym("pumpkin");
    let c1 = s1.intern_cons(a1, b1);
    let a2 = s2.num(42);
    let b2 = s2.sym("pumpkin");
    let c2 = s2.intern_cons(a2, b2);
    let h1 = s1.hash_expr(&c1).unwrap();
    let h1_again = s1.hash_expr(&c1).unwrap();
    let h2 = s2.hash_expr(&c2).unwrap();
    assert_eq!(h1, h1_again);
    assert_eq!(h1, h2);
}

#[test]
fn tag_field_agreement() {
    let mut store = Store::new();
    let a = store.num(7);
    let b = store.sym("pumpkin");
    let c = store.intern_cons(a, b);
    for p in [a, b, c] {
        let h = store.hash_expr(&p).unwrap();
        assert_eq!(h.tag(), &p.tag_field());
    }
}

#[test]
fn reverse_map_round_trip() {
    let mut store = Store::new();
    let a = store.num(9);
    let b = store.sym("pumpkin");
    let c = store.intern_cons(a, b);
    let h = store.hash_expr(&c).unwrap();
    assert_eq!(store.fetch_scalar(&h), Some(c));
    let k = store.intern_cont_lookup(b, store.get_cont_outermost());
    let hk = store.hash_cont(&k).unwrap();
    assert_eq!(store.fetch_scalar_cont(&hk), Some(k));
}

#[test]
fn hydration_registers_scalars() {
    let mut store = Store::new();
    let a = store.num(11);
    let b = store.sym("pumpkin");
    let c = store.intern_cons(a, b);
    store.hydrate_scalar_cache();
    let h = store.hash_expr(&c).unwrap();
    assert_eq!(store.fetch_scalar(&h), Some(c));
    // hydrating twice is idempotent and safe
    store.hydrate_scalar_cache();
    let h2 = store.hash_expr(&c).unwrap();
    assert_eq!(h, h2);
}

#[test]
fn dangling_pointers_are_absent() {
    let store = Store::new();
    let bogus = Ptr::new(Tag::Cons, RawPtr::new(999));
    assert_eq!(store.fetch(&bogus), None);
    let mut store2 = Store::new();
    assert!(store2.hash_expr(&bogus).is_none());
}

#[test]
fn distinct_content_distinct_digests() {
    let mut store = Store::new();
    let a = store.sym("apple");
    let b = store.sym("banana");
    let ha = store.hash_expr(&a).unwrap();
    let hb = store.hash_expr(&b).unwrap();
    assert_ne!(ha.value(), hb.value());
    let n1 = store.num(1);
    let n2 = store.num(2);
    let c1 = store.cons(n1, n2);
    let c2 = store.cons(n2, n1);
    let hc1 = store.hash_expr(&c1).unwrap();
    let hc2 = store.hash_expr(&c2).unwrap();
    assert_ne!(hc1.value(), hc2.value());
}

#[test]
fn get_sym_and_get_str_lookup() {
    let mut store = Store::new();
    assert!(store.get_sym("pumpkin", true).is_none());
    let p = store.sym("pumpkin");
    assert_eq!(store.get_sym("pumpkin", true), Some(p));
    assert_eq!(store.get_sym("PUMPKIN", false), Some(p));
    assert_eq!(store.get_t(), store.sym("t"));
    assert!(store.get_str("carrot").is_none());
    let s = store.intern_str("carrot");
    assert_eq!(store.get_str("carrot"), Some(s));
}

#[test]
fn expression_views() {
    let mut store = Store::new();
    let sym = store.sym(":keyword");
    let view = store.fetch(&sym).unwrap();
    assert!(view.is_keyword_sym());
    assert_eq!(view.as_sym_str(), Some(":KEYWORD"));
    assert_eq!(view.as_str(), None);
    let st = store.intern_str("carrot");
    let view = store.fetch(&st).unwrap();
    assert_eq!(view.as_str(), Some("carrot"));
    assert!(!view.is_keyword_sym());
}

#[test]
fn fun_and_thunk_round_trip() {
    let mut store = Store::new();
    let arg = store.sym("x");
    let body = store.num(1);
    let env = store.get_nil();
    let f = store.intern_fun(arg, body, env);
    match store.fetch(&f) {
        Some(Expression::Fun(a, b, e)) => {
            assert_eq!(a, arg);
            assert_eq!(b, body);
            assert_eq!(e, env);
        },
        _ => panic!("fun expected"),
    }
    let k = store.get_cont_terminal();
    let t = store.intern_thunk(scalar_store::expr::Thunk::new(body, k));
    match store.fetch(&t) {
        Some(Expression::Thunk(th)) => {
            assert_eq!(th.value, body);
            assert_eq!(th.continuation, k);
        },
        _ => panic!("thunk expected"),
    }
    let hf = store.hash_expr(&f).unwrap();
    let ht = store.hash_expr(&t).unwrap();
    assert_ne!(hf.value(), ht.value());
}

#[test]
fn continuation_views() {
    let mut store = Store::new();
    let env = store.get_nil();
    let arg = store.sym("y");
    let outer = store.get_cont_outermost();
    let call = store.intern_cont_call(arg, env, outer);
    match store.fetch_cont(&call) {
        Some(scalar_store::expr::Continuation::Call(a, e, k)) => {
            assert_eq!(a, arg);
            assert_eq!(e, env);
            assert_eq!(k, outer);
        },
        _ => panic!("call expected"),
    }
    assert!(store.intern_cont_error().is_error());
}

#[test]
fn cont_hash_components_layout() {
    let mut store = Store::new();
    let env = store.get_nil();
    let arg = store.sym("z");
    let outer = store.get_cont_outermost();
    let call = store.intern_cont_call(arg, env, outer);
    let h_env = store.hash_expr(&env).unwrap();
    let h_arg = store.hash_expr(&arg).unwrap();
    let h_out = store.hash_cont(&outer).unwrap();
    let comps = store.get_hash_components_cont(&call).unwrap();
    assert_eq!(comps.len(), 8);
    // env precedes arg, then the continuation, then a zero slot
    assert_eq!(&comps[0], h_env.tag());
    assert_eq!(&comps[1], h_env.value());
    assert_eq!(&comps[2], h_arg.tag());
    assert_eq!(&comps[3], h_arg.value());
    assert_eq!(&comps[4], h_out.tag());
    assert_eq!(&comps[5], h_out.value());
    assert_eq!(comps[6], vec![0u8; 32]);
    assert_eq!(comps[7], vec![0u8; 32]);
}

#[test]
fn binop_hash_components_layout() {
    let mut store = Store::new();
    let env = store.get_nil();
    let n1 = store.num(1);
    let n2 = store.num(2);
    let args = store.cons(n1, n2);
    let outer = store.get_cont_outermost();
    let binop = store.intern_cont_binop(scalar_store::tags::Op2::Sum, env, args, outer);
    let h_env = store.hash_expr(&env).unwrap();
    let h_args = store.hash_expr(&args).unwrap();
    let h_out = store.hash_cont(&outer).unwrap();
    let comps = store.get_hash_components_cont(&binop).unwrap();
    let sum_field = blstrs::Scalar::from(scalar_store::tags::Op2::Sum.to_u64());
    assert_eq!(comps[0].as_slice(), sum_field.to_repr().as_ref());
    assert_eq!(comps[1], vec![0u8; 32]);
    assert_eq!(&comps[2], h_env.tag());
    assert_eq!(&comps[3], h_env.value());
    assert_eq!(&comps[4], h_args.tag());
    assert_eq!(&comps[5], h_args.value());
    assert_eq!(&comps[6], h_out.tag());
    assert_eq!(&comps[7], h_out.value());
}

#[test]
fn scalar_from_parts_only_after_hashing() {
    let mut store = Store::new();
    let n = store.num(77);
    let h = store.hash_expr(&n).unwrap();
    let tag_bytes = h.tag().clone();
    let value_bytes = h.value().clone();
    let rebuilt = store.scalar_from_parts(tag_bytes, value_bytes);
    assert_eq!(rebuilt, Some(store.hash_expr(&n).unwrap()));
    // a scalar never produced by hashing is not speculatively created
    let absent = store.scalar_from_parts(vec![1u8; 32], vec![2u8; 32]);
    assert_eq!(absent, None);
}

#[test]
fn preload_symbols_present() {
    let store = Store::default();
    for name in [
        "nil",
        "t",
        "quote",
        "lambda",
        "_",
        "let*",
        "letrec*",
        "car",
        "cdr",
        "atom",
        "+",
        "-",
        "*",
        "/",
        "=",
        "eq",
        "current-env",
        "if",
        "terminal",
        "dummy",
        "outermost",
        "error",
    ] {
        assert!(store.get_sym(name, true).is_some());
    }
    assert_eq!(store.get_sym("nil", true), Some(store.get_nil()));
    assert_eq!(store.get_sym("t", true), Some(store.get_t()));
    assert!(store.get_sym("pumpkin", true).is_none());
}

#[test]
fn intern_then_lookup_round_trip() {
    let mut store = Store::new();
    let s = store.intern_str("carrot");
    assert_eq!(store.get_str("carrot"), Some(s));
    let p = store.intern_sym("PUMPKIN");
    assert_eq!(store.get_sym("PUMPKIN", false), Some(p));
    assert_eq!(store.get_sym("pumpkin", true), Some(p));
}
