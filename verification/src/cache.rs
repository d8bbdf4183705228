//! The Poseidon hash cache: one get-or-compute memoization map per arity,
//! sharing lazily built parameter sets.

use crate::model::chunk_elem;
use crate::model::str_byte_len;
use crate::model::str_digest;
use crate::model::str_digest_loop;
use crate::field::fe_from_u64;
use vstd::string::StringSliceAdditionalSpecFns;
use crate::poseidon::constants_new;
use crate::poseidon::poseidon4_of;
use crate::poseidon::poseidon6_of;
use crate::poseidon::poseidon8_of;
use crate::poseidon::poseidon_hash4;
use crate::poseidon::poseidon_hash6;
use crate::poseidon::poseidon_hash8;
use crate::poseidon::HashConstants;
use crate::tables::cache_empty;
use crate::tables::cache_entries;
use crate::tables::cache_get;
use crate::tables::cache_insert;
use crate::tables::cache_new;
use crate::tables::CacheMap;
use vstd::prelude::*;

verus! {

/// One map keeps every binding of the other.
pub open spec fn map_extends<K, V>(m1: Map<K, V>, m2: Map<K, V>) -> bool {
    forall|k: K| #[trigger]
        m1.contains_key(k) ==> m2.contains_key(k) && m2[k] == m1[k]
}

/// A copy of a byte vector.
pub(crate) fn copy_bytes(v: &Vec<u8>) -> (r: Vec<u8>)
    ensures
        r@ == v@,
{
    let mut r: Vec<u8> = Vec::new();
    let n = v.len();
    let mut i: usize = 0;
    while i < n
        invariant
            n == v@.len(),
            i <= n,
            r@ == v@.take(i as int),
        decreases n - i,
    {
        r.push(v[i]);
        proof {
            assert(r@ =~= v@.take(i + 1));
        }
        i += 1;
    }
    proof {
        assert(v@.take(n as int) =~= v@);
    }
    r
}

/// A copy of a preimage: a vector of byte vectors.
pub(crate) fn copy_preimage(v: &Vec<Vec<u8>>) -> (r: Vec<Vec<u8>>)
    ensures
        r.deep_view() == v.deep_view(),
{
    let mut r: Vec<Vec<u8>> = Vec::new();
    let n = v.len();
    let mut i: usize = 0;
    while i < n
        invariant
            n == v@.len(),
            i <= n,
            r@.len() == i,
            forall|j: int| 0 <= j < i ==> #[trigger] r@[j]@ == v@[j]@,
        decreases n - i,
    {
        r.push(copy_bytes(&v[i]));
        i += 1;
    }
    proof {
        assert(r.deep_view() =~= v.deep_view());
    }
    r
}

/// Memoizes Poseidon digests: one concurrent map per arity, from preimage
/// to digest, plus the lazily initialized parameter sets.
pub(crate) struct PoseidonCache {
    pub(crate) a4: CacheMap,
    pub(crate) a6: CacheMap,
    pub(crate) a8: CacheMap,
    pub(crate) constants: HashConstants,
}

impl PoseidonCache {
    /// Every cached digest is the Poseidon digest of its preimage.
    pub(crate) open spec fn wf(self) -> bool {
        &&& forall|k: Seq<Seq<u8>>| #[trigger]
            cache_entries(self.a4).contains_key(k) ==> cache_entries(self.a4)[k] == poseidon4_of(k)
        &&& forall|k: Seq<Seq<u8>>| #[trigger]
            cache_entries(self.a6).contains_key(k) ==> cache_entries(self.a6)[k] == poseidon6_of(k)
        &&& forall|k: Seq<Seq<u8>>| #[trigger]
            cache_entries(self.a8).contains_key(k) ==> cache_entries(self.a8)[k] == poseidon8_of(k)
    }

    pub(crate) fn new() -> (r: PoseidonCache)
        ensures
            r.wf(),
            cache_entries(r.a4) == cache_empty(),
            cache_entries(r.a6) == cache_empty(),
            cache_entries(r.a8) == cache_empty(),
    {
        PoseidonCache { a4: cache_new(), a6: cache_new(), a8: cache_new(), constants: constants_new() }
    }

    /// The arity-4 digest of the preimage, from the cache or freshly
    /// computed and recorded.
    pub(crate) fn hash4(&mut self, preimage: &Vec<Vec<u8>>) -> (r: Vec<u8>)
        requires
            old(self).wf(),
            preimage.deep_view().len() == 4,
        ensures
            final(self).wf(),
            r@ == poseidon4_of(preimage.deep_view()),
            cache_entries(final(self).a4).contains_key(preimage.deep_view()),
            map_extends(cache_entries(old(self).a4), cache_entries(final(self).a4)),
            cache_entries(final(self).a6) == cache_entries(old(self).a6),
            cache_entries(final(self).a8) == cache_entries(old(self).a8),
    {
        match cache_get(&self.a4, preimage) {
            Some(v) => v,
            None => {
                let d = poseidon_hash4(&self.constants, preimage);
                let key = copy_preimage(preimage);
                let stored = copy_bytes(&d);
                cache_insert(&mut self.a4, key, stored);
                d
            },
        }
    }

    /// The arity-6 digest of the preimage; see `hash4`.
    pub(crate) fn hash6(&mut self, preimage: &Vec<Vec<u8>>) -> (r: Vec<u8>)
        requires
            old(self).wf(),
            preimage.deep_view().len() == 6,
        ensures
            final(self).wf(),
            r@ == poseidon6_of(preimage.deep_view()),
            cache_entries(final(self).a6).contains_key(preimage.deep_view()),
            map_extends(cache_entries(old(self).a6), cache_entries(final(self).a6)),
            cache_entries(final(self).a4) == cache_entries(old(self).a4),
            cache_entries(final(self).a8) == cache_entries(old(self).a8),
    {
        match cache_get(&self.a6, preimage) {
            Some(v) => v,
            None => {
                let d = poseidon_hash6(&self.constants, preimage);
                let key = copy_preimage(preimage);
                let stored = copy_bytes(&d);
                cache_insert(&mut self.a6, key, stored);
                d
            },
        }
    }

    /// The arity-8 digest of the preimage; see `hash4`.
    pub(crate) fn hash8(&mut self, preimage: &Vec<Vec<u8>>) -> (r: Vec<u8>)
        requires
            old(self).wf(),
            preimage.deep_view().len() == 8,
        ensures
            final(self).wf(),
            r@ == poseidon8_of(preimage.deep_view()),
            cache_entries(final(self).a8).contains_key(preimage.deep_view()),
            map_extends(cache_entries(old(self).a8), cache_entries(final(self).a8)),
            cache_entries(final(self).a4) == cache_entries(old(self).a4),
            cache_entries(final(self).a6) == cache_entries(old(self).a6),
    {
        match cache_get(&self.a8, preimage) {
            Some(v) => v,
            None => {
                let d = poseidon_hash8(&self.constants, preimage);
                let key = copy_preimage(preimage);
                let stored = copy_bytes(&d);
                cache_insert(&mut self.a8, key, stored);
                d
            },
        }
    }
}


impl PoseidonCache {
    /// The digest of a string: its byte length as a field element, folded
    /// over the codepoints in chunks of seven through the arity-8 hash.
    pub(crate) fn hash_string(&mut self, s: &str) -> (r: Vec<u8>)
        requires
            old(self).wf(),
        ensures
            final(self).wf(),
            r@ == str_digest(s@),
            map_extends(cache_entries(old(self).a8), cache_entries(final(self).a8)),
            cache_entries(final(self).a4) == cache_entries(old(self).a4),
            cache_entries(final(self).a6) == cache_entries(old(self).a6),
    {
        let ghost c0 = *self;
        let blen = s.len();
        let n = s.unicode_len();
        let mut x = fe_from_u64(blen as u64);
        proof {
            assert(s.spec_bytes() == vstd::utf8::encode_utf8(s@));
            assert(str_byte_len(s@) == s.spec_bytes().len());
            assert((str_byte_len(s@) as usize) == blen);
            assert(s@.skip(0) =~= s@);
        }
        let mut i: usize = 0;
        while i < n
            invariant
                self.wf(),
                n == s@.len(),
                i <= n,
                str_digest_loop(x@, s@.skip(i as int)) == str_digest(s@),
                map_extends(cache_entries(c0.a8), cache_entries(self.a8)),
                cache_entries(self.a4) == cache_entries(c0.a4),
                cache_entries(self.a6) == cache_entries(c0.a6),
            decreases n - i,
        {
            let ghost rest = s@.skip(i as int);
            let ghost x0 = x@;
            let ghost cpre = *self;
            let mut pre: Vec<Vec<u8>> = Vec::new();
            pre.push(x);
            let mut j: usize = 0;
            while j < 7
                invariant
                    j <= 7,
                    pre.deep_view().len() == j + 1,
                    pre.deep_view()[0] == x0,
                    forall|t: int| 0 <= t < j ==> pre.deep_view()[t + 1] == chunk_elem(rest, t),
                    n == s@.len(),
                    i < n,
                    rest == s@.skip(i as int),
                decreases 7 - j,
            {
                if j < n - i {
                    let c = s.get_char(i + j);
                    proof {
                        assert(rest[j as int] == s@[i + j]);
                    }
                    pre.push(fe_from_u64((c as u32) as u64));
                } else {
                    pre.push(fe_from_u64(0));
                }
                j += 1;
            }
            proof {
                assert(pre.deep_view() =~= seq![
                    x0,
                    chunk_elem(rest, 0),
                    chunk_elem(rest, 1),
                    chunk_elem(rest, 2),
                    chunk_elem(rest, 3),
                    chunk_elem(rest, 4),
                    chunk_elem(rest, 5),
                    chunk_elem(rest, 6),
                ]);
            }
            x = self.hash8(&pre);
            if n - i <= 7 {
                i = n;
                proof {
                    assert(rest.len() <= 7);
                    assert(s@.skip(n as int) =~= Seq::<char>::empty());
                }
            } else {
                i = i + 7;
                proof {
                    assert(s@.skip(i - 7).skip(7) =~= s@.skip(i as int));
                }
            }
        }
        proof {
            assert(s@.skip(n as int) =~= Seq::<char>::empty());
        }
        x
    }
}

} // verus!
