//! A bitmap of allocated ids: id `i` is taken when bit `i % 64` of word
//! `i / 64` is set. Allocation hands out the smallest free id.

use vstd::prelude::*;
use vstd::arithmetic::div_mod::lemma_fundamental_div_mod_converse;
use vstd::std_specs::bits::{u64_trailing_ones, axiom_u64_trailing_ones};

verus! {

/// Whether bit `b` of `w` is set.
pub open spec fn bit_set(w: u64, b: nat) -> bool {
    b < 64 && (w >> (b as u64)) & 1u64 == 1u64
}

/// The ids that a list of bitmap words marks as taken.
pub open spec fn bitmap_ids(words: Seq<u64>) -> Set<nat> {
    Set::new(|id: nat| id < words.len() * 64 && bit_set(words[(id / 64) as int], id % 64))
}

proof fn lemma_split_id(q: nat, r: nat)
    requires
        r < 64,
    ensures
        (q * 64 + r) / 64 == q,
        (q * 64 + r) % 64 == r,
{
    lemma_fundamental_div_mod_converse((q * 64 + r) as int, 64, q as int, r as int);
}

proof fn lemma_id_parts(id: nat, n: nat)
    requires
        id < n * 64,
    ensures
        id / 64 < n,
        id == (id / 64) * 64 + id % 64,
        id % 64 < 64,
{
    assert(id / 64 < n) by (nonlinear_arith)
        requires
            id < n * 64,
    ;
    assert(id == (id / 64) * 64 + id % 64) by (nonlinear_arith);
}

/// Setting bit `off` of `w` sets that bit and leaves the others.
proof fn lemma_set_bit(w: u64, off: u64, b: u64)
    requires
        off < 64,
        b < 64,
    ensures
        bit_set(w | (1u64 << off), b as nat) == (bit_set(w, b as nat) || b == off),
{
    assert(((w | (1u64 << off)) >> b) & 1u64 == 1u64 <==> ((w >> b) & 1u64 == 1u64 || b == off))
        by (bit_vector)
        requires
            off < 64,
            b < 64,
    ;
}

/// Clearing bit `off` of `w` clears that bit and leaves the others.
proof fn lemma_clear_bit(w: u64, off: u64, b: u64)
    requires
        off < 64,
        b < 64,
    ensures
        bit_set(w & !(1u64 << off), b as nat) == (bit_set(w, b as nat) && b != off),
{
    assert(((w & !(1u64 << off)) >> b) & 1u64 == 1u64 <==> ((w >> b) & 1u64 == 1u64 && b != off))
        by (bit_vector)
        requires
            off < 64,
            b < 64,
    ;
}

/// A set of ids below a fixed capacity, one bit each.
pub struct IdBitmap {
    words: Vec<u64>,
}

impl IdBitmap {
    /// The number of ids the bitmap can hold.
    pub closed spec fn capacity(&self) -> nat {
        (self.words.len() * 64) as nat
    }

    /// Every id below the capacity fits in a `u64`.
    pub closed spec fn well_formed(&self) -> bool {
        self.words.len() * 64 <= u64::MAX
    }

    /// The ids that are taken.
    pub closed spec fn ids(&self) -> Set<nat> {
        bitmap_ids(self.words@)
    }

    /// A bitmap of `words` words with every id free.
    pub fn new(words: usize) -> (r: Self)
        requires
            words * 64 <= u64::MAX,
        ensures
            r.well_formed(),
            r.capacity() == words * 64,
            r.ids() == Set::<nat>::empty(),
    {
        let mut v: Vec<u64> = Vec::new();
        while v.len() < words
            invariant
                v.len() <= words,
                forall|i: int| 0 <= i < v.len() ==> v@[i] == 0,
            decreases words - v.len(),
        {
            v.push(0);
        }
        let r = IdBitmap { words: v };
        assert forall|id: nat| !r.ids().contains(id) by {
            if id < v.len() * 64 {
                lemma_id_parts(id, v.len() as nat);
                let b = (id % 64) as u64;
                assert((0u64 >> b) & 1u64 == 0u64) by (bit_vector);
            }
        }
        assert(r.ids() =~= Set::<nat>::empty());
        r
    }

    /// Takes the smallest free id, or reports that none is free.
    pub fn take_smallest(&mut self) -> (r: Option<u64>)
        requires
            old(self).well_formed(),
        ensures
            final(self).well_formed(),
            final(self).capacity() == old(self).capacity(),
            match r {
                Some(id) => {
                    &&& id < old(self).capacity()
                    &&& !old(self).ids().contains(id as nat)
                    &&& forall|j: nat| j < id ==> #[trigger] old(self).ids().contains(j)
                    &&& final(self).ids() == old(self).ids().insert(id as nat)
                },
                None => {
                    &&& forall|j: nat| j < old(self).capacity() ==> #[trigger] old(self).ids().contains(j)
                    &&& final(self).ids() == old(self).ids()
                },
            },
    {
        let ghost s = self.ids();
        let mut idx: usize = 0;
        while idx < self.words.len()
            invariant
                s == self.ids(),
                s == bitmap_ids(self.words@),
                s == old(self).ids(),
                self.words@.len() == old(self).words@.len(),
                0 <= idx <= self.words.len(),
                self.words.len() * 64 <= u64::MAX,
                forall|j: nat| j < idx * 64 ==> #[trigger] s.contains(j),
            decreases self.words.len() - idx,
        {
            let w = self.words[idx];
            let offset = w.trailing_ones();
            proof {
                axiom_u64_trailing_ones(w);
            }
            if offset < 64 {
                let off = offset as u64;
                let nw = w | (1u64 << off);
                let ghost old_words = self.words@;
                self.words.set(idx, nw);
                let id = idx as u64 * 64 + off;
                proof {
                    lemma_split_id(idx as nat, off as nat);
                    assert(!bit_set(w, off as nat));
                    assert(!s.contains(id as nat));
                    assert forall|j: nat| j < id implies #[trigger] s.contains(j) by {
                        if j >= idx * 64 {
                            lemma_split_id(idx as nat, (j - idx * 64) as nat);
                            assert(j % 64 < off);
                            let jb = (j % 64) as u64;
                            assert((w >> jb) & 1u64 == 1u64);
                        }
                    }
                    assert forall|j: nat| #[trigger] self.ids().contains(j) <==> s.insert(id as nat).contains(j) by {
                        if j < self.words.len() * 64 {
                            lemma_id_parts(j, self.words.len() as nat);
                            let q = j / 64;
                            let b = (j % 64) as u64;
                            if q == idx {
                                lemma_set_bit(w, off, b);
                                if j == id as nat {
                                } else {
                                    assert(b != off);
                                }
                            } else {
                                assert(self.words@[q as int] == old_words[q as int]);
                                if j == id as nat {
                                    assert(q == idx);
                                }
                            }
                        }
                    }
                    assert(self.ids() =~= s.insert(id as nat));
                    assert(idx * 64 + off < self.words.len() * 64) by (nonlinear_arith)
                        requires
                            idx < self.words.len(),
                            off < 64,
                    ;
                }
                return Some(id);
            }
            proof {
                assert(w == 0xffff_ffff_ffff_ffffu64);
                assert forall|j: nat| j < (idx + 1) * 64 implies #[trigger] s.contains(j) by {
                    if j >= idx * 64 {
                        lemma_split_id(idx as nat, (j - idx * 64) as nat);
                        let b = (j % 64) as u64;
                        assert((0xffff_ffff_ffff_ffffu64 >> b) & 1u64 == 1u64) by (bit_vector)
                            requires
                                b < 64,
                        ;
                    }
                }
            }
            idx = idx + 1;
        }
        None
    }

    /// Gives id `id` back.
    pub fn free(&mut self, id: u64)
        requires
            old(self).well_formed(),
            id < old(self).capacity(),
        ensures
            final(self).well_formed(),
            final(self).capacity() == old(self).capacity(),
            final(self).ids() == old(self).ids().remove(id as nat),
    {
        let ghost s = self.ids();
        let ghost old_words = self.words@;
        proof {
            lemma_id_parts(id as nat, self.words.len() as nat);
        }
        assert(id >> 6u64 == id / 64 && id & 0x3fu64 == id % 64) by (bit_vector);
        let idx = (id >> 6u64) as usize;
        let off = id & 0x3f;
        let w = self.words[idx];
        self.words.set(idx, w & !(1u64 << off));
        proof {
            assert forall|j: nat| #[trigger] self.ids().contains(j) <==> s.remove(id as nat).contains(j) by {
                if j < self.words.len() * 64 {
                    lemma_id_parts(j, self.words.len() as nat);
                    let q = j / 64;
                    let b = (j % 64) as u64;
                    if q == idx {
                        lemma_clear_bit(w, off, b);
                        if j != id as nat {
                            assert(b != off);
                        }
                    } else {
                        assert(self.words@[q as int] == old_words[q as int]);
                    }
                }
            }
            assert(self.ids() =~= s.remove(id as nat));
        }
    }
}

} // verus!
