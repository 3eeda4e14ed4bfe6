//! Byte-backed bitmaps, used by the memory pools to track free pages.
use vstd::prelude::*;

verus! {

/// Largest byte size accepted for a bitmap: every bit index, and every index
/// returned by `set_bits`, then fits a non-negative `i32`.
pub const MAX_BITMAP_BYTES: u32 = 0x1000_0000;

/// Whether bit `k` (counted from the least significant end) of `b` is set.
pub open spec fn byte_bit(b: u8, k: int) -> bool {
    b & (1u8 << (k as u8)) != 0
}

/// A bitmap of `byte_size * 8` bits stored in `bits`, bit `i` living in bit
/// `i % 8` of byte `i / 8`.
pub struct Bitmap {
    pub byte_size: u32,
    pub bits: Vec<u8>,
}

/// Whether `v[s..s + cnt]` is a run of clear bits inside `v`.
pub open spec fn free_run(v: Seq<bool>, s: int, cnt: int) -> bool {
    &&& 0 <= s
    &&& s + cnt <= v.len()
    &&& forall|j: int| s <= j < s + cnt ==> !#[trigger] v[j]
}

/// Whether some run of `cnt` clear bits exists in `v`.
pub open spec fn has_free_run(v: Seq<bool>, cnt: int) -> bool {
    exists|s: int| free_run(v, s, cnt)
}

/// The number of clear bits in `v`.
pub open spec fn free_count(v: Seq<bool>) -> nat
    decreases v.len(),
{
    if v.len() == 0 {
        0
    } else {
        free_count(v.drop_last()) + if v.last() {
            0nat
        } else {
            1nat
        }
    }
}

/// Setting a clear bit leaves one clear bit fewer.
pub proof fn lemma_free_count_set(v: Seq<bool>, i: int)
    requires
        0 <= i < v.len(),
        !v[i],
    ensures
        free_count(v.update(i, true)) + 1 == free_count(v),
    decreases v.len(),
{
    let w = v.update(i, true);
    if i == v.len() - 1 {
        assert(w.drop_last() =~= v.drop_last());
    } else {
        lemma_free_count_set(v.drop_last(), i);
        assert(w.drop_last() =~= v.drop_last().update(i, true));
    }
}

/// A bitmap with a clear bit has a free run of one bit.
pub proof fn lemma_free_count_run(v: Seq<bool>)
    requires
        free_count(v) > 0,
    ensures
        has_free_run(v, 1),
    decreases v.len(),
{
    if !v.last() {
        assert(free_run(v, v.len() - 1, 1));
    } else {
        lemma_free_count_run(v.drop_last());
        let s = choose|s: int| free_run(v.drop_last(), s, 1);
        assert(v[s] == v.drop_last()[s]);
        assert(free_run(v, s, 1));
    }
}

/// `v` with the bits `s..s + cnt` set.
pub open spec fn set_range(v: Seq<bool>, s: int, cnt: int) -> Seq<bool> {
    Seq::new(v.len(), |i: int| if s <= i < s + cnt { true } else { v[i] })
}

proof fn lemma_or_bit(b: u8, k: u8, j: u8)
    requires
        k < 8,
        j < 8,
    ensures
        (b | (1u8 << k)) & (1u8 << j) != 0 <==> (j == k || b & (1u8 << j) != 0),
{
    assert((b | (1u8 << k)) & (1u8 << j) != 0 <==> (j == k || b & (1u8 << j) != 0))
        by (bit_vector)
        requires
            k < 8,
            j < 8,
    ;
}

proof fn lemma_clear_bit(b: u8, k: u8, j: u8)
    requires
        k < 8,
        j < 8,
    ensures
        (b & !(1u8 << k)) & (1u8 << j) != 0 <==> (j != k && b & (1u8 << j) != 0),
{
    assert((b & !(1u8 << k)) & (1u8 << j) != 0 <==> (j != k && b & (1u8 << j) != 0))
        by (bit_vector)
        requires
            k < 8,
            j < 8,
    ;
}

proof fn lemma_zero_bit(j: u8)
    requires
        j < 8,
    ensures
        0u8 & (1u8 << j) == 0,
{
    assert(0u8 & (1u8 << j) == 0) by (bit_vector);
}

impl Bitmap {
    /// The bitmap's storage matches its declared size, and that size is
    /// small enough for every bit index to fit an `i32`.
    pub open spec fn wf(&self) -> bool {
        &&& self.bits.len() == self.byte_size
        &&& self.byte_size < MAX_BITMAP_BYTES
    }

    /// Number of bits in the bitmap.
    pub open spec fn total(&self) -> int {
        self.byte_size * 8
    }

    /// The bits, in index order.
    pub open spec fn view(&self) -> Seq<bool> {
        Seq::new((self.byte_size * 8) as nat, |i: int| self.bit(i))
    }

    /// Bit `i`: bit `i % 8` of byte `i / 8`.
    pub closed spec fn bit(&self, i: int) -> bool {
        byte_bit(self.bits@[i / 8], i % 8)
    }

    /// A bitmap of `byte_size` bytes, every bit clear.
    pub fn new(byte_size: u32) -> (r: Bitmap)
        requires
            byte_size < MAX_BITMAP_BYTES,
        ensures
            r.wf(),
            r.byte_size == byte_size,
            r@ == Seq::new((byte_size * 8) as nat, |i: int| false),
    {
        let mut bits: Vec<u8> = Vec::new();
        let mut i: u32 = 0;
        while i < byte_size
            invariant
                i <= byte_size,
                bits.len() == i,
                forall|k: int| 0 <= k < i ==> bits@[k] == 0,
            decreases byte_size - i,
        {
            bits.push(0);
            i = i + 1;
        }
        let r = Bitmap { byte_size, bits };
        proof {
            assert forall|k: int| 0 <= k < byte_size * 8 implies !r@[k] by {
                lemma_zero_bit((k % 8) as u8);
            }
        }
        assert(r@ =~= Seq::new((byte_size * 8) as nat, |i: int| false));
        r
    }

    /// Whether bit `idx` is set; an index past the end reads as clear.
    pub fn test(&self, idx: u32) -> (r: bool)
        requires
            self.wf(),
        ensures
            r == (idx < self.total() && self@[idx as int]),
    {
        if idx >= self.byte_size * 8 {
            return false;
        }
        let byte_idx = (idx / 8) as usize;
        let bit = (idx % 8) as u8;
        (self.bits[byte_idx] & (1u8 << bit)) != 0
    }

    /// Sets bit `idx`. Returns 0, or -1 (changing nothing) when `idx` is past
    /// the end.
    pub fn set_one(&mut self, idx: u32) -> (r: i32)
        requires
            old(self).wf(),
        ensures
            final(self).wf(),
            final(self).byte_size == old(self).byte_size,
            idx < old(self).total() ==> r == 0 && final(self)@ == old(self)@.update(idx as int, true),
            idx >= old(self).total() ==> r == -1 && final(self)@ == old(self)@,
    {
        if idx >= self.byte_size * 8 {
            return -1;
        }
        let byte_idx = (idx / 8) as usize;
        let bit = (idx % 8) as u8;
        let ghost old_view = self@;
        let b = self.bits[byte_idx];
        self.bits.set(byte_idx, b | (1u8 << bit));
        proof {
            assert forall|i: int| 0 <= i < self.total() implies self@[i] == old_view.update(
                idx as int,
                true,
            )[i] by {
                if i / 8 == byte_idx as int {
                    lemma_or_bit(b, bit, (i % 8) as u8);
                }
            }
        }
        assert(self@ =~= old_view.update(idx as int, true));
        0
    }

    /// Clears bit `idx`. Returns 0, or -1 (changing nothing) when `idx` is
    /// past the end.
    pub fn clear_one(&mut self, idx: u32) -> (r: i32)
        requires
            old(self).wf(),
        ensures
            final(self).wf(),
            final(self).byte_size == old(self).byte_size,
            idx < old(self).total() ==> r == 0 && final(self)@ == old(self)@.update(idx as int, false),
            idx >= old(self).total() ==> r == -1 && final(self)@ == old(self)@,
    {
        if idx >= self.byte_size * 8 {
            return -1;
        }
        let byte_idx = (idx / 8) as usize;
        let bit = (idx % 8) as u8;
        let ghost old_view = self@;
        let b = self.bits[byte_idx];
        self.bits.set(byte_idx, b & !(1u8 << bit));
        proof {
            assert forall|i: int| 0 <= i < self.total() implies self@[i] == old_view.update(
                idx as int,
                false,
            )[i] by {
                if i / 8 == byte_idx as int {
                    lemma_clear_bit(b, bit, (i % 8) as u8);
                }
            }
        }
        assert(self@ =~= old_view.update(idx as int, false));
        0
    }
    /// Finds the lowest-starting run of `cnt` clear bits, sets them, and
    /// returns the index of the run's first bit. Returns -1, changing
    /// nothing, when `cnt` is 0, exceeds the number of bits, or no such run
    /// exists.
    pub fn set_bits(&mut self, cnt: u32) -> (r: i32)
        requires
            old(self).wf(),
        ensures
            final(self).wf(),
            final(self).byte_size == old(self).byte_size,
            r == -1 <==> (cnt == 0 || !has_free_run(old(self)@, cnt as int)),
            r == -1 ==> final(self)@ == old(self)@,
            r != -1 ==> {
                &&& r >= 0
                &&& free_run(old(self)@, r as int, cnt as int)
                &&& forall|s: int| 0 <= s < r ==> !free_run(old(self)@, s, cnt as int)
                &&& final(self)@ == set_range(old(self)@, r as int, cnt as int)
            },
    {
        let total = self.byte_size * 8;
        let ghost v = self@;
        if cnt == 0 || cnt > total {
            proof {
                if cnt > total && has_free_run(v, cnt as int) {
                    let s = choose|s: int| free_run(v, s, cnt as int);
                }
            }
            return -1;
        }
        let mut run_start: u32 = 0;
        let mut run_len: u32 = 0;
        let mut idx: u32 = 0;
        while idx < total
            invariant
                self@ == v,
                v == old(self)@,
                self.wf(),
                self.byte_size == old(self).byte_size,
                total == self.total(),
                total == v.len(),
                0 < cnt <= total,
                idx <= total,
                run_len < cnt,
                run_len <= idx,
                run_len > 0 ==> run_start == idx - run_len,
                forall|j: int| idx - run_len <= j < idx ==> !#[trigger] v[j],
                idx - run_len == 0 || v[idx - run_len - 1],
                forall|s: int| 0 <= s && s + cnt <= idx ==> !free_run(v, s, cnt as int),
            decreases total - idx,
        {
            if self.test(idx) {
                proof {
                    assert forall|s: int| 0 <= s && s + cnt <= idx + 1 implies !free_run(
                        v,
                        s,
                        cnt as int,
                    ) by {
                        if s + cnt == idx + 1 {
                            assert(v[idx as int]);
                        }
                    }
                }
                run_len = 0;
            } else {
                if run_len == 0 {
                    run_start = idx;
                }
                run_len = run_len + 1;
                if run_len == cnt {
                    proof {
                        assert(free_run(v, run_start as int, cnt as int));
                    }
                    let mut bit: u32 = run_start;
                    while bit < run_start + cnt
                        invariant
                            self.wf(),
                            self.byte_size == old(self).byte_size,
                            v == old(self)@,
                            run_start + cnt <= total,
                            total == self.total(),
                            run_start <= bit <= run_start + cnt,
                            self@ == set_range(v, run_start as int, bit - run_start),
                        decreases run_start + cnt - bit,
                    {
                        let _ = self.set_one(bit);
                        assert(self@ =~= set_range(v, run_start as int, bit + 1 - run_start));
                        bit = bit + 1;
                    }
                    return run_start as i32;
                }
                proof {
                    assert forall|s: int| 0 <= s && s + cnt <= idx + 1 implies !free_run(
                        v,
                        s,
                        cnt as int,
                    ) by {
                        if s + cnt == idx + 1 {
                            let k = idx + 1 - run_len - 1;
                            assert(v[k]);
                        }
                    }
                }
            }
            idx = idx + 1;
        }
        proof {
            if has_free_run(v, cnt as int) {
                let s = choose|s: int| free_run(v, s, cnt as int);
                assert(!free_run(v, s, cnt as int));
            }
        }
        -1
    }
}

/// Clears every bit of `bmp`.
pub fn init_bitmap(bmp: &mut Bitmap)
    requires
        old(bmp).wf(),
    ensures
        final(bmp).wf(),
        final(bmp).byte_size == old(bmp).byte_size,
        final(bmp)@ == Seq::new(old(bmp)@.len(), |i: int| false),
{
    let mut i: usize = 0;
    let n = bmp.bits.len();
    while i < n
        invariant
            bmp.wf(),
            bmp.byte_size == old(bmp).byte_size,
            n == bmp.bits.len(),
            i <= n,
            forall|k: int| 0 <= k < i ==> bmp.bits@[k] == 0,
        decreases n - i,
    {
        bmp.bits.set(i, 0);
        i = i + 1;
    }
    proof {
        assert forall|k: int| 0 <= k < bmp.total() implies !bmp@[k] by {
            lemma_zero_bit((k % 8) as u8);
        }
    }
    assert(bmp@ =~= Seq::new(old(bmp)@.len(), |i: int| false));
}

/// Setting a clear bit and then clearing it again gives back the bitmap;
/// a set bit reads as set and a cleared bit as clear.
pub proof fn lemma_set_clear_roundtrip(v: Seq<bool>, idx: int)
    requires
        0 <= idx < v.len(),
        !v[idx],
    ensures
        v.update(idx, true)[idx],
        !v.update(idx, true).update(idx, false)[idx],
        v.update(idx, true).update(idx, false) == v,
{
    assert(v.update(idx, true).update(idx, false) =~= v);
}

/// A run that `set_bits` has taken is no longer free, no part of it can be
/// found again, and every bit outside it is as it was.
pub proof fn lemma_run_taken(v: Seq<bool>, s: int, cnt: int)
    requires
        free_run(v, s, cnt),
        cnt > 0,
    ensures
        !free_run(set_range(v, s, cnt), s, cnt),
        forall|t: int, c: int| s <= t < s + cnt && c > 0 ==> !free_run(set_range(v, s, cnt), t, c),
        forall|j: int| 0 <= j < v.len() && !(s <= j < s + cnt) ==> set_range(v, s, cnt)[j] == v[j],
{
    let w = set_range(v, s, cnt);
    assert(w[s]);
    assert forall|t: int, c: int| s <= t < s + cnt && c > 0 implies !free_run(w, t, c) by {
        if t + c <= w.len() {
            assert(w[t]);
        }
    }
}

} // verus!
