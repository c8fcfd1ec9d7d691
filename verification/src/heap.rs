//! A verified model of the backend allocator's entry points.
//!
//! The real backend is a native library reached over a foreign-function
//! boundary, so nothing about its internals can be checked here. This model
//! implements exactly the entry-point contracts the adapter relies on — a
//! malloc equivalent, a calloc equivalent, a realloc equivalent, a free
//! equivalent and a statistics snapshot — over a heap of plain byte blocks,
//! so that the binding contract can be stated, proved and exercised.
//!
//! A handle plays the role of a pointer: `0` is the null handle, and every
//! other handle returned by an allocation entry point stays valid until it
//! is passed to [`ModelAllocator::free`] or [`ModelAllocator::realloc`].
//! The model never runs out of memory, so the "when memory is available"
//! proviso of the backend contract always holds here.

use vstd::prelude::*;

use crate::text::lemma_ascii_utf8;
use crate::text::lemma_lossy_utf8_of_valid;
use crate::text::lemma_nul_prefix_stops;
use crate::text::lossy_utf8;
use crate::text::nul_prefix;
use crate::text::print_stats;

verus! {

/// `n + 1`, held at the counter's ceiling instead of wrapping.
pub open spec fn sat_inc(n: u64) -> u64 {
    if n < u64::MAX {
        (n + 1) as u64
    } else {
        n
    }
}

/// Decimal digits of `n`, most significant first, as ASCII bytes.
pub open spec fn dec_digits(n: nat) -> Seq<u8>
    decreases n,
{
    if n < 10 {
        seq![(n + 0x30) as u8]
    } else {
        dec_digits(n / 10).push((n % 10 + 0x30) as u8)
    }
}

/// Decimal digits are never empty and always ASCII digits.
proof fn lemma_dec_digits_ascii(n: nat)
    ensures
        dec_digits(n).len() >= 1,
        forall|i: int| 0 <= i < dec_digits(n).len() ==> 0x30 <= #[trigger] dec_digits(n)[i]
            <= 0x39,
    decreases n,
{
    if n >= 10 {
        lemma_dec_digits_ascii(n / 10);
    }
}

/// The statistics report: allocation count, free count and live-block count
/// in decimal, separated by spaces, ended by a newline and a NUL terminator.
pub open spec fn report_bytes(allocs: u64, frees: u64, live: nat) -> Seq<u8> {
    dec_digits(allocs as nat) + seq![0x20u8] + dec_digits(frees as nat) + seq![0x20u8]
        + dec_digits(live) + seq![0x0au8, 0x00u8]
}

/// The statistics text: every byte of the report before its NUL terminator,
/// one character per byte.
pub open spec fn report_text(allocs: u64, frees: u64, live: nat) -> Seq<char> {
    let r = report_bytes(allocs, frees, live);
    Seq::new((r.len() - 1) as nat, |j: int| r[j] as char)
}

spec fn slot_bytes(slot: Option<Vec<u8>>) -> Seq<u8> {
    match slot {
        Some(b) => b@,
        None => Seq::empty(),
    }
}

spec fn count_some(s: Seq<Option<Vec<u8>>>) -> nat
    decreases s.len(),
{
    if s.len() == 0 {
        0
    } else {
        count_some(s.drop_last()) + if s.last() is Some {
            1nat
        } else {
            0nat
        }
    }
}

/// The model backend. Its observable state is the map of live blocks
/// ([`ModelAllocator::heap`]) plus two saturating event counters.
pub struct ModelAllocator {
    blocks: Vec<Option<Vec<u8>>>,
    allocs: u64,
    frees: u64,
}

impl ModelAllocator {
    /// The live blocks: each live handle mapped to the block's contents.
    pub closed spec fn heap(self) -> Map<int, Seq<u8>> {
        Map::new(
            |p: int| 1 <= p <= self.blocks@.len() && self.blocks@[p - 1] is Some,
            |p: int| slot_bytes(self.blocks@[p - 1]),
        )
    }

    /// Whether handle `p` is currently allocated.
    pub open spec fn live(self, p: usize) -> bool {
        self.heap().dom().contains(p as int)
    }

    /// The contents of the live block at handle `p`.
    pub open spec fn block(self, p: usize) -> Seq<u8> {
        self.heap()[p as int]
    }

    /// How many blocks have been handed out.
    pub closed spec fn alloc_count(self) -> u64 {
        self.allocs
    }

    /// How many blocks have been released.
    pub closed spec fn free_count(self) -> u64 {
        self.frees
    }

    /// How many blocks are live now.
    pub closed spec fn live_blocks(self) -> nat {
        count_some(self.blocks@)
    }

    /// A backend with no live blocks and zeroed counters.
    pub fn new() -> (m: ModelAllocator)
        ensures
            m.heap() == Map::<int, Seq<u8>>::empty(),
            m.alloc_count() == 0,
            m.free_count() == 0,
    {
        let m = ModelAllocator { blocks: Vec::new(), allocs: 0, frees: 0 };
        proof {
            assert(m.heap() =~= Map::<int, Seq<u8>>::empty());
        }
        m
    }

    /// Malloc equivalent: a fresh non-null handle to a block of `size`
    /// bytes. The real backend returns uninitialized memory, so this
    /// contract leaves the new block's contents unspecified; every other
    /// block, and nothing else, is exactly as before.
    pub fn malloc(&mut self, size: usize) -> (p: usize)
        ensures
            p != 0,
            !old(self).live(p),
            final(self).live(p),
            final(self).block(p).len() == size,
            forall|q: int|
                q != p as int ==> #[trigger] final(self).heap().dom().contains(q) == old(
                    self,
                ).heap().dom().contains(q),
            forall|q: int|
                q != p as int && old(self).heap().dom().contains(q) ==> #[trigger] final(self).heap()[q] == old(self).heap()[q],
            final(self).alloc_count() == sat_inc(old(self).alloc_count()),
            final(self).free_count() == old(self).free_count(),
    {
        let block: Vec<u8> = vec![0u8; size];
        self.blocks.push(Some(block));
        self.allocs = sat_inc_u64(self.allocs);
        let p = self.blocks.len();
        proof {
            assert(forall|j: int|
                0 <= j < old(self).blocks@.len() ==> self.blocks@[j] == old(self).blocks@[j]);
        }
        p
    }

    /// Calloc equivalent: a fresh block of `count * size` zeroed bytes, or
    /// the null handle — with nothing changed — when the product does not
    /// fit in a machine word.
    pub fn calloc(&mut self, count: usize, size: usize) -> (p: usize)
        ensures
            p == 0 <==> count * size > usize::MAX,
            count * size > usize::MAX ==> final(self).heap() == old(self).heap()
                && final(self).alloc_count() == old(self).alloc_count()
                && final(self).free_count() == old(self).free_count(),
            count * size <= usize::MAX ==> {
                &&& p != 0
                &&& !old(self).live(p)
                &&& final(self).live(p)
                &&& final(self).block(p) == Seq::new((count * size) as nat, |i: int| 0u8)
                &&& forall|q: int|
                    q != p as int ==> #[trigger] final(self).heap().dom().contains(q) == old(
                        self,
                    ).heap().dom().contains(q)
                &&& forall|q: int|
                    q != p as int && old(self).heap().dom().contains(q) ==> #[trigger] final(self).heap()[q] == old(self).heap()[q]
                &&& final(self).alloc_count() == sat_inc(old(self).alloc_count())
                &&& final(self).free_count() == old(self).free_count()
            },
    {
        match count.checked_mul(size) {
            None => 0,
            Some(total) => {
                let block: Vec<u8> = vec![0u8; total];
                self.blocks.push(Some(block));
                self.allocs = sat_inc_u64(self.allocs);
                let p = self.blocks.len();
                proof {
                    assert(forall|j: int|
                        0 <= j < old(self).blocks@.len() ==> self.blocks@[j] == old(
                            self,
                        ).blocks@[j]);
                    assert(final(self).block(p) =~= Seq::new((count * size) as nat, |i: int| 0u8));
                }
                p
            },
        }
    }

    /// Free equivalent. The handle must be live: releasing a handle twice,
    /// or one this backend never produced, is the undefined behaviour the
    /// adapter's contract pushes onto its caller.
    pub fn free(&mut self, p: usize)
        requires
            old(self).live(p),
        ensures
            !final(self).live(p),
            forall|q: int|
                q != p as int ==> #[trigger] final(self).heap().dom().contains(q) == old(
                    self,
                ).heap().dom().contains(q),
            forall|q: int|
                q != p as int && old(self).heap().dom().contains(q) ==> #[trigger] final(self).heap()[q] == old(self).heap()[q],
            final(self).free_count() == sat_inc(old(self).free_count()),
            final(self).alloc_count() == old(self).alloc_count(),
    {
        proof {
            assert(1 <= p as int <= self.blocks@.len());
        }
        let idx: usize = p - 1;
        self.blocks[idx] = None;
        self.frees = sat_inc_u64(self.frees);
    }

    /// Realloc equivalent: moves the block at `p` to a fresh handle holding
    /// `new_size` bytes, of which the first `min(old length, new_size)` are
    /// the old contents; `p` itself is released. The model always succeeds
    /// and always moves the block.
    pub fn realloc(&mut self, p: usize, new_size: usize) -> (q: usize)
        requires
            old(self).live(p),
        ensures
            q != 0,
            q != p,
            !old(self).live(q),
            final(self).live(q),
            !final(self).live(p),
            final(self).block(q).len() == new_size,
            forall|i: int|
                0 <= i < old(self).block(p).len() && i < new_size ==> final(self).block(q)[i]
                    == old(self).block(p)[i],
            forall|r: int|
                r != p as int && r != q as int ==> #[trigger] final(self).heap().dom().contains(r)
                    == old(self).heap().dom().contains(r),
            forall|r: int|
                r != p as int && r != q as int && old(self).heap().dom().contains(r)
                    ==> #[trigger] final(self).heap()[r] == old(self).heap()[r],
            final(self).alloc_count() == sat_inc(old(self).alloc_count()),
            final(self).free_count() == sat_inc(old(self).free_count()),
    {
        proof {
            assert(1 <= p as int <= self.blocks@.len());
        }
        let idx: usize = p - 1;
        let slot = self.blocks.remove(idx);
        self.blocks.insert(idx, None);
        proof {
            assert(self.blocks@ =~= old(self).blocks@.update(idx as int, None));
        }
        let old_block: Vec<u8> = match slot {
            Some(b) => b,
            None => Vec::new(),
        };
        let mut fresh: Vec<u8> = vec![0u8; new_size];
        let copy_n: usize = if old_block.len() < new_size {
            old_block.len()
        } else {
            new_size
        };
        let mut i: usize = 0;
        while i < copy_n
            invariant
                i <= copy_n,
                copy_n <= old_block@.len(),
                copy_n <= new_size,
                fresh@.len() == new_size,
                forall|j: int| 0 <= j < i ==> fresh@[j] == old_block@[j],
            decreases copy_n - i,
        {
            let v = old_block[i];
            fresh[i] = v;
            i = i + 1;
        }
        self.blocks.push(Some(fresh));
        self.allocs = sat_inc_u64(self.allocs);
        self.frees = sat_inc_u64(self.frees);
        let q = self.blocks.len();
        proof {
            assert(forall|j: int|
                0 <= j < old(self).blocks@.len() && j != idx as int ==> self.blocks@[j] == old(
                    self,
                ).blocks@[j]);
        }
        q
    }

    /// Reads the byte at `offset` in the live block `p`.
    pub fn load(&self, p: usize, offset: usize) -> (b: u8)
        requires
            self.live(p),
            offset < self.block(p).len(),
        ensures
            b == self.block(p)[offset as int],
    {
        proof {
            assert(1 <= p as int <= self.blocks@.len());
        }
        let idx: usize = p - 1;
        match &self.blocks[idx] {
            Some(bts) => bts[offset],
            None => 0,
        }
    }

    /// Writes `value` at `offset` in the live block `p`; everything else is
    /// untouched.
    pub fn store(&mut self, p: usize, offset: usize, value: u8)
        requires
            old(self).live(p),
            offset < old(self).block(p).len(),
        ensures
            final(self).block(p) == old(self).block(p).update(offset as int, value),
            forall|q: int|
                #[trigger] final(self).heap().dom().contains(q) == old(self).heap().dom().contains(
                    q,
                ),
            forall|q: int|
                q != p as int && old(self).heap().dom().contains(q) ==> #[trigger] final(self).heap()[q] == old(self).heap()[q],
            final(self).alloc_count() == old(self).alloc_count(),
            final(self).free_count() == old(self).free_count(),
    {
        proof {
            assert(1 <= p as int <= self.blocks@.len());
        }
        let idx: usize = p - 1;
        let slot = self.blocks.remove(idx);
        let mut b: Vec<u8> = match slot {
            Some(b) => b,
            None => Vec::new(),
        };
        b[offset] = value;
        self.blocks.insert(idx, Some(b));
        proof {
            assert(self.blocks@ =~= old(self).blocks@.update(
                idx as int,
                Some(self.blocks@[idx as int].unwrap()),
            ));
            assert(forall|j: int|
                0 <= j < old(self).blocks@.len() && j != idx as int ==> self.blocks@[j] == old(
                    self,
                ).blocks@[j]);
        }
    }

    /// Counts the live blocks.
    pub fn live_block_count(&self) -> (n: usize)
        ensures
            n as nat == self.live_blocks(),
    {
        let mut count: usize = 0;
        let mut j: usize = 0;
        let end: usize = self.blocks.len();
        proof {
            assert(self.blocks@.subrange(0, 0) =~= Seq::<Option<Vec<u8>>>::empty());
        }
        while j < end
            invariant
                j <= end,
                end == self.blocks@.len(),
                count <= j,
                count as nat == count_some(self.blocks@.subrange(0, j as int)),
            decreases end - j,
        {
            proof {
                let taken = self.blocks@.subrange(0, j + 1);
                assert(taken.drop_last() =~= self.blocks@.subrange(0, j as int));
                assert(taken.last() == self.blocks@[j as int]);
            }
            if self.blocks[j].is_some() {
                count = count + 1;
            }
            j = j + 1;
        }
        proof {
            assert(self.blocks@.subrange(0, end as int) =~= self.blocks@);
        }
        count
    }

    /// Stats-text-snapshot equivalent: the NUL-terminated statistics report.
    pub fn stats_report(&self) -> (out: Vec<u8>)
        ensures
            out@ == report_bytes(self.alloc_count(), self.free_count(), self.live_blocks()),
    {
        let mut out: Vec<u8> = Vec::new();
        push_digits(self.allocs, &mut out);
        out.push(0x20);
        push_digits(self.frees, &mut out);
        out.push(0x20);
        let live = self.live_block_count();
        push_digits(live as u64, &mut out);
        out.push(0x0a);
        out.push(0x00);
        proof {
            assert(out@ =~= report_bytes(self.alloc_count(), self.free_count(), self.live_blocks()));
        }
        out
    }

    /// The decoded statistics report: the report's text before its NUL
    /// terminator, character for character. Never empty, and never an
    /// error, whatever bytes the report holds.
    pub fn snapshot_stats(&self) -> (s: String)
        ensures
            s@ == lossy_utf8(
                nul_prefix(report_bytes(self.alloc_count(), self.free_count(), self.live_blocks())),
            ),
            s@ == report_text(self.alloc_count(), self.free_count(), self.live_blocks()),
            s@.len() > 0,
    {
        let report = self.stats_report();
        let s = print_stats(&report);
        proof {
            let d1 = dec_digits(self.alloc_count() as nat);
            let d2 = dec_digits(self.free_count() as nat);
            let d3 = dec_digits(self.live_blocks());
            let r = report_bytes(self.alloc_count(), self.free_count(), self.live_blocks());
            let m = r.len() - 1;
            lemma_dec_digits_ascii(self.alloc_count() as nat);
            lemma_dec_digits_ascii(self.free_count() as nat);
            lemma_dec_digits_ascii(self.live_blocks());
            assert forall|j: int| 0 <= j < m implies r[j] != 0 && r[j] < 0x80 by {
                if j < d1.len() {
                    assert(r[j] == d1[j]);
                } else if j == d1.len() {
                    assert(r[j] == 0x20);
                } else if j < d1.len() + 1 + d2.len() {
                    assert(r[j] == d2[j - d1.len() - 1]);
                } else if j == d1.len() + 1 + d2.len() {
                    assert(r[j] == 0x20);
                } else if j < d1.len() + 1 + d2.len() + 1 + d3.len() {
                    assert(r[j] == d3[j - d1.len() - 1 - d2.len() - 1]);
                } else {
                    assert(r[j] == 0x0a);
                }
            }
            assert(r[m] == 0);
            lemma_nul_prefix_stops(r, m);
            let body = r.subrange(0, m);
            lemma_ascii_utf8(body);
            lemma_lossy_utf8_of_valid(body);
            assert(Seq::new(body.len(), |j: int| body[j] as char) =~= report_text(
                self.alloc_count(),
                self.free_count(),
                self.live_blocks(),
            ));
        }
        s
    }
}

fn sat_inc_u64(n: u64) -> (r: u64)
    ensures
        r == sat_inc(n),
{
    if n < u64::MAX {
        n + 1
    } else {
        n
    }
}

/// Appends the decimal digits of `n` to `out`.
fn push_digits(n: u64, out: &mut Vec<u8>)
    ensures
        final(out)@ == old(out)@ + dec_digits(n as nat),
    decreases n,
{
    if n < 10 {
        out.push((n as u8) + 0x30);
        proof {
            assert(out@ =~= old(out)@ + dec_digits(n as nat));
        }
    } else {
        push_digits(n / 10, out);
        out.push(((n % 10) as u8) + 0x30);
        proof {
            assert(out@ =~= old(out)@ + dec_digits(n as nat));
        }
    }
}

} // verus!
