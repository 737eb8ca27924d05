//! A model of the memory that the module shares with its host.
//!
//! The host asks for `len` bytes with `alloc_impl`, copies its input in at the
//! returned address, uses it, then hands the region back with
//! `free_impl`. Addresses are offsets into the memory. Address 0 is never
//! handed out: it is the "no result" sentinel of the ABI. Regions are placed
//! first-fit, every region ends at or below the memory's limit (itself at most
//! `ADDRESS_LIMIT`, so an address and a length each fit in a `u32`), no region
//! is longer than `isize::MAX` bytes (no Rust allocation can be), and live
//! regions never share a byte.
use vstd::prelude::*;

verus! {

/// No memory reaches beyond this address.
pub const ADDRESS_LIMIT: usize = 0xFFFF_FFFF;

/// A live region `[ptr, ptr + len)`.
#[derive(Clone, Copy)]
pub struct Block {
    pub ptr: usize,
    pub len: usize,
}

/// `[a, a + len)` shares an address with `b`.
pub open spec fn overlaps(b: Block, a: int, len: int) -> bool {
    a < b.ptr + b.len && b.ptr < a + len
}

/// `s` with `data` written from address `at` on.
pub open spec fn overwrite(s: Seq<u8>, at: int, data: Seq<u8>) -> Seq<u8> {
    Seq::new(s.len(), |a: int| if at <= a < at + data.len() { data[a - at] } else { s[a] })
}

/// The packed `(ptr, len)` result of a call that hands bytes to the host:
/// the address in the upper 32 bits, the length in the lower 32.
pub open spec fn pack(ptr: u64, len: u64) -> u64 {
    (ptr << 32u64) | len
}

/// The address half of a packed result.
pub open spec fn packed_ptr(packed: u64) -> u64 {
    packed >> 32u64
}

/// The length half of a packed result.
pub open spec fn packed_len(packed: u64) -> u64 {
    packed & 0xFFFF_FFFFu64
}

/// Linear memory with its table of live allocations.
pub struct LinearMemory {
    bytes: Vec<u8>,
    blocks: Vec<Block>,
    limit: usize,
}

impl LinearMemory {
    /// Regions are non-empty, non-null, inside the memory and kept sorted by
    /// address without overlap.
    pub closed spec fn wf(&self) -> bool {
        &&& self.bytes@.len() <= self.limit <= ADDRESS_LIMIT
        &&& forall|i: int|
            #![trigger self.blocks@[i]]
            0 <= i < self.blocks@.len() ==> {
                &&& self.blocks@[i].len > 0
                &&& self.blocks@[i].ptr >= 1
                &&& self.blocks@[i].ptr + self.blocks@[i].len <= self.bytes@.len()
            }
        &&& forall|i: int, j: int|
            #![trigger self.blocks@[i], self.blocks@[j]]
            0 <= i < j < self.blocks@.len() ==> self.blocks@[i].ptr + self.blocks@[i].len
                <= self.blocks@[j].ptr
    }

    /// The live allocations, as `(address, length)` pairs.
    pub closed spec fn live(&self) -> Set<(usize, usize)> {
        Set::new(
            |r: (usize, usize)|
                exists|i: int|
                    0 <= i < self.blocks@.len() && #[trigger] self.blocks@[i].ptr == r.0
                        && self.blocks@[i].len == r.1,
        )
    }

    /// The bytes of the memory, address by address.
    pub closed spec fn contents(&self) -> Seq<u8> {
        self.bytes@
    }

    /// Every region ends at or below this address.
    pub closed spec fn limit(&self) -> int {
        self.limit as int
    }

    /// `[a, a + len)` is non-null, below the limit and touches no live region.
    pub open spec fn fits(&self, a: int, len: int) -> bool {
        &&& 1 <= a
        &&& a + len <= self.limit()
        &&& forall|r: (usize, usize)| #[trigger]
            self.live().contains(r) ==> a + len <= r.0 || r.0 + r.1 <= a
    }

    /// What `alloc_impl(len)` leaves behind, given the address it returned.
    pub open spec fn alloc_post(old: LinearMemory, new: LinearMemory, len: int, ptr: int) -> bool {
        &&& new.wf()
        &&& new.limit() == old.limit()
        &&& len == 0 ==> ptr == 1 && new.live() == old.live() && new.contents() == old.contents()
        &&& len > isize::MAX ==> ptr == 0 && new.live() == old.live() && new.contents()
            == old.contents()
        &&& (0 < len <= isize::MAX && ptr == 0) ==> {
            &&& new.live() == old.live()
            &&& new.contents() == old.contents()
            &&& forall|a: int| !#[trigger] old.fits(a, len)
        }
        &&& (len > 0 && ptr != 0) ==> {
            &&& len <= isize::MAX
            &&& old.fits(ptr, len)
            &&& forall|a: int| 1 <= a < ptr ==> !#[trigger] old.fits(a, len)
            &&& new.live() == old.live().insert((ptr as usize, len as usize))
            &&& ptr + len <= new.contents().len()
            &&& old.contents().len() <= new.contents().len()
            &&& forall|a: int|
                0 <= a < old.contents().len() && !(ptr <= a < ptr + len) ==> #[trigger] new.contents()[a]
                    == old.contents()[a]
        }
    }

    /// `[a, a + len)` overlaps one of the first `i` blocks.
    spec fn blocked(&self, i: int, a: int, len: int) -> bool {
        exists|j: int| 0 <= j < i && #[trigger] overlaps(self.blocks@[j], a, len)
    }

    proof fn lemma_block_live(&self, j: int)
        requires
            0 <= j < self.blocks@.len(),
        ensures
            self.live().contains((self.blocks@[j].ptr, self.blocks@[j].len)),
    {
        let r = (self.blocks@[j].ptr, self.blocks@[j].len);
        assert(self.blocks@[j].ptr == r.0 && self.blocks@[j].len == r.1);
    }

    /// A memory with no allocation and no byte, which grows as regions are
    /// reserved, up to `ADDRESS_LIMIT`.
    pub fn new() -> (mem: LinearMemory)
        ensures
            mem.wf(),
            mem.live() == Set::<(usize, usize)>::empty(),
            mem.contents() == Seq::<u8>::empty(),
            mem.limit() == ADDRESS_LIMIT,
    {
        let mem = LinearMemory { bytes: Vec::new(), blocks: Vec::new(), limit: ADDRESS_LIMIT };
        assert(mem.live() =~= Set::<(usize, usize)>::empty());
        mem
    }

    /// A memory of `limit` zero bytes with no allocation. It never grows, so
    /// its bytes stay where they are for as long as it lives.
    pub fn with_limit(limit: usize) -> (mem: LinearMemory)
        requires
            limit <= ADDRESS_LIMIT,
        ensures
            mem.wf(),
            mem.live() == Set::<(usize, usize)>::empty(),
            mem.contents() == Seq::new(limit as nat, |a: int| 0u8),
            mem.limit() == limit,
    {
        let bytes: Vec<u8> = vec![0u8; limit];
        let mem = LinearMemory { bytes, blocks: Vec::new(), limit };
        assert(mem.live() =~= Set::<(usize, usize)>::empty());
        assert(mem.contents() =~= Seq::new(limit as nat, |a: int| 0u8));
        mem
    }

    /// Reserves `len` bytes at the lowest address where they fit and returns
    /// it; 0 when no such address exists, and for more than `isize::MAX`
    /// bytes. A request for no bytes reserves nothing and returns the
    /// non-null address 1.
    pub fn alloc_impl(&mut self, len: usize) -> (ptr: usize)
        requires
            old(self).wf(),
        ensures
            Self::alloc_post(*old(self), *final(self), len as int, ptr as int),
    {
        if len == 0 {
            return 1;
        }
        if len > isize::MAX as usize {
            return 0;
        }
        let ghost pre = *self;
        let n = self.blocks.len();
        let mut cursor: usize = 1;
        let mut i: usize = 0;
        while i < n
            invariant
                *self == pre,
                pre == *old(self),
                pre.wf(),
                n == self.blocks@.len(),
                0 <= i <= n,
                0 < len <= isize::MAX,
                i == 0 ==> cursor == 1,
                i > 0 ==> cursor == self.blocks@[i - 1].ptr + self.blocks@[i - 1].len,
                1 <= cursor,
                i > 0 ==> cursor <= self.bytes@.len(),
                forall|a: int| 1 <= a < cursor ==> #[trigger] self.blocked(i as int, a, len as int),
            decreases n - i,
        {
            let b = self.blocks[i];
            assert(cursor <= b.ptr) by {
                if i > 0 {
                    assert(self.blocks@[i - 1].ptr + self.blocks@[i - 1].len
                        <= self.blocks@[i as int].ptr);
                }
            }
            if len <= b.ptr - cursor {
                proof {
                    self.lemma_first_fit(len as int, cursor as int, i as int);
                }
                let ghost nb = Block { ptr: cursor, len };
                self.blocks.insert(i, Block { ptr: cursor, len });
                proof {
                    assert(self.blocks@ == pre.blocks@.insert(i as int, nb));
                    self.lemma_insert_block(pre, i as int, nb);
                }
                return cursor;
            }
            assert forall|a: int| 1 <= a < b.ptr + b.len implies #[trigger] self.blocked(
                i + 1,
                a,
                len as int,
            ) by {
                if a >= cursor {
                    assert(overlaps(self.blocks@[i as int], a, len as int));
                } else {
                    assert(self.blocked(i as int, a, len as int));
                    let j = choose|j: int|
                        0 <= j < i && #[trigger] overlaps(self.blocks@[j], a, len as int);
                    assert(overlaps(self.blocks@[j], a, len as int));
                }
            }
            cursor = b.ptr + b.len;
            i = i + 1;
        }
        if cursor <= self.limit && len <= self.limit - cursor {
            proof {
                self.lemma_first_fit(len as int, cursor as int, n as int);
            }
            let end = cursor + len;
            if self.bytes.len() < end {
                self.bytes.resize(end, 0u8);
            }
            let ghost bytes_after = self.bytes@;
            assert forall|a: int| 0 <= a < pre.bytes@.len() implies bytes_after[a] == pre.bytes@[a] by {
                if pre.bytes@.len() < end {
                    assert(bytes_after.subrange(0, pre.bytes@.len() as int) == pre.bytes@);
                    assert(bytes_after.subrange(0, pre.bytes@.len() as int)[a] == bytes_after[a]);
                }
            }
            let ghost nb = Block { ptr: cursor, len };
            self.blocks.push(Block { ptr: cursor, len });
            proof {
                assert(self.blocks@ == pre.blocks@.insert(n as int, nb));
                self.lemma_insert_block(pre, n as int, nb);
            }
            return cursor;
        }
        proof {
            assert forall|a: int| !#[trigger] pre.fits(a, len as int) by {
                if 1 <= a < cursor {
                    assert(pre.blocked(n as int, a, len as int));
                    let j = choose|j: int|
                        0 <= j < n && #[trigger] overlaps(pre.blocks@[j], a, len as int);
                    pre.lemma_block_live(j);
                }
            }
        }
        0
    }

    /// With every block before `i` ending at or below `cursor`, the block at
    /// `i` (if any) starting at or after `cursor + len`, and every lower start
    /// overlapping an earlier block, `cursor` is the lowest start that fits.
    proof fn lemma_first_fit(&self, len: int, cursor: int, i: int)
        requires
            self.wf(),
            len > 0,
            0 <= i <= self.blocks@.len(),
            1 <= cursor,
            cursor + len <= self.limit,
            i == 0 ==> cursor == 1,
            i > 0 ==> cursor == self.blocks@[i - 1].ptr + self.blocks@[i - 1].len,
            i < self.blocks@.len() ==> cursor + len <= self.blocks@[i].ptr,
            forall|a: int| 1 <= a < cursor ==> #[trigger] self.blocked(i, a, len),
        ensures
            self.fits(cursor, len),
            forall|a: int| 1 <= a < cursor ==> !#[trigger] self.fits(a, len),
    {
        assert forall|r: (usize, usize)| #[trigger]
            self.live().contains(r) implies cursor + len <= r.0 || r.0 + r.1 <= cursor by {
            let k = choose|k: int|
                0 <= k < self.blocks@.len() && #[trigger] self.blocks@[k].ptr == r.0
                    && self.blocks@[k].len == r.1;
            if k < i {
                if k < i - 1 {
                    assert(self.blocks@[k].ptr + self.blocks@[k].len <= self.blocks@[i - 1].ptr);
                }
            } else if k > i {
                assert(self.blocks@[i].ptr + self.blocks@[i].len <= self.blocks@[k].ptr);
            }
        }
        assert forall|a: int| 1 <= a < cursor implies !#[trigger] self.fits(a, len) by {
            assert(self.blocked(i, a, len));
            let j = choose|j: int| 0 <= j < i && #[trigger] overlaps(self.blocks@[j], a, len);
            self.lemma_block_live(j);
        }
    }

    /// Inserting a block that fits, at the place that keeps the order, keeps
    /// the memory well formed and adds exactly that region.
    proof fn lemma_insert_block(&self, pre: LinearMemory, i: int, nb: Block)
        requires
            pre.wf(),
            0 <= i <= pre.blocks@.len(),
            self.blocks@ == pre.blocks@.insert(i, nb),
            self.limit == pre.limit,
            self.bytes@.len() <= self.limit,
            pre.bytes@.len() <= self.bytes@.len(),
            nb.len > 0,
            nb.ptr >= 1,
            nb.ptr + nb.len <= self.bytes@.len(),
            pre.fits(nb.ptr as int, nb.len as int),
            i > 0 ==> pre.blocks@[i - 1].ptr + pre.blocks@[i - 1].len <= nb.ptr,
            i < pre.blocks@.len() ==> nb.ptr + nb.len <= pre.blocks@[i].ptr,
        ensures
            self.wf(),
            self.live() == pre.live().insert((nb.ptr, nb.len)),
    {
        let s = self.blocks@;
        let p = pre.blocks@;
        assert forall|k: int| 0 <= k < s.len() implies {
            &&& (#[trigger] s[k]).len > 0
            &&& s[k].ptr >= 1
            &&& s[k].ptr + s[k].len <= self.bytes@.len()
        } by {
            if k < i {
                assert(s[k] == p[k]);
            } else if k > i {
                assert(s[k] == p[k - 1]);
            }
        }
        assert forall|a: int, b: int|
            0 <= a < b < s.len() implies (#[trigger] s[a]).ptr + s[a].len <= (#[trigger] s[b]).ptr by {
            if b < i {
                assert(s[a] == p[a] && s[b] == p[b]);
            } else if b == i {
                assert(s[a] == p[a]);
                if a < i - 1 {
                    assert(p[a].ptr + p[a].len <= p[i - 1].ptr);
                }
            } else if a == i {
                assert(s[b] == p[b - 1]);
                if b - 1 > i {
                    assert(p[i].ptr + p[i].len <= p[b - 1].ptr);
                }
            } else if a < i {
                assert(s[a] == p[a] && s[b] == p[b - 1]);
            } else {
                assert(s[a] == p[a - 1] && s[b] == p[b - 1]);
            }
        }
        assert forall|r: (usize, usize)|
            self.live().contains(r) <==> pre.live().insert((nb.ptr, nb.len)).contains(r) by {
            if self.live().contains(r) {
                let k = choose|k: int|
                    0 <= k < s.len() && #[trigger] s[k].ptr == r.0 && s[k].len == r.1;
                if k < i {
                    assert(s[k] == p[k]);
                    pre.lemma_block_live(k);
                } else if k > i {
                    assert(s[k] == p[k - 1]);
                    pre.lemma_block_live(k - 1);
                }
            }
            if pre.live().insert((nb.ptr, nb.len)).contains(r) {
                if r == (nb.ptr, nb.len) {
                    assert(s[i] == nb);
                    self.lemma_block_live(i);
                } else {
                    let k = choose|k: int|
                        0 <= k < p.len() && #[trigger] p[k].ptr == r.0 && p[k].len == r.1;
                    if k < i {
                        assert(s[k] == p[k]);
                        self.lemma_block_live(k);
                    } else {
                        assert(s[k + 1] == p[k]);
                        self.lemma_block_live(k + 1);
                    }
                }
            }
        }
        assert(self.live() =~= pre.live().insert((nb.ptr, nb.len)));
    }

    /// Hands the region `[ptr, ptr + len)` back. A null address, a length of
    /// zero, or a pair that is not a live region releases nothing.
    pub fn free_impl(&mut self, ptr: usize, len: usize)
        requires
            old(self).wf(),
        ensures
            final(self).wf(),
            final(self).limit() == old(self).limit(),
            final(self).live() == old(self).live().remove((ptr, len)),
            ptr == 0 || len == 0 ==> final(self).live() == old(self).live(),
            final(self).contents() == old(self).contents(),
    {
        let ghost pre = *self;
        if ptr == 0 {
            proof {
                self.lemma_zero_not_live(len);
                assert(self.live() =~= self.live().remove((ptr, len)));
            }
            return;
        }
        let n = self.blocks.len();
        let mut i: usize = 0;
        while i < n
            invariant
                *self == pre,
                pre == *old(self),
                pre.wf(),
                n == self.blocks@.len(),
                0 <= i <= n,
                forall|j: int|
                    0 <= j < i ==> !(#[trigger] self.blocks@[j].ptr == ptr && self.blocks@[j].len
                        == len),
            decreases n - i,
        {
            if self.blocks[i].ptr == ptr && self.blocks[i].len == len {
                self.blocks.remove(i);
                proof {
                    self.lemma_remove_block(pre, i as int);
                }
                return;
            }
            i = i + 1;
        }
        proof {
            assert(!pre.live().contains((ptr, len)));
            assert(pre.live() =~= pre.live().remove((ptr, len)));
        }
    }

    proof fn lemma_zero_not_live(&self, len: usize)
        requires
            self.wf(),
        ensures
            !self.live().contains((0usize, len)),
    {
        if self.live().contains((0usize, len)) {
            let k = choose|k: int|
                0 <= k < self.blocks@.len() && #[trigger] self.blocks@[k].ptr == 0usize
                    && self.blocks@[k].len == len;
        }
    }

    /// Removing the block at `i` keeps the memory well formed and drops
    /// exactly that region.
    proof fn lemma_remove_block(&self, pre: LinearMemory, i: int)
        requires
            pre.wf(),
            0 <= i < pre.blocks@.len(),
            self.blocks@ == pre.blocks@.remove(i),
            self.bytes@ == pre.bytes@,
            self.limit == pre.limit,
        ensures
            self.wf(),
            self.live() == pre.live().remove((pre.blocks@[i].ptr, pre.blocks@[i].len)),
    {
        let s = self.blocks@;
        let p = pre.blocks@;
        let gone = (p[i].ptr, p[i].len);
        assert forall|k: int| 0 <= k < s.len() implies {
            &&& (#[trigger] s[k]).len > 0
            &&& s[k].ptr >= 1
            &&& s[k].ptr + s[k].len <= self.bytes@.len()
        } by {
            if k < i {
                assert(s[k] == p[k]);
            } else {
                assert(s[k] == p[k + 1]);
            }
        }
        assert forall|a: int, b: int|
            0 <= a < b < s.len() implies (#[trigger] s[a]).ptr + s[a].len <= (#[trigger] s[b]).ptr by {
            if b < i {
                assert(s[a] == p[a] && s[b] == p[b]);
            } else if a < i {
                assert(s[a] == p[a] && s[b] == p[b + 1]);
            } else {
                assert(s[a] == p[a + 1] && s[b] == p[b + 1]);
            }
        }
        assert forall|r: (usize, usize)|
            self.live().contains(r) <==> pre.live().remove(gone).contains(r) by {
            if self.live().contains(r) {
                let k = choose|k: int|
                    0 <= k < s.len() && #[trigger] s[k].ptr == r.0 && s[k].len == r.1;
                if k < i {
                    assert(s[k] == p[k]);
                    assert(p[k].ptr + p[k].len <= p[i].ptr);
                    pre.lemma_block_live(k);
                } else {
                    assert(s[k] == p[k + 1]);
                    assert(p[i].ptr + p[i].len <= p[k + 1].ptr);
                    pre.lemma_block_live(k + 1);
                }
            }
            if pre.live().remove(gone).contains(r) {
                let k = choose|k: int|
                    0 <= k < p.len() && #[trigger] p[k].ptr == r.0 && p[k].len == r.1;
                if k < i {
                    assert(s[k] == p[k]);
                    self.lemma_block_live(k);
                } else if k > i {
                    assert(s[k - 1] == p[k]);
                    self.lemma_block_live(k - 1);
                }
            }
        }
        assert(self.live() =~= pre.live().remove(gone));
    }

    /// Copies `data` into the memory from address `ptr` on.
    pub fn write_bytes(&mut self, ptr: usize, data: &[u8])
        requires
            old(self).wf(),
            ptr + data@.len() <= old(self).contents().len(),
        ensures
            final(self).wf(),
            final(self).limit() == old(self).limit(),
            final(self).live() == old(self).live(),
            final(self).contents() == overwrite(old(self).contents(), ptr as int, data@),
    {
        let ghost pre = *self;
        let n = data.len();
        let mut k: usize = 0;
        while k < n
            invariant
                pre == *old(self),
                pre.wf(),
                n == data@.len(),
                ptr + n <= pre.bytes@.len(),
                0 <= k <= n,
                self.blocks == pre.blocks,
                self.limit == pre.limit,
                self.bytes@ == overwrite(pre.bytes@, ptr as int, data@.take(k as int)),
            decreases n - k,
        {
            self.bytes.set(ptr + k, data[k]);
            proof {
                assert(self.bytes@ =~= overwrite(pre.bytes@, ptr as int, data@.take(k + 1)));
            }
            k = k + 1;
        }
        proof {
            assert(data@.take(n as int) =~= data@);
            assert(self.live() =~= pre.live());
        }
    }

    /// The `len` bytes from address `ptr` on; no byte when `len` is zero,
    /// whatever `ptr` is.
    pub fn slice_from_raw(&self, ptr: u32, len: u32) -> (bytes: &[u8])
        requires
            len == 0 || ptr + len <= self.contents().len(),
        ensures
            bytes@ == if len == 0 {
                Seq::<u8>::empty()
            } else {
                self.contents().subrange(ptr as int, ptr + len)
            },
    {
        if len == 0 {
            return &self.bytes.as_slice()[0..0];
        }
        let size = self.bytes.len();
        let start = ptr as usize;
        let end = start + len as usize;
        assert(end <= size);
        &self.bytes.as_slice()[start..end]
    }

    /// Copies `data` into a fresh region and returns its address and length
    /// packed into one `u64`. Returns 0 for no bytes, and when no region of
    /// that length fits.
    pub fn into_packed(&mut self, data: Vec<u8>) -> (packed: u64)
        requires
            old(self).wf(),
        ensures
            final(self).wf(),
            final(self).limit() == old(self).limit(),
            data@.len() == 0 ==> packed == 0 && *final(self) == *old(self),
            data@.len() > 0 ==> (packed == 0 <==> (data@.len() > isize::MAX || forall|a: int|
                !#[trigger] old(self).fits(a, data@.len() as int))),
            packed == 0 ==> final(self).live() == old(self).live() && final(self).contents()
                == old(self).contents(),
            packed != 0 ==> {
                let ptr = packed_ptr(packed) as int;
                let len = packed_len(packed) as int;
                &&& len == data@.len()
                &&& old(self).fits(ptr, len)
                &&& forall|a: int| 1 <= a < ptr ==> !#[trigger] old(self).fits(a, len)
                &&& final(self).live() == old(self).live().insert((ptr as usize, len as usize))
                &&& final(self).contents().subrange(ptr, ptr + len) == data@
                &&& old(self).contents().len() <= final(self).contents().len()
                &&& forall|a: int|
                    0 <= a < old(self).contents().len() && !(ptr <= a < ptr + len)
                        ==> #[trigger] final(self).contents()[a] == old(self).contents()[a]
            },
    {
        if data.len() == 0 {
            return 0;
        }
        let len = data.len();
        let ptr = self.alloc_impl(len);
        if ptr == 0 {
            return 0;
        }
        let ghost mid = *self;
        self.write_bytes(ptr, data.as_slice());
        let packed = ((ptr as u64) << 32u64) | (len as u64);
        proof {
            lemma_pack_roundtrip(ptr as u64, len as u64);
            assert(self.contents().subrange(ptr as int, ptr + len) =~= data@);
            assert(self.live() == mid.live());
        }
        packed
    }

    proof fn lemma_region_facts(&self, r: (usize, usize))
        requires
            self.wf(),
            self.live().contains(r),
        ensures
            r.0 >= 1,
            r.1 > 0,
            r.0 + r.1 <= self.contents().len(),
            self.contents().len() <= self.limit() <= ADDRESS_LIMIT,
    {
        let k = choose|k: int|
            0 <= k < self.blocks@.len() && #[trigger] self.blocks@[k].ptr == r.0 && self.blocks@[k].len == r.1;
        assert(self.blocks@[k].len > 0);
    }

    proof fn lemma_live_facts(&self, r1: (usize, usize), r2: (usize, usize))
        requires
            self.wf(),
            self.live().contains(r1),
            self.live().contains(r2),
            r1 != r2,
        ensures
            r1.0 + r1.1 <= r2.0 || r2.0 + r2.1 <= r1.0,
            r1.0 >= 1 && r1.1 > 0 && r1.0 + r1.1 <= self.contents().len(),
    {
        let s = self.blocks@;
        let k1 = choose|k: int| 0 <= k < s.len() && #[trigger] s[k].ptr == r1.0 && s[k].len == r1.1;
        let k2 = choose|k: int| 0 <= k < s.len() && #[trigger] s[k].ptr == r2.0 && s[k].len == r2.1;
        if k1 < k2 {
            assert(s[k1].ptr + s[k1].len <= s[k2].ptr);
        } else if k2 < k1 {
            assert(s[k2].ptr + s[k2].len <= s[k1].ptr);
        }
    }

    /// Number of bytes that the memory holds.
    pub fn size(&self) -> (n: usize)
        ensures
            n == self.contents().len(),
    {
        self.bytes.len()
    }
}

} // verus!

verus! {

/// Packing an address and a length that each fit in 32 bits loses neither,
/// and the packed value is 0 only for a null address with no bytes.
pub proof fn lemma_pack_roundtrip(ptr: u64, len: u64)
    requires
        ptr <= 0xFFFF_FFFFu64,
        len <= 0xFFFF_FFFFu64,
    ensures
        packed_ptr(pack(ptr, len)) == ptr,
        packed_len(pack(ptr, len)) == len,
        pack(ptr, len) == 0 <==> (ptr == 0 && len == 0),
{
    assert(((ptr << 32u64) | len) >> 32u64 == ptr) by (bit_vector)
        requires
            ptr <= 0xFFFF_FFFFu64,
            len <= 0xFFFF_FFFFu64,
    ;
    assert(((ptr << 32u64) | len) & 0xFFFF_FFFFu64 == len) by (bit_vector)
        requires
            ptr <= 0xFFFF_FFFFu64,
            len <= 0xFFFF_FFFFu64,
    ;
    assert(((ptr << 32u64) | len) == 0 <==> (ptr == 0 && len == 0)) by (bit_vector)
        requires
            ptr <= 0xFFFF_FFFFu64,
            len <= 0xFFFF_FFFFu64,
    ;
}

} // verus!

verus! {

/// ABI form of `alloc_impl`: the length and the address as `u32`.
pub fn fulgur_alloc(mem: &mut LinearMemory, len: u32) -> (ptr: u32)
    requires
        old(mem).wf(),
    ensures
        LinearMemory::alloc_post(*old(mem), *final(mem), len as int, ptr as int),
{
    let ptr = mem.alloc_impl(len as usize);
    proof {
        if len > 0 && ptr != 0 {
            assert(ptr + len <= ADDRESS_LIMIT);
        }
    }
    ptr as u32
}

/// ABI form of `free_impl`.
pub fn fulgur_free(mem: &mut LinearMemory, ptr: u32, len: u32)
    requires
        old(mem).wf(),
    ensures
        final(mem).wf(),
        final(mem).limit() == old(mem).limit(),
        final(mem).live() == old(mem).live().remove((ptr as usize, len as usize)),
        ptr == 0 || len == 0 ==> final(mem).live() == old(mem).live(),
        final(mem).contents() == old(mem).contents(),
{
    mem.free_impl(ptr as usize, len as usize)
}

/// Two different live regions never share a byte, and each one is non-null,
/// non-empty and inside the memory.
pub proof fn lemma_live_regions_disjoint(mem: LinearMemory, r1: (usize, usize), r2: (usize, usize))
    requires
        mem.wf(),
        mem.live().contains(r1),
        mem.live().contains(r2),
        r1 != r2,
    ensures
        r1.0 + r1.1 <= r2.0 || r2.0 + r2.1 <= r1.0,
        r1.0 >= 1 && r1.1 > 0 && r1.0 + r1.1 <= mem.contents().len(),
{
    mem.lemma_live_facts(r1, r2);
}

/// Every live region is non-null, non-empty and inside the memory and its
/// limit; in particular no live region starts at address 0.
pub proof fn lemma_live_region_bounds(mem: LinearMemory, r: (usize, usize))
    requires
        mem.wf(),
        mem.live().contains(r),
    ensures
        r.0 >= 1,
        r.1 > 0,
        r.0 + r.1 <= mem.contents().len(),
        mem.contents().len() <= mem.limit() <= ADDRESS_LIMIT,
{
    mem.lemma_region_facts(r);
}

/// What the host writes into memory is what it reads back at that address.
pub proof fn lemma_read_after_write(s: Seq<u8>, at: int, data: Seq<u8>)
    requires
        0 <= at,
        at + data.len() <= s.len(),
    ensures
        overwrite(s, at, data).subrange(at, at + data.len()) == data,
        overwrite(s, at, data).len() == s.len(),
        forall|a: int|
            0 <= a < s.len() && !(at <= a < at + data.len()) ==> #[trigger] overwrite(s, at, data)[a]
                == s[a],
{
    assert(overwrite(s, at, data).subrange(at, at + data.len()) =~= data);
}

/// Handing back a region that was just reserved leaves the same live regions
/// as before the reservation.
pub proof fn lemma_alloc_then_free(m0: LinearMemory, m1: LinearMemory, m2: LinearMemory, len: int, ptr: int)
    requires
        m0.wf(),
        LinearMemory::alloc_post(m0, m1, len, ptr),
        len > 0,
        ptr != 0,
        m2.live() == m1.live().remove((ptr as usize, len as usize)),
    ensures
        m2.live() == m0.live(),
{
    assert(!m0.live().contains((ptr as usize, len as usize))) by {
        if m0.live().contains((ptr as usize, len as usize)) {
            assert(m0.fits(ptr, len));
        }
    }
    assert(m2.live() =~= m0.live());
}

} // verus!
