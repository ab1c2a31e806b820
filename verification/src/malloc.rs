//! Allocations with a header that records their size, as the test allocator
//! keeps them, and the layout of a plain header allocation.
use vstd::prelude::*;

verus! {

/// The header in front of a test allocation: a magic number that marks it
/// as live, and the size of the allocation after it.
#[derive(Clone, Copy, Debug)]
pub struct TestAllocHeader {
    pub magic: u32,
    pub size: usize,
}

/// The magic number of a live test allocation.
pub const TEST_ALLOC_MAGIC: u32 = 0xDEADBEEF;

/// A test allocation: its header and the bytes after it.
#[derive(Clone, Debug)]
pub struct TestAllocation {
    pub header: TestAllocHeader,
    pub bytes: Vec<u8>,
}

/// A fresh allocation of `size` zero bytes with a live header.
pub open spec fn fresh_allocation(a: TestAllocation, size: int) -> bool {
    &&& a.header.magic == TEST_ALLOC_MAGIC
    &&& a.header.size == size
    &&& a.bytes@.len() == size
    &&& forall|i: int| 0 <= i < size ==> #[trigger] a.bytes@[i] == 0u8
}

fn zero_bytes(n: usize) -> (v: Vec<u8>)
    ensures
        v@.len() == n,
        forall|i: int| 0 <= i < n ==> #[trigger] v@[i] == 0u8,
{
    let mut v: Vec<u8> = Vec::new();
    let mut k: usize = 0;
    while k < n
        invariant
            k <= n,
            v@.len() == k,
            forall|i: int| 0 <= i < k ==> #[trigger] v@[i] == 0u8,
        decreases n - k,
    {
        v.push(0);
        k = k + 1;
    }
    v
}

impl TestAllocHeader {
    /// The size of the header in memory.
    pub fn size() -> (r: usize)
        ensures
            r as nat == vstd::layout::size_of::<TestAllocHeader>(),
    {
        core::mem::size_of::<TestAllocHeader>()
    }

    /// Whether the header marks a live allocation.
    pub fn is_valid(&self) -> (r: bool)
        ensures
            r == (self.magic == TEST_ALLOC_MAGIC),
    {
        self.magic == TEST_ALLOC_MAGIC
    }

    /// Allocates `size` bytes behind a header that records the size.
    pub fn malloc(size: usize) -> (r: TestAllocation)
        requires
            size + vstd::layout::size_of::<TestAllocHeader>() <= usize::MAX,
        ensures
            fresh_allocation(r, size as int),
    {
        TestAllocation {
            header: TestAllocHeader { magic: TEST_ALLOC_MAGIC, size },
            bytes: zero_bytes(size),
        }
    }

    /// Allocates `num` elements of `size` zero bytes behind a header, or
    /// nothing when their total size with the header is zero or too large.
    pub fn calloc(num: usize, size: usize) -> (r: Option<TestAllocation>)
        ensures
            ({
                let total = num * size + vstd::layout::size_of::<TestAllocHeader>();
                &&& (num * size > usize::MAX || total > usize::MAX || total == 0) ==> r is None
                &&& !(num * size > usize::MAX || total > usize::MAX || total == 0) ==> (r matches Some(
                    a,
                ) && fresh_allocation(a, num * size))
            }),
    {
        let hsize = Self::size();
        let total: usize = match num.checked_mul(size) {
            Some(s) => match s.checked_add(hsize) {
                Some(t) => t,
                None => 0,
            },
            None => 0,
        };
        if total == 0 {
            return None;
        }
        let n = num * size;
        Some(
            TestAllocation {
                header: TestAllocHeader { magic: TEST_ALLOC_MAGIC, size: n },
                bytes: zero_bytes(n),
            },
        )
    }

    /// Resizes an allocation to `new_size` bytes, keeping its first bytes and
    /// zeroing the new ones; with no allocation, allocates.
    pub fn realloc(a: Option<TestAllocation>, new_size: usize) -> (r: TestAllocation)
        requires
            a matches Some(x) ==> x.header.magic == TEST_ALLOC_MAGIC,
            new_size + vstd::layout::size_of::<TestAllocHeader>() <= usize::MAX,
        ensures
            r.header.magic == TEST_ALLOC_MAGIC,
            r.header.size == new_size,
            r.bytes@.len() == new_size,
            a is None ==> fresh_allocation(r, new_size as int),
            a matches Some(x) ==> forall|i: int|
                0 <= i < new_size ==> #[trigger] r.bytes@[i] == if i < x.bytes@.len() {
                    x.bytes@[i]
                } else {
                    0u8
                },
    {
        match a {
            None => Self::malloc(new_size),
            Some(x) => {
                let old = x.bytes;
                let mut v: Vec<u8> = Vec::new();
                let mut k: usize = 0;
                while k < new_size
                    invariant
                        k <= new_size,
                        v@.len() == k,
                        forall|i: int|
                            0 <= i < k ==> #[trigger] v@[i] == if i < old@.len() {
                                old@[i]
                            } else {
                                0u8
                            },
                    decreases new_size - k,
                {
                    if k < old.len() {
                        v.push(old[k]);
                    } else {
                        v.push(0);
                    }
                    k = k + 1;
                }
                TestAllocation { header: TestAllocHeader { magic: TEST_ALLOC_MAGIC, size: new_size }, bytes: v }
            },
        }
    }

    /// Releases an allocation: its header no longer marks it as live.
    pub fn free(a: &mut TestAllocation)
        requires
            old(a).header.magic == TEST_ALLOC_MAGIC,
        ensures
            final(a).header.magic == 0 && final(a).header.size == 0,
            final(a).bytes@.len() == 0,
    {
        a.header.magic = 0;
        a.header.size = 0;
        a.bytes = Vec::new();
    }
}

/// The size and alignment of a plain allocation with a header.
#[derive(Clone, Copy, Debug, PartialEq, Eq, Structural)]
pub struct AllocLayout {
    pub size: usize,
    pub align: usize,
}

/// Bytes of the header in front of a plain allocation, which is also its
/// alignment.
pub const HEADER: usize = 16;

/// The layout of a plain allocation of `size` bytes: the bytes and their
/// header, aligned as the header.
pub fn layout_for(size: usize) -> (r: AllocLayout)
    requires
        size + HEADER <= isize::MAX - (HEADER - 1),
    ensures
        r.size == size + HEADER,
        r.align == HEADER,
{
    AllocLayout { size: size + HEADER, align: HEADER }
}

} // verus!
