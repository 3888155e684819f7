//! Protection-aware patching primitive over an explicit model of the
//! process's mapped memory: a set of disjoint regions, each a contiguous
//! byte run with one protection mask. Writes follow the widen-then-restore
//! discipline: the write window is opened only for the write itself and the
//! original protection is put back afterwards.
//!
//! The model refuses a write that would cross a region boundary; on the
//! real address space such a write would touch pages whose protection was
//! never checked.

use vstd::prelude::*;

use crate::defs::Error;
use crate::defs::MEM_N;
use crate::defs::MEM_W;

verus! {

/// A contiguous run of pages with one protection mask, holding
/// `data.len()` bytes starting at `base`.
pub struct Region {
    pub base: u64,
    pub mask: u32,
    pub path: Option<String>,
    pub data: Vec<u8>,
}

impl Region {
    /// One-past-the-last address of the region.
    pub open spec fn end(self) -> int {
        self.base + self.data@.len()
    }

    /// A region is non-empty and does not wrap around the address space.
    pub open spec fn wf(self) -> bool {
        self.data@.len() >= 1 && self.base + self.data@.len() <= u64::MAX
    }

    /// Whether `addr` lies inside the region.
    pub open spec fn contains(self, addr: u64) -> bool {
        self.base <= addr && addr < self.end()
    }

    /// Whether the whole range `[addr, addr + len)` lies inside the region.
    pub open spec fn contains_range(self, addr: u64, len: int) -> bool {
        self.base <= addr && addr + len <= self.end()
    }
}

/// Two regions cover disjoint address ranges.
pub open spec fn regions_disjoint(a: Region, b: Region) -> bool {
    a.end() <= b.base || b.end() <= a.base
}

/// `post` is `pre` with region `i` alone changed, and changed only to carry
/// the given bytes and protection mask; its base and path stay.
pub open spec fn updated_region(
    pre: Seq<Region>,
    post: Seq<Region>,
    i: int,
    data: Seq<u8>,
    mask: u32,
) -> bool {
    &&& post.len() == pre.len()
    &&& forall|j: int| 0 <= j < pre.len() && j != i ==> post[j] == pre[j]
    &&& post[i].base == pre[i].base
    &&& post[i].path == pre[i].path
    &&& post[i].mask == mask
    &&& post[i].data@ == data
}

/// The modeled address space: a set of disjoint regions.
pub struct Memory {
    pub regions: Vec<Region>,
}

impl Memory {
    pub open spec fn wf(self) -> bool {
        &&& forall|i: int| 0 <= i < self.regions@.len() ==> (#[trigger] self.regions@[i]).wf()
        &&& forall|i: int, j: int|
            0 <= i < j < self.regions@.len() ==> regions_disjoint(
                #[trigger] self.regions@[i],
                #[trigger] self.regions@[j],
            )
    }

    /// Whether some region contains `addr`.
    pub open spec fn has_region(self, addr: u64) -> bool {
        exists|i: int|
            0 <= i < self.regions@.len() && (#[trigger] self.regions@[i]).contains(addr)
    }

    /// Index of the region containing `addr` (unique when well-formed).
    pub open spec fn region_index(self, addr: u64) -> int {
        choose|i: int|
            0 <= i < self.regions@.len() && (#[trigger] self.regions@[i]).contains(addr)
    }

    /// An empty address space.
    pub fn new() -> (r: Memory)
        ensures
            r.wf(),
            r.regions@.len() == 0,
    {
        Memory { regions: Vec::new() }
    }
}

/// In a well-formed memory, at most one region contains any address.
pub proof fn lemma_region_index_unique(m: Memory, addr: u64, i: int)
    requires
        m.wf(),
        0 <= i < m.regions@.len(),
        m.regions@[i].contains(addr),
    ensures
        m.has_region(addr),
        m.region_index(addr) == i,
{
    assert(m.has_region(addr));
    let j = m.region_index(addr);
    if i < j {
        assert(regions_disjoint(m.regions@[i], m.regions@[j]));
    } else if j < i {
        assert(regions_disjoint(m.regions@[j], m.regions@[i]));
    }
}

/// Well-formedness survives any change that keeps every region's base and
/// byte count.
pub proof fn lemma_wf_after_update(pre: Memory, post: Memory)
    requires
        pre.wf(),
        post.regions@.len() == pre.regions@.len(),
        forall|i: int|
            0 <= i < pre.regions@.len() ==> (#[trigger] post.regions@[i]).base
                == pre.regions@[i].base && post.regions@[i].data@.len()
                == pre.regions@[i].data@.len(),
    ensures
        post.wf(),
{
    assert forall|i: int| 0 <= i < post.regions@.len() implies (
    #[trigger] post.regions@[i]).wf() by {
        assert(pre.regions@[i].wf());
    }
    assert forall|i: int, j: int| 0 <= i < j < post.regions@.len() implies regions_disjoint(
        #[trigger] post.regions@[i],
        #[trigger] post.regions@[j],
    ) by {
        assert(regions_disjoint(pre.regions@[i], pre.regions@[j]));
    }
}

/// `data` with the bytes of `src` laid over it starting at offset `off`.
pub open spec fn spec_write(data: Seq<u8>, off: int, src: Seq<u8>) -> Seq<u8> {
    Seq::new(data.len(), |k: int| if off <= k < off + src.len() { src[k - off] } else { data[k] })
}

/// `data` with `size` copies of `value` laid over it starting at `off`.
pub open spec fn spec_fill(data: Seq<u8>, off: int, size: int, value: u8) -> Seq<u8> {
    Seq::new(data.len(), |k: int| if off <= k < off + size { value } else { data[k] })
}

/// Region metadata reported by `query`.
pub struct MemInfo {
    pub base: u64,
    pub size: usize,
    pub mask: u32,
    pub path: Option<String>,
}

fn find_region(mem: &Memory, address: u64) -> (r: Option<usize>)
    requires
        mem.wf(),
    ensures
        match r {
            Some(i) => i < mem.regions@.len() && mem.regions@[i as int].contains(address)
                && mem.has_region(address) && mem.region_index(address) == i,
            None => !mem.has_region(address),
        },
{
    let mut i: usize = 0;
    loop
        invariant
            mem.wf(),
            i <= mem.regions@.len(),
            forall|j: int| 0 <= j < i ==> !(#[trigger] mem.regions@[j]).contains(address),
        decreases mem.regions@.len() - i,
    {
        if i >= mem.regions.len() {
            return None;
        }
        let reg = &mem.regions[i];
        if address >= reg.base && address - reg.base < reg.data.len() as u64 {
            proof {
                lemma_region_index_unique(*mem, address, i as int);
            }
            return Some(i);
        }
        i = i + 1;
    }
}

/// Resolve the region containing `address`. Fails with `ItemNotFound` if no
/// region contains it.
pub fn query(mem: &Memory, address: u64) -> (r: Result<MemInfo, Error>)
    requires
        mem.wf(),
    ensures
        match r {
            Ok(info) => mem.has_region(address) && {
                let reg = mem.regions@[mem.region_index(address)];
                info.base == reg.base && info.size == reg.data@.len() && info.mask == reg.mask
                    && info.path == reg.path
            },
            Err(e) => e == Error::ItemNotFound && !mem.has_region(address),
        },
{
    match find_region(mem, address) {
        Some(i) => {
            let reg = &mem.regions[i];
            let path: Option<String> = match &reg.path {
                Some(p) => Some(p.clone()),
                None => None,
            };
            Ok(MemInfo { base: reg.base, size: reg.data.len(), mask: reg.mask, path })
        },
        None => Err(Error::ItemNotFound),
    }
}

fn set_region_mask(mem: &mut Memory, i: usize, new_mask: u32)
    requires
        i < old(mem).regions@.len(),
    ensures
        updated_region(
            old(mem).regions@,
            final(mem).regions@,
            i as int,
            old(mem).regions@[i as int].data@,
            new_mask,
        ),
{
    mem.regions[i].mask = new_mask;
}

/// Set the protection of the region containing `address` to `new_mask`.
/// Fails with `ItemNotFound` if the address is unmapped and with
/// `InvalidArgument` if the range runs past the region's end.
pub fn mask(mem: &mut Memory, address: u64, size: usize, new_mask: u32) -> (r: Result<
    (),
    Error,
>)
    requires
        old(mem).wf(),
    ensures
        final(mem).wf(),
        match r {
            Ok(()) => old(mem).has_region(address) && {
                let i = old(mem).region_index(address);
                old(mem).regions@[i].contains_range(address, size as int) && updated_region(
                    old(mem).regions@,
                    final(mem).regions@,
                    i,
                    old(mem).regions@[i].data@,
                    new_mask,
                )
            },
            Err(e) => *final(mem) == *old(mem) && ((e == Error::ItemNotFound && !old(mem).has_region(
                address,
            )) || (e == Error::InvalidArgument && old(mem).has_region(address) && !old(
                mem,
            ).regions@[old(mem).region_index(address)].contains_range(address, size as int))),
        },
{
    match find_region(mem, address) {
        Some(i) => {
            let reg = &mem.regions[i];
            if (address - reg.base) as usize <= reg.data.len() && size <= reg.data.len() - (address
                - reg.base) as usize {
                set_region_mask(mem, i, new_mask);
                proof {
                    lemma_wf_after_update(*old(mem), *mem);
                }
                Ok(())
            } else {
                Err(Error::InvalidArgument)
            }
        },
        None => Err(Error::ItemNotFound),
    }
}

fn write_region_bytes(mem: &mut Memory, i: usize, off: usize, source: &[u8])
    requires
        i < old(mem).regions@.len(),
        off + source@.len() <= old(mem).regions@[i as int].data@.len(),
    ensures
        updated_region(
            old(mem).regions@,
            final(mem).regions@,
            i as int,
            spec_write(old(mem).regions@[i as int].data@, off as int, source@),
            old(mem).regions@[i as int].mask,
        ),
{
    let ghost orig = old(mem).regions@[i as int].data@;
    let reg = mem.regions.remove(i);
    let Region { base, mask, path, mut data } = reg;
    let dlen: usize = data.len();
    let mut k: usize = 0;
    while k < source.len()
        invariant
            k <= source@.len(),
            data@.len() == dlen,
            off + source@.len() <= data@.len(),
            data@.len() == orig.len(),
            forall|m: int|
                0 <= m < data@.len() ==> data@[m] == (if off <= m < off + k {
                    source@[m - off]
                } else {
                    orig[m]
                }),
        decreases source@.len() - k,
    {
        data[off + k] = source[k];
        k = k + 1;
    }
    proof {
        assert(data@ =~= spec_write(orig, off as int, source@));
    }
    mem.regions.insert(i, Region { base, mask, path, data });
}

/// Raw write of `source` at `address`, without consulting protection.
/// The caller must know that the range is mapped; this is the primitive
/// under `copy`, which does check.
pub fn copy_unchecked(mem: &mut Memory, address: u64, source: &[u8])
    requires
        old(mem).wf(),
        old(mem).has_region(address),
        old(mem).regions@[old(mem).region_index(address)].contains_range(
            address,
            source@.len() as int,
        ),
    ensures
        final(mem).wf(),
        updated_region(
            old(mem).regions@,
            final(mem).regions@,
            old(mem).region_index(address),
            spec_write(
                old(mem).regions@[old(mem).region_index(address)].data@,
                address - old(mem).regions@[old(mem).region_index(address)].base,
                source@,
            ),
            old(mem).regions@[old(mem).region_index(address)].mask,
        ),
{
    let i = match find_region(mem, address) {
        Some(i) => i,
        None => {
            proof {
                assert(false);
            }
            0
        },
    };
    let base = mem.regions[i].base;
    let dlen: usize = mem.regions[i].data.len();
    proof {
        assert(address - base < dlen);
    }
    let off = (address - base) as usize;
    proof {
        assert(off + source@.len() <= mem.regions@[i as int].data@.len());
    }
    write_region_bytes(mem, i, off, source);
    proof {
        lemma_wf_after_update(*old(mem), *mem);
    }
}

/// Query the protection at `address` and open a write window of `size`
/// bytes: fail `InvalidAccess` if the page is fully inaccessible, add the
/// write bit if it is missing, and hand back the original mask so the
/// caller can restore it.
fn make_writable(mem: &mut Memory, address: u64, size: usize) -> (r: Result<u32, Error>)
    requires
        old(mem).wf(),
    ensures
        final(mem).wf(),
        match r {
            Ok(p) => old(mem).has_region(address) && ({
                let i = old(mem).region_index(address);
                &&& p == old(mem).regions@[i].mask
                &&& p != MEM_N
                &&& old(mem).regions@[i].contains_range(address, size as int)
                &&& updated_region(
                    old(mem).regions@,
                    final(mem).regions@,
                    i,
                    old(mem).regions@[i].data@,
                    if p & MEM_W == 0 {
                        p | MEM_W
                    } else {
                        p
                    },
                )
            }),
            Err(e) => *final(mem) == *old(mem) && write_refused(*old(mem), address, size as int, e),
        },
{
    match find_region(mem, address) {
        Some(i) => {
            let reg = &mem.regions[i];
            let p = reg.mask;
            if p == MEM_N {
                return Err(Error::InvalidAccess);
            }
            if !((address - reg.base) as usize <= reg.data.len() && size <= reg.data.len() - (
            address - reg.base) as usize) {
                return Err(Error::InvalidArgument);
            }
            if p & MEM_W == 0 {
                set_region_mask(mem, i, p | MEM_W);
            }
            proof {
                lemma_wf_after_update(*old(mem), *mem);
            }
            Ok(p)
        },
        None => Err(Error::ItemNotFound),
    }
}

/// A checked access of `len` bytes at `address` goes through exactly when
/// the address is mapped, its region is not fully inaccessible, and the
/// whole range lies inside that one region.
pub open spec fn can_access(m: Memory, address: u64, len: int) -> bool {
    &&& m.has_region(address)
    &&& m.regions@[m.region_index(address)].mask != MEM_N
    &&& m.regions@[m.region_index(address)].contains_range(address, len)
}

/// The error a refused access reports: `ItemNotFound` for an unmapped
/// address, `InvalidAccess` for an inaccessible page, `InvalidArgument`
/// for a range that runs past the region's end.
pub open spec fn access_error(m: Memory, address: u64, len: int) -> Error {
    if !m.has_region(address) {
        Error::ItemNotFound
    } else if m.regions@[m.region_index(address)].mask == MEM_N {
        Error::InvalidAccess
    } else {
        Error::InvalidArgument
    }
}

/// Why a checked access at `address` of `len` bytes is refused with `e`.
pub open spec fn write_refused(m: Memory, address: u64, len: int, e: Error) -> bool {
    !can_access(m, address, len) && e == access_error(m, address, len)
}

/// The `len` bytes stored at `address` (meaningful when the range is
/// accessible).
pub open spec fn read_val(m: Memory, address: u64, len: int) -> Seq<u8> {
    let reg = m.regions@[m.region_index(address)];
    reg.data@.subrange(address - reg.base, address - reg.base + len)
}

/// Write `source` at `address` under the widen-then-restore discipline:
/// the write succeeds exactly when the range is mapped, lies in one region
/// and that region is not fully inaccessible, and the region's protection
/// mask afterwards is what it was before.
pub fn copy(mem: &mut Memory, address: u64, source: &[u8]) -> (r: Result<(), Error>)
    requires
        old(mem).wf(),
    ensures
        final(mem).wf(),
        match r {
            Ok(()) => old(mem).has_region(address) && ({
                let i = old(mem).region_index(address);
                let reg = old(mem).regions@[i];
                &&& reg.mask != MEM_N
                &&& reg.contains_range(address, source@.len() as int)
                &&& updated_region(
                    old(mem).regions@,
                    final(mem).regions@,
                    i,
                    spec_write(reg.data@, address - reg.base, source@),
                    reg.mask,
                )
            }),
            Err(e) => *final(mem) == *old(mem) && write_refused(
                *old(mem),
                address,
                source@.len() as int,
                e,
            ),
        },
{
    let ghost m0 = *mem;
    let ghost i = old(mem).region_index(address);
    let p = match make_writable(mem, address, source.len()) {
        Ok(p) => p,
        Err(e) => {
            return Err(e);
        },
    };
    proof {
        lemma_region_index_unique(*mem, address, i);
    }
    let ghost m1 = *mem;
    copy_unchecked(mem, address, source);
    let ghost m2 = *mem;
    if p & MEM_W == 0 {
        proof {
            lemma_region_index_unique(*mem, address, i);
        }
        match find_region(mem, address) {
            Some(idx) => {
                set_region_mask(mem, idx, p);
            },
            None => {
                proof {
                    assert(false);
                }
            },
        }
    }
    proof {
        lemma_wf_after_update(m0, *mem);
        assert(updated_region(
            m0.regions@,
            mem.regions@,
            i,
            spec_write(m0.regions@[i].data@, address - m0.regions@[i].base, source@),
            m0.regions@[i].mask,
        ));
    }
    Ok(())
}

/// Raw fill of `size` copies of `value` at `address`, without consulting
/// protection. The caller must know that the range is mapped.
pub fn fill_unchecked(mem: &mut Memory, address: u64, size: usize, value: u8)
    requires
        old(mem).wf(),
        old(mem).has_region(address),
        old(mem).regions@[old(mem).region_index(address)].contains_range(address, size as int),
    ensures
        final(mem).wf(),
        updated_region(
            old(mem).regions@,
            final(mem).regions@,
            old(mem).region_index(address),
            spec_fill(
                old(mem).regions@[old(mem).region_index(address)].data@,
                address - old(mem).regions@[old(mem).region_index(address)].base,
                size as int,
                value,
            ),
            old(mem).regions@[old(mem).region_index(address)].mask,
        ),
{
    let mut tmp: Vec<u8> = Vec::new();
    let mut k: usize = 0;
    while k < size
        invariant
            k <= size,
            tmp@ =~= Seq::new(k as nat, |m: int| value),
        decreases size - k,
    {
        tmp.push(value);
        k = k + 1;
    }
    copy_unchecked(mem, address, tmp.as_slice());
    proof {
        let i = old(mem).region_index(address);
        let reg = old(mem).regions@[i];
        assert(spec_write(reg.data@, address - reg.base, tmp@) =~= spec_fill(
            reg.data@,
            address - reg.base,
            size as int,
            value,
        ));
    }
}

/// Fill `size` bytes at `address` with `value` under the widen-then-restore
/// discipline; the region's protection mask afterwards is what it was
/// before.
pub fn fill(mem: &mut Memory, address: u64, size: usize, value: u8) -> (r: Result<(), Error>)
    requires
        old(mem).wf(),
    ensures
        final(mem).wf(),
        match r {
            Ok(()) => old(mem).has_region(address) && ({
                let i = old(mem).region_index(address);
                let reg = old(mem).regions@[i];
                &&& reg.mask != MEM_N
                &&& reg.contains_range(address, size as int)
                &&& updated_region(
                    old(mem).regions@,
                    final(mem).regions@,
                    i,
                    spec_fill(reg.data@, address - reg.base, size as int, value),
                    reg.mask,
                )
            }),
            Err(e) => *final(mem) == *old(mem) && write_refused(*old(mem), address, size as int, e),
        },
{
    let ghost m0 = *mem;
    let ghost i = old(mem).region_index(address);
    let p = match make_writable(mem, address, size) {
        Ok(p) => p,
        Err(e) => {
            return Err(e);
        },
    };
    proof {
        lemma_region_index_unique(*mem, address, i);
    }
    fill_unchecked(mem, address, size, value);
    if p & MEM_W == 0 {
        proof {
            lemma_region_index_unique(*mem, address, i);
        }
        match find_region(mem, address) {
            Some(idx) => {
                set_region_mask(mem, idx, p);
            },
            None => {
                proof {
                    assert(false);
                }
            },
        }
    }
    proof {
        lemma_wf_after_update(m0, *mem);
        assert(updated_region(
            m0.regions@,
            mem.regions@,
            i,
            spec_fill(m0.regions@[i].data@, address - m0.regions@[i].base, size as int, value),
            m0.regions@[i].mask,
        ));
    }
    Ok(())
}

/// The lowest address at which a fresh region can be placed: one past the
/// highest end of any existing region, and never below the floor that
/// keeps the null page unmapped.
pub open spec fn spec_alloc_base(regions: Seq<Region>, n: int) -> int
    decreases n,
{
    if n <= 0 {
        0x10000
    } else {
        let e = regions[n - 1].base + regions[n - 1].data@.len();
        let m = spec_alloc_base(regions, n - 1);
        if e > m {
            e
        } else {
            m
        }
    }
}

proof fn lemma_alloc_base_above(regions: Seq<Region>, n: int, j: int)
    requires
        0 <= j < n <= regions.len(),
    ensures
        regions[j].base + regions[j].data@.len() <= spec_alloc_base(regions, n),
    decreases n,
{
    if j < n - 1 {
        lemma_alloc_base_above(regions, n - 1, j);
    }
}

proof fn lemma_alloc_base_floor(regions: Seq<Region>, n: int)
    requires
        0 <= n <= regions.len(),
    ensures
        spec_alloc_base(regions, n) >= 0x10000,
    decreases n,
{
    if n > 0 {
        lemma_alloc_base_floor(regions, n - 1);
    }
}

/// Map a fresh anonymous region of `size` zeroed bytes with protection
/// `mask` and report its base address. The hint is advisory and the model
/// places the region itself, above every existing region. Fails with
/// `InvalidArgument` on an empty size and with `NoMemory` when no address
/// range is left.
pub fn allocate(mem: &mut Memory, size: usize, mask: u32, hint: u64) -> (r: Result<u64, Error>)
    requires
        old(mem).wf(),
    ensures
        final(mem).wf(),
        match r {
            Ok(base) => size > 0 && base == spec_alloc_base(
                old(mem).regions@,
                old(mem).regions@.len() as int,
            ) && base + size <= u64::MAX && final(mem).regions@.len() == old(mem).regions@.len()
                + 1 && (forall|j: int|
                0 <= j < old(mem).regions@.len() ==> final(mem).regions@[j] == old(
                    mem,
                ).regions@[j]) && ({
                let reg = final(mem).regions@.last();
                reg.base == base && reg.mask == mask && reg.path is None && reg.data@ =~= Seq::new(
                    size as nat,
                    |k: int| 0u8,
                )
            }),
            Err(e) => *final(mem) == *old(mem) && ((e == Error::InvalidArgument && size == 0) || (e
                == Error::NoMemory && size > 0 && spec_alloc_base(
                old(mem).regions@,
                old(mem).regions@.len() as int,
            ) + size > u64::MAX)),
        },
{
    let _ = hint;
    if size == 0 {
        return Err(Error::InvalidArgument);
    }
    let mut base: u64 = 0x10000;
    let mut i: usize = 0;
    while i < mem.regions.len()
        invariant
            old(mem) == mem,
            mem.wf(),
            i <= mem.regions@.len(),
            base == spec_alloc_base(mem.regions@, i as int),
        decreases mem.regions@.len() - i,
    {
        let reg = &mem.regions[i];
        let e = reg.base + reg.data.len() as u64;
        if e > base {
            base = e;
        }
        i = i + 1;
    }
    proof {
        assert(i == mem.regions@.len());
    }
    if size as u64 > u64::MAX - base {
        return Err(Error::NoMemory);
    }
    let mut data: Vec<u8> = Vec::new();
    let mut k: usize = 0;
    while k < size
        invariant
            k <= size,
            data@ =~= Seq::new(k as nat, |m: int| 0u8),
        decreases size - k,
    {
        data.push(0u8);
        k = k + 1;
    }
    let ghost m0 = *mem;
    mem.regions.push(Region { base, mask, path: None, data });
    proof {
        let n = m0.regions@.len() as int;
        assert forall|a: int| 0 <= a < mem.regions@.len() implies (
        #[trigger] mem.regions@[a]).wf() by {
            if a < n {
                assert(m0.regions@[a].wf());
            }
        }
        assert forall|a: int, b: int| 0 <= a < b < mem.regions@.len() implies regions_disjoint(
            #[trigger] mem.regions@[a],
            #[trigger] mem.regions@[b],
        ) by {
            if b < n {
                assert(regions_disjoint(m0.regions@[a], m0.regions@[b]));
            } else {
                lemma_alloc_base_above(m0.regions@, n, a);
            }
        }
    }
    Ok(base)
}

/// Release the whole region containing `address`. Fails with
/// `ItemNotFound` if the address is unmapped.
pub fn free(mem: &mut Memory, address: u64) -> (r: Result<(), Error>)
    requires
        old(mem).wf(),
    ensures
        final(mem).wf(),
        match r {
            Ok(()) => old(mem).has_region(address) && final(mem).regions@ =~= old(
                mem,
            ).regions@.remove(old(mem).region_index(address)),
            Err(e) => *final(mem) == *old(mem) && e == Error::ItemNotFound && !old(mem).has_region(
                address,
            ),
        },
{
    match find_region(mem, address) {
        Some(i) => {
            let ghost m0 = *mem;
            mem.regions.remove(i);
            proof {
                assert forall|a: int| 0 <= a < mem.regions@.len() implies (
                #[trigger] mem.regions@[a]).wf() by {
                    if a < i {
                        assert(mem.regions@[a] == m0.regions@[a]);
                        assert(m0.regions@[a].wf());
                    } else {
                        assert(mem.regions@[a] == m0.regions@[a + 1]);
                        assert(m0.regions@[a + 1].wf());
                    }
                }
                assert forall|a: int, b: int|
                    0 <= a < b < mem.regions@.len() implies regions_disjoint(
                    #[trigger] mem.regions@[a],
                    #[trigger] mem.regions@[b],
                ) by {
                    let a0 = if a < i { a } else { a + 1 };
                    let b0 = if b < i { b } else { b + 1 };
                    assert(mem.regions@[a] == m0.regions@[a0]);
                    assert(mem.regions@[b] == m0.regions@[b0]);
                    assert(regions_disjoint(m0.regions@[a0], m0.regions@[b0]));
                }
            }
            Ok(())
        },
        None => Err(Error::ItemNotFound),
    }
}

/// Instruction-cache synchronization over the pages at `address`. A no-op
/// on a coherent-icache machine, which this model reflects; still, the
/// range must be mapped and accessible, as on the real primitive.
pub fn flush(mem: &Memory, address: u64, size: usize) -> (r: Result<(), Error>)
    requires
        mem.wf(),
    ensures
        match r {
            Ok(()) => mem.has_region(address) && mem.regions@[mem.region_index(address)].mask
                != MEM_N,
            Err(e) => (e == Error::ItemNotFound && !mem.has_region(address)) || (e
                == Error::InvalidAccess && mem.has_region(address) && mem.regions@[mem.region_index(
                address,
            )].mask == MEM_N),
        },
{
    let _ = size;
    match find_region(mem, address) {
        Some(i) => {
            if mem.regions[i].mask == MEM_N {
                Err(Error::InvalidAccess)
            } else {
                Ok(())
            }
        },
        None => Err(Error::ItemNotFound),
    }
}

/// Read `len` bytes at `address`. The read succeeds exactly when the range
/// is mapped in one region whose protection is not fully inaccessible.
pub fn read_bytes(mem: &Memory, address: u64, len: usize) -> (r: Result<Vec<u8>, Error>)
    requires
        mem.wf(),
    ensures
        match r {
            Ok(v) => can_access(*mem, address, len as int) && v@ == read_val(
                *mem,
                address,
                len as int,
            ),
            Err(e) => !can_access(*mem, address, len as int) && e == access_error(
                *mem,
                address,
                len as int,
            ),
        },
{
    match find_region(mem, address) {
        Some(i) => {
            if mem.regions[i].mask == MEM_N {
                return Err(Error::InvalidAccess);
            }
            let base = mem.regions[i].base;
            let dlen: usize = mem.regions[i].data.len();
            proof {
                assert(address - base < dlen);
            }
            let off = (address - base) as usize;
            if !(len <= dlen - off) {
                return Err(Error::InvalidArgument);
            }
            let mut v: Vec<u8> = Vec::new();
            let mut k: usize = 0;
            while k < len
                invariant
                    mem.wf(),
                    i < mem.regions@.len(),
                    k <= len,
                    dlen == mem.regions@[i as int].data@.len(),
                    off + len <= dlen,
                    v@.len() == k,
                    forall|m: int|
                        0 <= m < k ==> v@[m] == mem.regions@[i as int].data@[off + m],
                decreases len - k,
            {
                let b = mem.regions[i].data[off + k];
                v.push(b);
                k = k + 1;
            }
            proof {
                assert(v@ =~= read_val(*mem, address, len as int));
            }
            Ok(v)
        },
        None => Err(Error::ItemNotFound),
    }
}

/// Protection preservation: a write that changes only one region's bytes
/// leaves the protection of every mapped address exactly as a query
/// observed it before the write.
pub proof fn lemma_protection_preserved(m0: Memory, m1: Memory, i: int, data: Seq<u8>, a: u64)
    requires
        m0.wf(),
        0 <= i < m0.regions@.len(),
        data.len() == m0.regions@[i].data@.len(),
        updated_region(m0.regions@, m1.regions@, i, data, m0.regions@[i].mask),
        m0.has_region(a),
    ensures
        m1.has_region(a),
        m1.region_index(a) == m0.region_index(a),
        m1.regions@[m1.region_index(a)].mask == m0.regions@[m0.region_index(a)].mask,
{
    lemma_wf_after_update(m0, m1);
    let j = m0.region_index(a);
    assert(m0.regions@[j].contains(a));
    assert(m1.regions@[j].contains(a));
    lemma_region_index_unique(m1, a, j);
}

} // verus!
