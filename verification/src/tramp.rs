//! Trampoline arena: one fixed-capacity executable allocation handed out
//! by a monotonic bump allocator. Nothing is ever freed; an address once
//! handed out stays valid for the process's lifetime.

use vstd::prelude::*;

use crate::arch;
use crate::defs::Error;

verus! {

/// Default capacity of the arena (256 KiB).
pub const BUFFER_SIZE: usize = 0x40000;

/// The arena: a base address, the bytes written so far, and the fixed
/// capacity.
pub struct TrampolineBuffer {
    pub base: u64,
    pub data: Vec<u8>,
    pub capacity: usize,
}

impl TrampolineBuffer {
    /// The fill never passes the capacity and addresses never wrap.
    pub open spec fn wf(self) -> bool {
        self.data@.len() <= self.capacity && self.base + self.capacity <= u64::MAX
    }

    /// How many bytes have been handed out.
    pub open spec fn size(self) -> int {
        self.data@.len() as int
    }

    /// A fresh arena over `[base, base + capacity)`.
    pub fn new(base: u64, capacity: usize) -> (r: TrampolineBuffer)
        requires
            base + capacity <= u64::MAX,
        ensures
            r.wf(),
            r.base == base,
            r.capacity == capacity,
            r.size() == 0,
    {
        TrampolineBuffer { base, data: Vec::new(), capacity }
    }

    /// The next address the arena will hand out.
    pub fn get_pointer(&self) -> (r: u64)
        requires
            self.wf(),
        ensures
            r == self.base + self.size(),
    {
        self.base + self.data.len() as u64
    }

    /// Append `data` to the arena and return the address it was placed
    /// at. On exhaustion returns `NoMemory` and leaves the arena
    /// untouched.
    pub fn insert_data(&mut self, data: &[u8]) -> (r: Result<u64, Error>)
        requires
            old(self).wf(),
        ensures
            final(self).wf(),
            match r {
                Ok(addr) => {
                    &&& old(self).size() + data@.len() <= old(self).capacity
                    &&& addr == old(self).base + old(self).size()
                    &&& final(self).base == old(self).base
                    &&& final(self).capacity == old(self).capacity
                    &&& final(self).data@ == old(self).data@ + data@
                },
                Err(e) => {
                    &&& e == Error::NoMemory
                    &&& old(self).size() + data@.len() > old(self).capacity
                    &&& *final(self) == *old(self)
                },
            },
    {
        if data.len() <= self.capacity - self.data.len() {
            let addr = self.base + self.data.len() as u64;
            let mut k: usize = 0;
            while k < data.len()
                invariant
                    k <= data@.len(),
                    self.base == old(self).base,
                    self.capacity == old(self).capacity,
                    self.data@ =~= old(self).data@ + data@.subrange(0, k as int),
                    old(self).data@.len() + data@.len() <= self.capacity,
                decreases data@.len() - k,
            {
                self.data.push(data[k]);
                k = k + 1;
            }
            proof {
                assert(self.data@ =~= old(self).data@ + data@);
            }
            Ok(addr)
        } else {
            Err(Error::NoMemory)
        }
    }
}

/// Build a trampoline that resumes the original function: the displaced
/// prolog re-anchored at the arena's next address, followed by a jump back
/// to `from + original.len()`. Returns the trampoline's address;
/// `InvalidData` if the prolog cannot be relocated, `NoMemory` if the
/// arena is exhausted; either failure leaves the arena untouched.
pub fn make_trampoline(buf: &mut TrampolineBuffer, original: &[u8], from: u64) -> (r: Result<
    u64,
    Error,
>)
    requires
        old(buf).wf(),
        from + original@.len() <= u64::MAX,
    ensures
        final(buf).wf(),
        match r {
            Ok(addr) => ({
                let t = (old(buf).base + old(buf).size()) as u64;
                &&& addr == t
                &&& arch::spec_decodes_cleanly(original@, 0)
                &&& arch::relocated(original@, t) is Some
                &&& final(buf).base == old(buf).base
                &&& final(buf).capacity == old(buf).capacity
                &&& final(buf).data@ == old(buf).data@ + arch::relocated(original@, t).unwrap()
                    + arch::spec_jump_data((from + original@.len()) as u64)
            }),
            Err(e) => *final(buf) == *old(buf) && ({
                let t = (old(buf).base + old(buf).size()) as u64;
                ||| (e == Error::InvalidData && !(arch::spec_decodes_cleanly(original@, 0)
                    && arch::relocated(original@, t) is Some))
                ||| (e == Error::NoMemory && old(buf).size() + arch::relocated(
                    original@,
                    t,
                ).unwrap().len() + 14 > old(buf).capacity)
            }),
        },
{
    let t = buf.get_pointer();
    let mut body = match arch::relocate(original, t) {
        Ok(v) => v,
        Err(e) => {
            return Err(e);
        },
    };
    let mut jump = arch::get_jump_data(from + original.len() as u64);
    body.append(&mut jump);
    match buf.insert_data(body.as_slice()) {
        Ok(addr) => Ok(addr),
        Err(e) => Err(e),
    }
}

} // verus!
