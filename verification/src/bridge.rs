//! Byte-granular marshalling across the isolation boundary.
//!
//! The boundary has no bulk-copy primitive and no shared address space:
//! data moves one byte at a time through a small capability interface over
//! opaque region handles. `read_region` is the sole way bytes enter this
//! side; `write_region` is the sole way they leave.

use vstd::prelude::*;

verus! {

/// The capability interface the host injects: query a region's length,
/// read it byte by byte, allocate a fresh region, write it byte by byte.
///
/// Its model is a map from opaque handles to byte sequences. Boundary
/// calls are infallible by contract: a host that cannot honour them must
/// abort the invocation rather than return.
pub trait HostBoundary {
    /// The regions the boundary holds, by handle.
    spec fn regions(&self) -> Map<usize, Seq<u8>>;

    /// Length in bytes of an existing region.
    fn region_length(&self, handle: usize) -> (n: usize)
        requires
            self.regions().contains_key(handle),
        ensures
            n == self.regions()[handle].len(),
    ;

    /// One byte of an existing region.
    fn read_byte(&self, handle: usize, offset: usize) -> (b: u8)
        requires
            self.regions().contains_key(handle),
            offset < self.regions()[handle].len(),
        ensures
            b == self.regions()[handle][offset as int],
    ;

    /// A fresh region of `len` bytes with unspecified contents; every
    /// existing region is untouched.
    fn allocate(&mut self, len: usize) -> (handle: usize)
        ensures
            !old(self).regions().contains_key(handle),
            final(self).regions().contains_key(handle),
            final(self).regions()[handle].len() == len,
            forall|h: usize|
                #![trigger old(self).regions().contains_key(h)]
                h != handle && old(self).regions().contains_key(h)
                    ==> final(self).regions().contains_key(h)
                    && final(self).regions()[h] == old(self).regions()[h],
            forall|h: usize|
                #![trigger final(self).regions().contains_key(h)]
                final(self).regions().contains_key(h)
                    ==> h == handle || old(self).regions().contains_key(h),
    ;

    /// Writes one byte of an existing region.
    fn write_byte(&mut self, handle: usize, offset: usize, b: u8)
        requires
            old(self).regions().contains_key(handle),
            offset < old(self).regions()[handle].len(),
        ensures
            final(self).regions() == old(self).regions().insert(
                handle,
                old(self).regions()[handle].update(offset as int, b),
            ),
    ;
}

/// Copies a whole region into a freshly owned local buffer, byte by byte,
/// preserving order.
#[verifier::loop_isolation(false)]
pub fn read_region<B: HostBoundary>(host: &B, handle: usize) -> (bytes: Vec<u8>)
    requires
        host.regions().contains_key(handle),
    ensures
        bytes@ == host.regions()[handle],
{
    let n = host.region_length(handle);
    let mut bytes: Vec<u8> = Vec::new();
    for off in 0..n
        invariant
            bytes@.len() == off,
            forall|j: int| 0 <= j < off ==> bytes@[j] == host.regions()[handle][j],
        decreases n - off,
    {
        bytes.push(host.read_byte(handle, off));
    }
    proof {
        assert(bytes@ =~= host.regions()[handle]);
    }
    bytes
}

/// Allocates a region sized for `bytes` and writes each byte at its
/// offset, returning the fresh handle for the counterpart to read.
#[verifier::loop_isolation(false)]
pub fn write_region<B: HostBoundary>(host: &mut B, bytes: &Vec<u8>) -> (handle: usize)
    ensures
        !old(host).regions().contains_key(handle),
        final(host).regions().contains_key(handle),
        final(host).regions()[handle] == bytes@,
        forall|h: usize|
            #![trigger old(host).regions().contains_key(h)]
            h != handle && old(host).regions().contains_key(h)
                ==> final(host).regions().contains_key(h)
                && final(host).regions()[h] == old(host).regions()[h],
        forall|h: usize|
            #![trigger final(host).regions().contains_key(h)]
            final(host).regions().contains_key(h)
                ==> h == handle || old(host).regions().contains_key(h),
{
    let n = bytes.len();
    let handle = host.allocate(n);
    for off in 0..n
        invariant
            host.regions().contains_key(handle),
            host.regions()[handle].len() == n,
            !old(host).regions().contains_key(handle),
            forall|h: usize|
                #![trigger old(host).regions().contains_key(h)]
                h != handle && old(host).regions().contains_key(h)
                    ==> host.regions().contains_key(h) && host.regions()[h] == old(
                    host,
                ).regions()[h],
            forall|h: usize|
                #![trigger host.regions().contains_key(h)]
                host.regions().contains_key(h)
                    ==> h == handle || old(host).regions().contains_key(h),
            forall|j: int| 0 <= j < off ==> host.regions()[handle][j] == bytes@[j],
        decreases n - off,
    {
        host.write_byte(handle, off, bytes[off]);
    }
    proof {
        assert(host.regions()[handle] =~= bytes@);
    }
    handle
}

/// An in-memory boundary: both sides of the isolation edge in one address
/// space. It backs the tests and any host that runs the shim natively.
pub struct InMemoryBoundary {
    store: Vec<Vec<u8>>,
}

impl InMemoryBoundary {
    /// A boundary holding no regions.
    pub fn new() -> (r: InMemoryBoundary)
        ensures
            r.regions() == Map::<usize, Seq<u8>>::empty(),
    {
        let r = InMemoryBoundary { store: Vec::new() };
        proof {
            assert(r.regions() =~= Map::<usize, Seq<u8>>::empty());
        }
        r
    }
}

impl HostBoundary for InMemoryBoundary {
    closed spec fn regions(&self) -> Map<usize, Seq<u8>> {
        Map::new(|h: usize| h < self.store.len(), |h: usize| self.store[h as int]@)
    }

    fn region_length(&self, handle: usize) -> (n: usize) {
        self.store[handle].len()
    }

    fn read_byte(&self, handle: usize, offset: usize) -> (b: u8) {
        self.store[handle][offset]
    }

    fn allocate(&mut self, len: usize) -> (handle: usize) {
        let handle = self.store.len();
        let mut region: Vec<u8> = Vec::new();
        for k in 0..len
            invariant
                region@.len() == k,
            decreases len - k,
        {
            region.push(0u8);
        }
        self.store.push(region);
        handle
    }

    fn write_byte(&mut self, handle: usize, offset: usize, b: u8) {
        self.store[handle][offset] = b;
        proof {
            assert(self.regions() =~= old(self).regions().insert(
                handle,
                old(self).regions()[handle].update(offset as int, b),
            ));
        }
    }
}

} // verus!
