//! The memory reserve: a single-slot, pre-touched byte buffer the
//! supervisor holds while the host is healthy and releases under
//! pressure, handing the kernel immediate reclaim headroom.

use vstd::prelude::*;

verus! {

/// Bytes per MiB.
pub const MIB: u64 = 1048576;

/// A single-slot owned reserve buffer: either held, with a definite size
/// in bytes, or released.
pub struct Reserve {
    buf: Option<Vec<u8>>,
}

impl Reserve {
    /// The size in bytes of the held buffer, or nothing when released.
    pub closed spec fn held_size(self) -> Option<nat> {
        match self.buf {
            Some(b) => Some(b@.len()),
            None => None,
        }
    }

    /// Whether a buffer is held.
    pub open spec fn spec_is_held(self) -> bool {
        self.held_size() is Some
    }

    /// A fresh reserve holds nothing.
    pub fn new() -> (r: Reserve)
        ensures
            !r.spec_is_held(),
    {
        Reserve { buf: None }
    }

    /// Hold a buffer of `megabytes` MiB, writing every byte once so the
    /// kernel commits physical frames. A buffer already held is replaced:
    /// holding twice leaves the most recent size.
    pub fn hold(&mut self, megabytes: u64)
        requires
            megabytes * 1048576 <= usize::MAX,
        ensures
            final(self).held_size() == Some((megabytes * 1048576) as nat),
            final(self).spec_is_held(),
    {
        let bytes: usize = (megabytes as usize) * 1048576;
        let buf: Vec<u8> = vec![0u8; bytes];
        self.buf = Some(buf);
    }

    /// Drop the buffer, returning its pages to the allocator.
    pub fn release(&mut self)
        ensures
            final(self).held_size() is None,
            !final(self).spec_is_held(),
    {
        self.buf = None;
    }

    /// Whether a buffer is currently held.
    pub fn is_held(&self) -> (r: bool)
        ensures
            r == self.spec_is_held(),
    {
        self.buf.is_some()
    }
}

} // verus!
