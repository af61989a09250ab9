//! Bump-pointer allocation for compiler-owned transient values.
//!
//! The arena hands out references valid for its own lifetime and frees
//! everything at once: there is no per-object deallocation, and `reset`
//! invalidates every previously issued reference, which the borrow checker
//! enforces. Only types without custom destruction logic may be allocated —
//! the `Copy` bound rejects any type needing cleanup at compile time.

use vstd::prelude::*;

verus! {

/// Declares bumpalo's arena type to the verifier; values of it are opaque.
#[verifier::external_type_specification]
#[verifier::external_body]
#[allow(dead_code)]
pub struct ExBump<const MIN_ALIGN: usize>(bumpalo::Bump<MIN_ALIGN>);

/// A bump arena for compiler-internal values.
pub struct Allocator {
    bump: bumpalo::Bump,
}

impl Allocator {
    /// Relies on `bumpalo::Bump::new`: creates an empty arena.
    #[verifier::external_body]
    pub fn new() -> Allocator {
        Allocator { bump: bumpalo::Bump::new() }
    }

    /// Relies on `bumpalo::Bump::with_capacity`: creates an arena with the
    /// given byte capacity preallocated.
    #[verifier::external_body]
    pub fn with_capacity(capacity: usize) -> Allocator {
        Allocator { bump: bumpalo::Bump::with_capacity(capacity) }
    }

    /// Relies on `bumpalo::Bump::alloc`: the arena stores exactly the given
    /// value and returns a reference to it, valid for the arena's lifetime.
    /// The `Copy` bound statically rejects types with custom destruction
    /// logic, which a bump arena must never hold.
    #[verifier::external_body]
    pub fn alloc_value<T: Copy>(&self, val: T) -> (r: &T)
        ensures
            *r == val,
    {
        self.bump.alloc(val)
    }

    /// Relies on `bumpalo::Bump::alloc_str`: the arena stores a copy of the
    /// given text.
    #[verifier::external_body]
    pub fn alloc_str<'alloc>(&'alloc self, src: &str) -> (r: &'alloc str)
        ensures
            r@ == src@,
    {
        self.bump.alloc_str(src)
    }

    /// Relies on `bumpalo::Bump::reset`: drops all but the newest chunk and
    /// makes the arena behave as freshly constructed, capacity aside. Taking
    /// the arena mutably guarantees no reference into it survives.
    #[verifier::external_body]
    pub fn reset(&mut self) {
        self.bump.reset();
    }

    /// Relies on `bumpalo::Bump::allocated_bytes`: reports how many bytes
    /// the arena has handed out across its chunks, for observability.
    #[verifier::external_body]
    pub fn capacity(&self) -> usize {
        self.bump.allocated_bytes()
    }

    /// Relies on `bumpalo::Bump::iter_allocated_chunks`: reports the size of
    /// each allocated chunk, for observability.
    #[verifier::external_body]
    fn chunk_sizes(&mut self) -> Vec<usize> {
        self.bump.iter_allocated_chunks().map(|c| c.len()).collect()
    }

    /// Reports how many bytes the arena's chunks hold, saturating at the
    /// machine's limit, for observability.
    pub fn used_bytes(&mut self) -> usize {
        let sizes = self.chunk_sizes();
        let mut total: usize = 0;
        let mut i: usize = 0;
        while i < sizes.len()
            invariant
                i <= sizes@.len(),
            decreases sizes@.len() - i,
        {
            if total <= usize::MAX - sizes[i] {
                total = total + sizes[i];
            } else {
                total = usize::MAX;
            }
            i += 1;
        }
        total
    }
}

} // verus!
