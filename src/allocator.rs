use vstd::prelude::*;
use vstd::string::StringSliceAdditionalSpecFns;

verus! {

/// bumpalo::Bump, the arena, held opaquely.
#[verifier::external_type_specification]
#[verifier::external_body]
pub struct ExBump<const MIN_ALIGN: usize>(bumpalo::Bump<MIN_ALIGN>);

/// Relies on bumpalo::Bump::with_capacity: an arena with room for `capacity` bytes.
#[verifier::external_body]
fn bump_with_capacity(capacity: usize) -> bumpalo::Bump {
    bumpalo::Bump::with_capacity(capacity)
}


/// Relies on bumpalo::Bump::reset: frees every allocation at once.
#[verifier::external_body]
fn bump_reset(bump: &mut bumpalo::Bump) {
    bump.reset()
}

/// Relies on bumpalo::Bump::alloc_str: copies the bytes of `s` into the arena.
#[verifier::external_body]
fn bump_alloc_str<'a>(bump: &'a bumpalo::Bump, s: &str) -> (r: &'a str)
    ensures
        r@ == s@,
{
    bump.alloc_str(s)
}

/// bumpalo::collections::Vec, a vector in the arena, held opaquely.
#[verifier::external_type_specification]
#[verifier::external_body]
#[verifier::reject_recursive_types(T)]
pub struct ExArenaVec<'a, T>(bumpalo::collections::Vec<'a, T>);

/// bumpalo::collections::String, a string in the arena, held opaquely.
#[verifier::external_type_specification]
#[verifier::external_body]
pub struct ExArenaString<'a>(bumpalo::collections::String<'a>);

/// Relies on bumpalo::Bump::alloc: moves `val` into the arena.
#[verifier::external_body]
fn bump_alloc<'a, T>(bump: &'a bumpalo::Bump, val: T) -> (r: &'a mut T)
    ensures
        *r == val,
{
    bump.alloc(val)
}

/// Relies on bumpalo::collections::Vec::with_capacity_in: an empty vector in the arena.
#[verifier::external_body]
fn bump_vec<'a, T>(bump: &'a bumpalo::Bump, capacity: usize) -> bumpalo::collections::Vec<'a, T> {
    bumpalo::collections::Vec::with_capacity_in(capacity, bump)
}


/// The characters a string in the arena holds.
pub uninterp spec fn arena_chars(s: bumpalo::collections::String<'_>) -> Seq<char>;

/// Relies on bumpalo::collections::String::from_str_in: a copy of `s` in the arena.
#[verifier::external_body]
fn bump_string_copy<'a>(bump: &'a bumpalo::Bump, s: &str) -> (r: bumpalo::collections::String<'a>)
    ensures
        arena_chars(r) == s@,
{
    bumpalo::collections::String::from_str_in(s, bump)
}

/// The count grown by `n`, stopping at the largest `usize`.
pub open spec fn grown(count: usize, n: int) -> usize {
    if count + n > usize::MAX {
        usize::MAX
    } else {
        (count + n) as usize
    }
}

/// A single-lifetime arena. Everything allocated from it is released together
/// by `reset`.
///
/// `allocated_bytes` counts the bytes requested through this allocator since
/// it was made or last reset: `reset` brings it back to zero. (bumpalo keeps
/// its last chunk over a reset, so its own count would not.)
pub struct Allocator {
    bump: bumpalo::Bump,
    requested: usize,
}

impl Allocator {
    /// The bytes requested since the allocator was made or last reset.
    pub closed spec fn used(&self) -> usize {
        self.requested
    }

    /// An arena that has not reserved any memory yet.
    pub fn new() -> (r: Allocator)
        ensures
            r.used() == 0,
    {
        Allocator { bump: bump_with_capacity(0), requested: 0 }
    }

    /// An arena with room for `capacity` bytes reserved up front.
    pub fn with_capacity(capacity: usize) -> (r: Allocator)
        ensures
            r.used() == 0,
    {
        Allocator { bump: bump_with_capacity(capacity), requested: 0 }
    }

    /// The underlying bump arena.
    pub fn bump(&self) -> &bumpalo::Bump {
        &self.bump
    }

    fn count(&mut self, n: usize)
        ensures
            final(self).used() == grown(old(self).used(), n as int),
            final(self).bump == old(self).bump,
    {
        self.requested = self.requested.saturating_add(n);
    }

    /// Moves `val` into the arena.
    pub fn alloc_value<T>(&mut self, val: T) -> (r: &mut T)
        ensures
            *r == val,
            final(self).used() == grown(old(self).used(), vstd::layout::size_of::<T>() as int),
    {
        let n = core::mem::size_of::<T>();
        self.count(n);
        bump_alloc(&self.bump, val)
    }

    /// An empty vector in the arena.
    pub fn new_vec<T>(&self) -> bumpalo::collections::Vec<'_, T> {
        bump_vec(&self.bump, 0)
    }

    /// An empty vector in the arena with room for `capacity` items.
    pub fn new_vec_with_capacity<T>(&self, capacity: usize) -> bumpalo::collections::Vec<'_, T> {
        bump_vec(&self.bump, capacity)
    }

    /// An empty string in the arena.
    pub fn new_string(&self) -> (r: bumpalo::collections::String<'_>)
        ensures
            arena_chars(r) == Seq::<char>::empty(),
    {
        let r = bump_string_copy(&self.bump, "");
        proof {
            reveal_strlit("");
        }
        r
    }

    /// A copy of `s` in the arena.
    pub fn new_string_from(&mut self, s: &str) -> (r: bumpalo::collections::String<'_>)
        ensures
            arena_chars(r) == s@,
            final(self).used() == grown(old(self).used(), (s.spec_bytes().len() as usize) as int),
    {
        self.count(s.len());
        bump_string_copy(&self.bump, s)
    }

    /// Copies `s` into the arena.
    pub fn alloc_str(&mut self, s: &str) -> (r: &str)
        ensures
            r@ == s@,
            final(self).used() == grown(old(self).used(), (s.spec_bytes().len() as usize) as int),
    {
        self.count(s.len());
        bump_alloc_str(&self.bump, s)
    }

    /// Releases every allocation made so far; the count starts again at zero.
    pub fn reset(&mut self)
        ensures
            final(self).used() == 0,
    {
        bump_reset(&mut self.bump);
        self.requested = 0;
    }

    /// Bytes requested since the allocator was made or last reset.
    pub fn allocated_bytes(&self) -> (r: usize)
        ensures
            r == self.used(),
    {
        self.requested
    }
}

} // verus!
