//! Allocation requests: a size together with a power-of-two alignment.

use vstd::prelude::*;

verus! {

/// True when `n` is a power of two (so `n >= 1`).
pub open spec fn is_power_of_two(n: nat) -> bool
    decreases n,
{
    if n == 0 {
        false
    } else if n == 1 {
        true
    } else {
        n % 2 == 0 && is_power_of_two(n / 2)
    }
}

/// Decides `is_power_of_two` for a machine integer.
pub fn check_power_of_two(n: usize) -> (r: bool)
    ensures
        r == is_power_of_two(n as nat),
{
    if n == 0 {
        return false;
    }
    let mut m: usize = n;
    while m > 1 && m % 2 == 0
        invariant
            1 <= m,
            is_power_of_two(n as nat) == is_power_of_two(m as nat),
        decreases m,
    {
        m = m / 2;
    }
    m == 1
}

/// A request for a block of at least `size` bytes at alignment `align`.
///
/// The constructor only admits power-of-two alignments, so a value of this
/// type always satisfies [`AllocRequest::wf`]. The adapter forwards only the
/// size to the backend; the alignment travels with the request because the
/// allocation interface carries it, not because the backend consumes it.
#[derive(Clone, Copy, Debug)]
pub struct AllocRequest {
    size: usize,
    align: usize,
}

impl AllocRequest {
    /// The requested number of bytes.
    pub closed spec fn spec_size(self) -> usize {
        self.size
    }

    /// The requested alignment.
    pub closed spec fn spec_align(self) -> usize {
        self.align
    }

    /// Every constructed request has a power-of-two alignment.
    pub open spec fn wf(self) -> bool {
        is_power_of_two(self.spec_align() as nat)
    }

    /// Builds a request; rejects alignments that are not powers of two.
    pub fn from_size_align(size: usize, align: usize) -> (r: Option<AllocRequest>)
        ensures
            r is Some <==> is_power_of_two(align as nat),
            r matches Some(req) ==> req.spec_size() == size && req.spec_align() == align
                && req.wf(),
    {
        if check_power_of_two(align) {
            Some(AllocRequest { size, align })
        } else {
            None
        }
    }

    /// The requested number of bytes.
    pub fn size(&self) -> (s: usize)
        ensures
            s == self.spec_size(),
    {
        self.size
    }

    /// The requested alignment.
    pub fn align(&self) -> (a: usize)
        ensures
            a == self.spec_align(),
    {
        self.align
    }
}

} // verus!
