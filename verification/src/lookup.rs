//! Precomputed lookup tables for the per-pixel formula.
//!
//! The table entries are carried as opaque 64-bit words (the driver fills
//! them with the bit patterns of its precomputed values and reads them back
//! on the other side).  What the crate verifies is the indexing discipline:
//! an angle index is reduced modulo 360 and so never leaves the sine and
//! cosine tables, while a radial index must already lie inside the bounded
//! square-root domain — by design that domain is not guarded by clamping.

use vstd::prelude::*;

verus! {

/// The number of entries in the sine and cosine tables: one per whole degree.
pub const DEGREE_STEPS: usize = 360;

/// The number of entries in the square-root table, and so the extent of its
/// domain.
pub const SQRT_DOMAIN: usize = 2_000_000;

/// Three read-only tables, built exactly once and never mutated afterwards:
/// no method takes the structure mutably.
pub struct MathLookup {
    sin_table: Vec<u64>,
    cos_table: Vec<u64>,
    sqrt_table: Vec<u64>,
}

impl MathLookup {
    /// The sine table entries, one per whole degree.
    pub closed spec fn sin_entries(&self) -> Seq<u64> {
        self.sin_table@
    }

    /// The cosine table entries, one per whole degree.
    pub closed spec fn cos_entries(&self) -> Seq<u64> {
        self.cos_table@
    }

    /// The square-root table entries, one per whole radicand.
    pub closed spec fn sqrt_entries(&self) -> Seq<u64> {
        self.sqrt_table@
    }

    pub open spec fn wf(&self) -> bool {
        &&& self.sin_entries().len() == DEGREE_STEPS
        &&& self.cos_entries().len() == DEGREE_STEPS
        &&& self.sqrt_entries().len() == SQRT_DOMAIN
    }

    /// Constructs a new `MathLookup` from the three precomputed tables.
    pub fn new(sin_table: Vec<u64>, cos_table: Vec<u64>, sqrt_table: Vec<u64>) -> (r: MathLookup)
        requires
            sin_table@.len() == DEGREE_STEPS,
            cos_table@.len() == DEGREE_STEPS,
            sqrt_table@.len() == SQRT_DOMAIN,
        ensures
            r.wf(),
            r.sin_entries() == sin_table@,
            r.cos_entries() == cos_table@,
            r.sqrt_entries() == sqrt_table@,
    {
        MathLookup { sin_table, cos_table, sqrt_table }
    }

    /// The sine entry for an angle given in whole degrees: the index is
    /// reduced modulo 360, so any angle stays inside the table.
    pub fn sin(&self, degrees: usize) -> (r: u64)
        requires
            self.wf(),
        ensures
            r == self.sin_entries()[degrees as int % (DEGREE_STEPS as int)],
    {
        self.sin_table[degrees % DEGREE_STEPS]
    }

    /// The cosine entry for an angle given in whole degrees, reduced the same
    /// way as `sin`.
    pub fn cos(&self, degrees: usize) -> (r: u64)
        requires
            self.wf(),
        ensures
            r == self.cos_entries()[degrees as int % (DEGREE_STEPS as int)],
    {
        self.cos_table[degrees % DEGREE_STEPS]
    }

    /// The square-root entry for a whole radicand.  The radicand must lie
    /// inside the bounded domain: a caller outside it has broken the
    /// contract, and the table deliberately does not clamp.
    pub fn sqrt(&self, radicand: usize) -> (r: u64)
        requires
            self.wf(),
            radicand < SQRT_DOMAIN,
        ensures
            r == self.sqrt_entries()[radicand as int],
    {
        self.sqrt_table[radicand]
    }
}

} // verus!
