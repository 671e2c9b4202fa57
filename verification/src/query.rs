//! The per-session database: it issues source identities, buffers emitted
//! diagnostics, and carries the sticky "error observed" and "bug observed"
//! flags that callers inspect after a batch of work.

use vstd::prelude::*;

use crate::diag::Diag;

verus! {

/// Session-wide state shared by every phase of a compile: a counter of
/// issued source identities, the buffer of emitted diagnostics, and the two
/// monotonic sticky flags.
pub struct Database {
    pub next_id: u32,
    pub diags: Vec<Diag>,
    pub error_hit: bool,
    pub bug_found: bool,
}

impl Database {
    /// A fresh session: no sources issued, no diagnostics, no flags set.
    pub fn new() -> (r: Database)
        ensures
            r.next_id == 0,
            r.diags@ == Seq::<Diag>::empty(),
            !r.error_hit,
            !r.bug_found,
    {
        Database { next_id: 0, diags: Vec::new(), error_hit: false, bug_found: false }
    }

    /// Issues the next unused source identity.
    pub fn fresh_id(&mut self) -> (r: u32)
        requires
            old(self).next_id < u32::MAX,
        ensures
            r == old(self).next_id,
            final(self).next_id == old(self).next_id + 1,
            final(self).diags@ == old(self).diags@,
            final(self).error_hit == old(self).error_hit,
            final(self).bug_found == old(self).bug_found,
    {
        let id = self.next_id;
        self.next_id = self.next_id + 1;
        id
    }

    /// The diagnostics emitted so far, oldest first.
    pub fn diagnostics(&self) -> (r: &Vec<Diag>)
        ensures
            r@ == self.diags@,
    {
        &self.diags
    }
}

impl Default for Database {
    /// Same as `Database::new`.
    fn default() -> (r: Self)
        ensures
            r.next_id == 0,
            r.diags@ == Seq::<Diag>::empty(),
            !r.error_hit,
            !r.bug_found,
    {
        Database::new()
    }
}

} // verus!
