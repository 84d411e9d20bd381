use vstd::prelude::*;
use crate::action::HookError;
use crate::path::RepoPath;
use crate::resolve::path_seq_views;

verus! {

/// The result of running the selected check against one root.
pub enum Outcome {
    Success,
    Failure(HookError),
}

impl Outcome {
    pub open spec fn is_failure(&self) -> bool {
        match self {
            Outcome::Success => false,
            Outcome::Failure(_) => true,
        }
    }
}

/// Sequential dispatcher over the affected roots: hands them out one at a
/// time, in order, and counts failures. Recording an outcome always moves
/// past the current root, so one failing root never prevents the later ones
/// from being processed, and no root is handed out twice.
pub struct Dispatcher {
    roots: Vec<RepoPath>,
    next: usize,
    failures: usize,
}

impl Dispatcher {
    /// The roots this dispatcher visits.
    pub closed spec fn root_views(&self) -> Seq<Seq<Seq<char>>> {
        path_seq_views(self.roots@)
    }

    /// How many roots were visited so far.
    pub closed spec fn position(&self) -> int {
        self.next as int
    }

    /// How many visited roots failed.
    pub closed spec fn failure_total(&self) -> int {
        self.failures as int
    }

    pub closed spec fn well_formed(&self) -> bool {
        &&& self.next <= self.roots@.len()
        &&& self.failures <= self.next
    }

    /// A dispatcher that has visited none of `roots` and seen no failure.
    pub fn new(roots: Vec<RepoPath>) -> (d: Dispatcher)
        ensures
            d.well_formed(),
            d.root_views() == path_seq_views(roots@),
            d.position() == 0,
            d.failure_total() == 0,
    {
        Dispatcher { roots, next: 0, failures: 0 }
    }

    /// The root the next run must target; `None` once every root was
    /// visited.
    pub fn current(&self) -> (r: Option<&RepoPath>)
        requires
            self.well_formed(),
        ensures
            match r {
                Some(p) => self.position() < self.root_views().len() && p@
                    == self.root_views()[self.position()],
                None => self.position() == self.root_views().len(),
            },
    {
        if self.next < self.roots.len() {
            Some(&self.roots[self.next])
        } else {
            None
        }
    }

    /// Record the outcome of the run against the current root and move past
    /// it: the failure count grows exactly when the outcome is a failure,
    /// and the remaining roots are still visited afterwards.
    pub fn record(&mut self, outcome: &Outcome)
        requires
            old(self).well_formed(),
            old(self).position() < old(self).root_views().len(),
        ensures
            final(self).well_formed(),
            final(self).root_views() == old(self).root_views(),
            final(self).position() == old(self).position() + 1,
            final(self).failure_total() == old(self).failure_total() + (
            if outcome.is_failure() {
                1int
            } else {
                0int
            }),
    {
        let n = self.roots.len();
        proof {
            assert(self.root_views().len() == self.roots@.len());
            assert(self.next < n);
        }
        self.next = self.next + 1;
        if let Outcome::Failure(_) = outcome {
            self.failures = self.failures + 1;
        }
    }

    /// Whether every root was visited.
    pub fn is_done(&self) -> (done: bool)
        ensures
            done == (self.position() == self.root_views().len()),
    {
        self.next == self.roots.len()
    }

    /// How many of the visited roots failed.
    pub fn failure_count(&self) -> (n: usize)
        ensures
            n as int == self.failure_total(),
    {
        self.failures
    }

    /// The aggregate exit status: success exactly when no visited root
    /// failed.
    pub fn succeeded(&self) -> (ok: bool)
        ensures
            ok == (self.failure_total() == 0),
    {
        self.failures == 0
    }
}

} // verus!
