//! The deletion engine's accounting.
//!
//! The engine works through the selected paths one at a time. For each
//! path the guard is consulted again (scan results may be stale): a
//! protected path is counted and skipped, never touched. Any other path
//! is attempted by the surrounding program — trash first, permanent
//! removal only as a fallback — and the outcome is recorded here: a
//! success or a failure, with a capped list of failure messages so the
//! report stays compact.

use vstd::prelude::*;

use crate::guard::{is_protected, spec_is_protected};
use crate::pathutil::file_name_of;
use crate::platform::{spec_separator, Platform};

verus! {

/// How many failure messages a report keeps at most.
pub const REPORT_ERROR_CAP: usize = 3;

/// The summary of one deletion pass: how many paths were deleted, how
/// many failed, how many were skipped as protected, and the first few
/// failure messages.
pub struct DeletionReport {
    pub deleted: usize,
    pub failed: usize,
    pub protected: usize,
    pub errors: Vec<Vec<char>>,
}

/// The failure message kept for one path: its file name, a separator,
/// and what the attempt reported.
pub open spec fn spec_error_message(path: Seq<char>, err: Seq<char>, sep: char) -> Seq<char> {
    file_name_of(path, sep) + seq![':', ' '] + err
}

impl DeletionReport {
    /// The report never keeps more than the first few failure messages.
    pub open spec fn wf(self) -> bool {
        self.errors@.len() <= REPORT_ERROR_CAP
    }

    /// How many outcomes this report has recorded.
    pub open spec fn recorded(self) -> int {
        self.deleted + self.failed + self.protected
    }

    /// An empty report, before any path is processed.
    pub fn new() -> (r: Self)
        ensures
            r.deleted == 0,
            r.failed == 0,
            r.protected == 0,
            r.errors@ =~= Seq::<Vec<char>>::empty(),
            r.wf(),
    {
        DeletionReport { deleted: 0, failed: 0, protected: 0, errors: Vec::new() }
    }

    /// Consults the guard for one selected path. A protected path is
    /// counted as skipped, and the caller must not touch it; any other
    /// path is to be attempted.
    pub fn check_path(&mut self, path: &Vec<char>, home: &Vec<char>, p: Platform) -> (attempt:
        bool)
        requires
            old(self).wf(),
            old(self).recorded() < usize::MAX,
        ensures
            attempt == !spec_is_protected(path@, home@, p),
            final(self).deleted == old(self).deleted,
            final(self).failed == old(self).failed,
            final(self).protected == old(self).protected + if attempt {
                0int
            } else {
                1int
            },
            final(self).errors@ == old(self).errors@,
            final(self).wf(),
    {
        if is_protected(path, home, p) {
            self.protected = self.protected + 1;
            false
        } else {
            true
        }
    }

    /// Records the outcome of one attempted deletion: a success counts as
    /// deleted; a failure is counted and its message kept, up to the cap.
    pub fn record_attempt(&mut self, path: &Vec<char>, outcome: Result<(), Vec<char>>, p: Platform)
        requires
            old(self).wf(),
            old(self).recorded() < usize::MAX,
        ensures
            final(self).protected == old(self).protected,
            match outcome {
                Ok(()) => {
                    &&& final(self).deleted == old(self).deleted + 1
                    &&& final(self).failed == old(self).failed
                    &&& final(self).errors@ == old(self).errors@
                },
                Err(e) => {
                    &&& final(self).deleted == old(self).deleted
                    &&& final(self).failed == old(self).failed + 1
                    &&& if old(self).errors@.len() < REPORT_ERROR_CAP {
                        let kept = final(self).errors@;
                        kept.len() == old(self).errors@.len() + 1 && kept.drop_last() == old(
                            self,
                        ).errors@ && kept.last()@ == spec_error_message(
                            path@,
                            e@,
                            spec_separator(p),
                        )
                    } else {
                        final(self).errors@ == old(self).errors@
                    }
                },
            },
            final(self).wf(),
    {
        match outcome {
            Ok(()) => {
                self.deleted = self.deleted + 1;
            },
            Err(e) => {
                self.failed = self.failed + 1;
                if self.errors.len() < REPORT_ERROR_CAP {
                    let mut msg = crate::pathutil::file_name(path, p.separator());
                    msg.push(':');
                    msg.push(' ');
                    let mut tail = e;
                    msg.append(&mut tail);
                    assert(msg@ =~= spec_error_message(path@, e@, spec_separator(p)));
                    self.errors.push(msg);
                }
            },
        }
    }

    /// A report is surfaced only when something went wrong or was
    /// skipped; a fully successful pass needs none.
    pub fn needs_display(&self) -> (r: bool)
        ensures
            r == (self.failed > 0 || self.protected > 0),
    {
        self.failed > 0 || self.protected > 0
    }
}

} // verus!
