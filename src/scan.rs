use vstd::prelude::*;

verus! {

/// Where the single duplicate-scan slot stands.
#[derive(Debug, Clone, Copy, PartialEq, Eq, Structural)]
pub enum ScanPhase {
    Idle,
    Running,
    Completed,
    Cancelled,
    Errored,
}

#[derive(Debug, Clone, Copy, PartialEq, Eq, Structural)]
pub enum ScanError {
    /// A scan is already running.
    AlreadyRunning,
}

/// The progress of the duplicate scan. `cancel_requested` stays set after a
/// cancelled scan ends and is cleared only when the next one begins.
#[derive(Debug, Clone, Copy, PartialEq, Eq, Structural)]
pub struct DuplicateScan {
    pub phase: ScanPhase,
    pub cancel_requested: bool,
    pub scanned_files: u64,
    pub total_files: u64,
    pub groups_found: u64,
}

/// What pollers read of the scan.
#[derive(Debug, Clone, Copy, PartialEq, Eq, Structural)]
pub struct DuplicateScanStatus {
    pub running: bool,
    pub cancel_requested: bool,
    pub scanned_files: u64,
    pub total_files: u64,
    pub groups_found: u64,
    pub progress_percent: u64,
}

/// What the scan worker does next.
#[derive(Debug, Clone, Copy, PartialEq, Eq, Structural)]
pub enum ScanAction {
    /// Fingerprint the candidate at this position, then report it done.
    ScanFile(u64),
    /// Stop taking candidates and finish with the groups confirmed so far.
    Finish,
    /// No scan is running.
    Idle,
}

/// `100 * scanned / total`, rounded down; 0 when there is nothing to scan.
pub open spec fn percent(scanned: u64, total: u64) -> u64 {
    if total == 0 {
        0
    } else {
        ((100 * scanned) / (total as int)) as u64
    }
}

impl DuplicateScan {
    pub open spec fn wf(&self) -> bool {
        &&& self.scanned_files <= self.total_files
        &&& (self.phase == ScanPhase::Cancelled ==> self.cancel_requested)
        &&& (self.phase == ScanPhase::Completed ==> !self.cancel_requested)
    }

    pub open spec fn running(&self) -> bool {
        self.phase == ScanPhase::Running
    }

    /// The worker takes the next candidate only while this holds.
    pub open spec fn continues(&self) -> bool {
        self.running() && !self.cancel_requested
    }

    pub open spec fn began(&self, total: u64) -> DuplicateScan {
        DuplicateScan {
            phase: ScanPhase::Running,
            cancel_requested: false,
            scanned_files: 0,
            total_files: total,
            groups_found: 0,
        }
    }

    pub open spec fn after_file(&self) -> DuplicateScan {
        if self.running() && self.scanned_files < self.total_files {
            DuplicateScan { scanned_files: (self.scanned_files + 1) as u64, ..*self }
        } else {
            *self
        }
    }

    pub open spec fn after_cancel(&self) -> DuplicateScan {
        if self.running() {
            DuplicateScan { cancel_requested: true, ..*self }
        } else {
            *self
        }
    }

    pub open spec fn after_finish(&self, groups: u64) -> DuplicateScan {
        if self.running() {
            DuplicateScan {
                phase: if self.cancel_requested {
                    ScanPhase::Cancelled
                } else {
                    ScanPhase::Completed
                },
                groups_found: groups,
                ..*self
            }
        } else {
            *self
        }
    }

    /// The worker's next step: the next candidate while the scan runs
    /// uncancelled and candidates remain, else finishing.
    pub open spec fn action_of(&self) -> ScanAction {
        if !self.running() {
            ScanAction::Idle
        } else if !self.cancel_requested && self.scanned_files < self.total_files {
            ScanAction::ScanFile(self.scanned_files)
        } else {
            ScanAction::Finish
        }
    }

    /// The scan after `n` more candidates completed.
    pub open spec fn after_files(&self, n: nat) -> DuplicateScan
        decreases n,
    {
        if n == 0 {
            *self
        } else {
            self.after_files((n - 1) as nat).after_file()
        }
    }

    pub open spec fn status_of(&self) -> DuplicateScanStatus {
        DuplicateScanStatus {
            running: self.running(),
            cancel_requested: self.cancel_requested,
            scanned_files: self.scanned_files,
            total_files: self.total_files,
            groups_found: self.groups_found,
            progress_percent: percent(self.scanned_files, self.total_files),
        }
    }

    pub fn new() -> (r: DuplicateScan)
        ensures
            r.wf(),
            r.phase == ScanPhase::Idle,
            !r.cancel_requested,
            r.scanned_files == 0 && r.total_files == 0 && r.groups_found == 0,
    {
        DuplicateScan {
            phase: ScanPhase::Idle,
            cancel_requested: false,
            scanned_files: 0,
            total_files: 0,
            groups_found: 0,
        }
    }

    /// Takes the scan slot for `total` candidates; refused while a scan runs.
    pub fn begin(&mut self, total: u64) -> (r: Result<(), ScanError>)
        ensures
            old(self).running() ==> r == Err::<(), ScanError>(ScanError::AlreadyRunning) && *final(self) == *old(self),
            !old(self).running() ==> r is Ok && *final(self) == old(self).began(total),
            old(self).wf() ==> final(self).wf(),
    {
        if self.phase == ScanPhase::Running {
            return Err(ScanError::AlreadyRunning);
        }
        *self = DuplicateScan {
            phase: ScanPhase::Running,
            cancel_requested: false,
            scanned_files: 0,
            total_files: total,
            groups_found: 0,
        };
        Ok(())
    }

    pub fn next_action(&self) -> (r: ScanAction)
        ensures
            r == self.action_of(),
    {
        if self.phase != ScanPhase::Running {
            ScanAction::Idle
        } else if !self.cancel_requested && self.scanned_files < self.total_files {
            ScanAction::ScanFile(self.scanned_files)
        } else {
            ScanAction::Finish
        }
    }

    pub fn should_continue(&self) -> (r: bool)
        ensures
            r == self.continues(),
    {
        self.phase == ScanPhase::Running && !self.cancel_requested
    }

    /// One candidate finished its fingerprinting.
    pub fn file_scanned(&mut self)
        ensures
            *final(self) == old(self).after_file(),
            old(self).wf() ==> final(self).wf(),
    {
        if self.phase == ScanPhase::Running && self.scanned_files < self.total_files {
            self.scanned_files = self.scanned_files + 1;
        }
    }

    /// Publishes the number of groups confirmed so far; the count never
    /// falls during a run.
    pub fn set_groups_found(&mut self, groups: u64)
        requires
            old(self).running() ==> groups >= old(self).groups_found,
        ensures
            old(self).wf() ==> final(self).wf(),
            old(self).running() ==> *final(self) == (DuplicateScan { groups_found: groups, ..*old(self) }),
            !old(self).running() ==> *final(self) == *old(self),
    {
        if self.phase == ScanPhase::Running {
            self.groups_found = groups;
        }
    }

    /// Asks a running scan to stop; returns whether one was running.
    pub fn request_cancel(&mut self) -> (r: bool)
        ensures
            r == old(self).running(),
            *final(self) == old(self).after_cancel(),
            old(self).wf() ==> final(self).wf(),
    {
        if self.phase == ScanPhase::Running {
            self.cancel_requested = true;
            true
        } else {
            false
        }
    }

    /// Ends a running scan with `groups` groups: cancelled if a stop was
    /// requested, completed otherwise.
    pub fn finish(&mut self, groups: u64)
        requires
            old(self).running() ==> groups >= old(self).groups_found,
        ensures
            *final(self) == old(self).after_finish(groups),
            old(self).wf() ==> final(self).wf(),
    {
        if self.phase == ScanPhase::Running {
            self.phase = if self.cancel_requested {
                ScanPhase::Cancelled
            } else {
                ScanPhase::Completed
            };
            self.groups_found = groups;
        }
    }

    /// Ends a running scan with an error.
    pub fn fail(&mut self)
        ensures
            old(self).wf() ==> final(self).wf(),
            old(self).running() ==> *final(self) == (DuplicateScan { phase: ScanPhase::Errored, ..*old(self) }),
            !old(self).running() ==> *final(self) == *old(self),
    {
        if self.phase == ScanPhase::Running {
            self.phase = ScanPhase::Errored;
        }
    }

    pub fn status(&self) -> (r: DuplicateScanStatus)
        requires
            self.wf(),
        ensures
            r == self.status_of(),
    {
        let progress: u64 = if self.total_files == 0 {
            0
        } else {
            let scaled: u128 = self.scanned_files as u128 * 100;
            let p: u128 = scaled / (self.total_files as u128);
            proof {
                let t = self.total_files as int;
                let sc = self.scanned_files as int;
                assert(sc * 100 / t <= 100) by (nonlinear_arith)
                    requires
                        sc <= t,
                        t > 0,
                ;
            }
            p as u64
        };
        DuplicateScanStatus {
            running: self.phase == ScanPhase::Running,
            cancel_requested: self.cancel_requested,
            scanned_files: self.scanned_files,
            total_files: self.total_files,
            groups_found: self.groups_found,
            progress_percent: progress,
        }
    }
}

/// A cancel request stops a running scan at the worker's next check: the
/// file in flight may still complete, no further one is taken, and finishing
/// then leaves the scan not running, marked cancelled, with the request
/// still visible.
pub proof fn lemma_cancel_stops_scan(s: DuplicateScan, groups: u64)
    requires
        s.running(),
    ensures
        !s.after_cancel().continues(),
        !s.after_cancel().after_file().continues(),
        s.after_cancel().action_of() == ScanAction::Finish,
        s.after_cancel().after_file().action_of() == ScanAction::Finish,
        !s.after_cancel().after_finish(groups).running(),
        s.after_cancel().after_finish(groups).phase == ScanPhase::Cancelled,
        s.after_cancel().after_file().after_finish(groups).phase == ScanPhase::Cancelled,
        s.after_cancel().after_finish(groups).cancel_requested,
{
}

/// Progress never exceeds 100.
pub proof fn lemma_percent_bounded(s: DuplicateScan)
    requires
        s.wf(),
    ensures
        s.status_of().progress_percent <= 100,
{
    if s.total_files > 0 {
        assert((100 * s.scanned_files) / (s.total_files as int) <= 100) by (nonlinear_arith)
            requires
                s.scanned_files <= s.total_files,
                s.total_files > 0,
        ;
    }
}

proof fn lemma_after_files(s: DuplicateScan, n: nat)
    requires
        s.wf(),
        s.running(),
        !s.cancel_requested,
        s.scanned_files + n <= s.total_files,
    ensures
        s.after_files(n) == (DuplicateScan { scanned_files: (s.scanned_files + n) as u64, ..s }),
    decreases n,
{
    if n > 0 {
        lemma_after_files(s, (n - 1) as nat);
    }
}

/// A run that nobody cancels asks for every remaining candidate in order,
/// then finishes: completed, with every candidate counted.
pub proof fn lemma_uncancelled_scan_completes(s: DuplicateScan, groups: u64)
    requires
        s.wf(),
        s.running(),
        !s.cancel_requested,
    ensures
        forall|k: nat|
            k < s.total_files - s.scanned_files ==> #[trigger] s.after_files(k).action_of()
                == ScanAction::ScanFile((s.scanned_files + k) as u64),
        s.after_files((s.total_files - s.scanned_files) as nat).action_of() == ScanAction::Finish,
        s.after_files((s.total_files - s.scanned_files) as nat).after_finish(groups).phase
            == ScanPhase::Completed,
        s.after_files((s.total_files - s.scanned_files) as nat).after_finish(groups).scanned_files
            == s.total_files,
{
    assert forall|k: nat| k < s.total_files - s.scanned_files implies #[trigger] s.after_files(k).action_of()
        == ScanAction::ScanFile((s.scanned_files + k) as u64) by {
        lemma_after_files(s, k);
    }
    lemma_after_files(s, (s.total_files - s.scanned_files) as nat);
}

} // verus!
