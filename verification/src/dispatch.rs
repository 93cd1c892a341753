//! Starting a VM: when it may be resumed, and when its boot time is reported.

use vstd::prelude::*;

verus! {

/// A VM whose boot has begun. Times are readings of the caller's clock.
pub struct InitializedVm {
    boot_start: u64,
}

impl InitializedVm {
    /// When the boot began.
    pub closed spec fn boot_start(&self) -> u64 {
        self.boot_start
    }

    /// Takes note of when the boot began.
    pub fn new_with_hypervisor(now: u64) -> (r: InitializedVm)
        ensures
            r.boot_start() == now,
    {
        InitializedVm { boot_start: now }
    }

    /// Loads the VM, which is not running yet.
    pub fn load(self) -> (r: LoadedVm)
        ensures
            !r.is_running(),
            r.boot_start() == Some(self.boot_start()),
    {
        LoadedVm { running: false, boot_start: Some(self.boot_start) }
    }
}

/// What a resume calls for.
#[derive(Copy, Clone, Debug, PartialEq, Eq, Structural)]
pub enum Resume {
    /// Nothing: the VM is running already.
    AlreadyRunning,
    /// Report the boot time, if there is one to report, then start the VM.
    Start {
        /// When the boot began.
        boot_start: Option<u64>,
    },
}

/// What a resume comes to: what it calls for, and when the boot began as far as that
/// is still to be reported.
pub open spec fn resume_of(running: bool, boot_start: Option<u64>) -> (Resume, Option<u64>) {
    if running {
        (Resume::AlreadyRunning, boot_start)
    } else {
        (Resume::Start { boot_start }, None)
    }
}

/// A VM that is running is left alone. One that is not is started, and the time its
/// boot began goes along, once: a second resume before the start has none.
pub proof fn law_boot_time_is_reported_once(running: bool, boot_start: Option<u64>)
    ensures
        running ==> resume_of(running, boot_start).0 == Resume::AlreadyRunning && resume_of(
            running,
            boot_start,
        ).1 == boot_start,
        !running ==> resume_of(running, boot_start).0 == (Resume::Start { boot_start }),
        !running ==> resume_of(running, resume_of(running, boot_start).1).0 == (Resume::Start {
            boot_start: None,
        }),
{
}

/// A VM is loaded with the time that its boot began, and is not running.
pub proof fn law_loading(now: u64, vm: InitializedVm, r: LoadedVm)
    requires
        call_ensures(InitializedVm::new_with_hypervisor, (now,), vm),
        call_ensures(InitializedVm::load, (vm,), r),
    ensures
        !r.is_running(),
        r.boot_start() == Some(now),
{
}

/// A loaded VM.
pub struct LoadedVm {
    running: bool,
    boot_start: Option<u64>,
}

impl LoadedVm {
    /// Whether the VM is running.
    pub closed spec fn is_running(&self) -> bool {
        self.running
    }

    /// When the boot began, as long as that has not been reported.
    pub closed spec fn boot_start(&self) -> Option<u64> {
        self.boot_start
    }

    /// Decides what a resume calls for. The boot time is handed out once.
    pub fn resume(&mut self) -> (r: Resume)
        ensures
            old(self).is_running() ==> r == Resume::AlreadyRunning && *final(self) == *old(self),
            !old(self).is_running() ==> r == (Resume::Start { boot_start: old(self).boot_start() })
                && final(self).boot_start() is None && !final(self).is_running(),
            (r, final(self).boot_start()) == resume_of(
                old(self).is_running(),
                old(self).boot_start(),
            ),
            final(self).is_running() == old(self).is_running(),
    {
        if self.running {
            return Resume::AlreadyRunning;
        }
        let boot_start = self.boot_start.take();
        Resume::Start { boot_start }
    }

    /// Takes note that the VM has been started.
    pub fn note_started(&mut self)
        ensures
            final(self).is_running(),
            final(self).boot_start() == old(self).boot_start(),
    {
        self.running = true;
    }
}

} // verus!
