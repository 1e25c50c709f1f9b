//! Sync bookkeeping: the options a run obeys, its tally, and the
//! decision after each file. Copying, backing up and deleting files
//! happens in the shell, which reports each outcome here.

use vstd::prelude::*;

verus! {

/// Options for a sync run.
#[derive(Debug, Clone, Copy, PartialEq, Eq, Structural)]
pub struct SyncOptions {
    /// Back a file up before overwriting it.
    pub create_backup: bool,
    /// Keep going when a single file fails.
    pub continue_on_error: bool,
    /// Report what would happen without touching anything.
    pub dry_run: bool,
}

impl Default for SyncOptions {
    /// Back up, keep going, touch the files.
    fn default() -> (r: SyncOptions)
        ensures
            r.create_backup == true,
            r.continue_on_error == true,
            r.dry_run == false,
    {
        SyncOptions { create_backup: true, continue_on_error: true, dry_run: false }
    }
}

/// The tally of a sync run.
#[derive(Debug)]
pub struct SyncResult {
    pub synced: usize,
    pub failed: usize,
    pub skipped: usize,
    /// One message per failed file.
    pub errors: Vec<String>,
}

impl SyncResult {
    /// An empty tally.
    pub fn new() -> (r: SyncResult)
        ensures
            r.synced == 0,
            r.failed == 0,
            r.skipped == 0,
            r.errors@.len() == 0,
    {
        SyncResult { synced: 0, failed: 0, skipped: 0, errors: Vec::new() }
    }
}

/// The engine deciding how a sync run proceeds.
pub struct SyncEngine {
    options: SyncOptions,
}

impl SyncEngine {
    /// The options in force.
    pub closed spec fn spec_options(self) -> SyncOptions {
        self.options
    }

    /// An engine obeying the given options.
    pub fn new(options: SyncOptions) -> (r: SyncEngine)
        ensures
            r.spec_options() == options,
    {
        SyncEngine { options }
    }

    /// The options in force.
    pub fn options(&self) -> (r: SyncOptions)
        ensures
            r == self.spec_options(),
    {
        self.options
    }

    /// Record one file's outcome and decide whether the run goes on: a
    /// success bumps the synced count; a failure bumps the failed count,
    /// keeps the message, and stops the run unless errors are to be
    /// ridden out.
    pub fn record_outcome(&self, result: &mut SyncResult, error: Option<String>) -> (go_on: bool)
        ensures
            match error {
                Option::None => {
                    &&& final(result).synced == (if old(result).synced < usize::MAX {
                        old(result).synced + 1
                    } else {
                        old(result).synced as int
                    })
                    &&& final(result).failed == old(result).failed
                    &&& final(result).errors == old(result).errors
                    &&& go_on == true
                },
                Option::Some(msg) => {
                    &&& final(result).failed == (if old(result).failed < usize::MAX {
                        old(result).failed + 1
                    } else {
                        old(result).failed as int
                    })
                    &&& final(result).synced == old(result).synced
                    &&& final(result).errors@ == old(result).errors@.push(msg)
                    &&& go_on == self.spec_options().continue_on_error
                },
            },
    {
        match error {
            Option::None => {
                if result.synced < usize::MAX {
                    result.synced = result.synced + 1;
                }
                true
            },
            Option::Some(msg) => {
                if result.failed < usize::MAX {
                    result.failed = result.failed + 1;
                }
                result.errors.push(msg);
                self.options.continue_on_error
            },
        }
    }
}

impl Default for SyncEngine {
    /// An engine with the default options.
    fn default() -> (r: SyncEngine)
        ensures
            r.spec_options().continue_on_error == true,
    {
        SyncEngine::new(SyncOptions { create_backup: true, continue_on_error: true, dry_run: false })
    }
}

} // verus!
