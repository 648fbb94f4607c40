//! The copy, link and remove operations as decisions: what to do with one
//! visited entry given the state of its destination, and what result to report
//! once the filesystem call has been made.

use vstd::prelude::*;

verus! {

/// What the destination of an entry currently is.
#[derive(Clone, Debug, PartialEq, Eq)]
pub enum PathState {
    Missing,
    File,
    Dir,
    /// Its metadata could not be read, for the reason given.
    Unreadable(String),
}

/// The filesystem work that an operation asks for on one entry.
#[derive(Clone, Copy, Debug, PartialEq, Eq)]
pub enum FsStep {
    /// Create the destination directory and its parents.
    EnsureDir,
    /// Copy the source file's bytes to the destination.
    CopyFile,
    /// Remove the existing destination file, then copy.
    ReplaceFile,
    /// Create a link at the destination; `symlink` tells symbolic from hard.
    Link { symlink: bool },
    /// Remove the existing destination file, then link.
    ReplaceLink { symlink: bool },
    /// Remove the destination directory and all it holds.
    RemoveDirAll,
    /// Remove the destination file.
    RemoveFile,
}

/// What an operation reports for one entry.
#[derive(Clone, Debug, PartialEq, Eq)]
pub enum CopyOpResult {
    Copied(u64),
    CopiedForced(u64),
    SkippedExisting,
    DryRun,
    Error(String),
}

#[derive(Clone, Debug, PartialEq, Eq)]
pub enum LinkOpResult {
    Linked { symlink: bool, hardlink: bool },
    SkippedExisting,
    DryRun,
    Error(String),
}

#[derive(Clone, Debug, PartialEq, Eq)]
pub enum RemoveOpResult {
    Removed,
    SkippedNotFound,
    DryRun,
    Error(String),
}

/// Either a result to report at once, or a step to perform first.
#[derive(Clone, Debug, PartialEq, Eq)]
pub enum Decision<R> {
    Report(R),
    Perform(FsStep),
}

/// Copies files; directories are created, never copied.
#[derive(Clone, Copy, Debug, PartialEq, Eq)]
pub struct CopyOp {
    pub dry_run: bool,
    pub force: bool,
}

impl CopyOp {
    pub fn new() -> (r: CopyOp)
        ensures
            !r.dry_run && !r.force,
    {
        CopyOp { dry_run: false, force: false }
    }

    pub fn dry_run(&mut self, yes: bool)
        ensures
            final(self).dry_run == yes,
            final(self).force == old(self).force,
    {
        self.dry_run = yes;
    }

    pub fn force(&mut self, yes: bool)
        ensures
            final(self).force == yes,
            final(self).dry_run == old(self).dry_run,
    {
        self.force = yes;
    }

    /// The step for an entry, `is_dir` telling whether it is a directory and
    /// `dst_exists` whether its destination exists.
    pub open spec fn decision(&self, is_dir: bool, dst_exists: bool) -> Decision<CopyOpResult> {
        if self.dry_run {
            Decision::Report(CopyOpResult::DryRun)
        } else if is_dir {
            Decision::Perform(FsStep::EnsureDir)
        } else if dst_exists && !self.force {
            Decision::Report(CopyOpResult::SkippedExisting)
        } else if dst_exists {
            Decision::Perform(FsStep::ReplaceFile)
        } else {
            Decision::Perform(FsStep::CopyFile)
        }
    }

    pub fn decide(&self, is_dir: bool, dst_exists: bool) -> (r: Decision<CopyOpResult>)
        ensures
            r == self.decision(is_dir, dst_exists),
            r == (if self.dry_run {
                Decision::Report(CopyOpResult::DryRun)
            } else if is_dir {
                Decision::Perform(FsStep::EnsureDir)
            } else if dst_exists && !self.force {
                Decision::Report(CopyOpResult::SkippedExisting)
            } else if dst_exists {
                Decision::Perform(FsStep::ReplaceFile)
            } else {
                Decision::Perform(FsStep::CopyFile)
            }),
    {
        if self.dry_run {
            Decision::Report(CopyOpResult::DryRun)
        } else if is_dir {
            Decision::Perform(FsStep::EnsureDir)
        } else if dst_exists && !self.force {
            Decision::Report(CopyOpResult::SkippedExisting)
        } else if dst_exists {
            Decision::Perform(FsStep::ReplaceFile)
        } else {
            Decision::Perform(FsStep::CopyFile)
        }
    }

    /// The result of a performed step, from the bytes copied or the failure.
    pub fn finish(step: FsStep, outcome: Result<u64, String>) -> (r: CopyOpResult)
        ensures
            r == (match outcome {
                Err(e) => CopyOpResult::Error(e),
                Ok(n) => match step {
                    FsStep::EnsureDir => CopyOpResult::Copied(0),
                    FsStep::ReplaceFile => CopyOpResult::CopiedForced(n),
                    _ => CopyOpResult::Copied(n),
                },
            }),
    {
        match outcome {
            Err(e) => CopyOpResult::Error(e),
            Ok(n) => match step {
                FsStep::EnsureDir => CopyOpResult::Copied(0),
                FsStep::ReplaceFile => CopyOpResult::CopiedForced(n),
                _ => CopyOpResult::Copied(n),
            },
        }
    }
}

/// Links files; directories along the way are created.
#[derive(Clone, Copy, Debug, PartialEq, Eq)]
pub struct LinkOp {
    pub dry_run: bool,
    pub force: bool,
    pub symlink: bool,
}

impl LinkOp {
    pub fn new() -> (r: LinkOp)
        ensures
            !r.dry_run && !r.force && r.symlink,
    {
        LinkOp { dry_run: false, force: false, symlink: true }
    }

    pub fn dry_run(&mut self, yes: bool)
        ensures
            *final(self) == (LinkOp { dry_run: yes, ..*old(self) }),
    {
        self.dry_run = yes;
    }

    pub fn force(&mut self, yes: bool)
        ensures
            *final(self) == (LinkOp { force: yes, ..*old(self) }),
    {
        self.force = yes;
    }

    pub fn is_symlink(&mut self, yes: bool)
        ensures
            *final(self) == (LinkOp { symlink: yes, ..*old(self) }),
    {
        self.symlink = yes;
    }

    pub fn is_hardlink(&mut self, yes: bool)
        ensures
            *final(self) == (LinkOp { symlink: !yes, ..*old(self) }),
    {
        self.symlink = !yes;
    }

    /// The step that makes a symbolic link, whatever the destination holds.
    pub fn symlink() -> (r: FsStep)
        ensures
            r == (FsStep::Link { symlink: true }),
    {
        FsStep::Link { symlink: true }
    }

    /// The step that makes a hard link, whatever the destination holds.
    pub fn hardlink() -> (r: FsStep)
        ensures
            r == (FsStep::Link { symlink: false }),
    {
        FsStep::Link { symlink: false }
    }

    /// The step for an entry, as for a copy but ending in a link.
    pub open spec fn decision(&self, is_dir: bool, dst_exists: bool) -> Decision<LinkOpResult> {
        if self.dry_run {
            Decision::Report(LinkOpResult::DryRun)
        } else if is_dir {
            Decision::Perform(FsStep::EnsureDir)
        } else if dst_exists && !self.force {
            Decision::Report(LinkOpResult::SkippedExisting)
        } else if dst_exists {
            Decision::Perform(FsStep::ReplaceLink { symlink: self.symlink })
        } else {
            Decision::Perform(FsStep::Link { symlink: self.symlink })
        }
    }

    pub fn decide(&self, is_dir: bool, dst_exists: bool) -> (r: Decision<LinkOpResult>)
        ensures
            r == self.decision(is_dir, dst_exists),
            r == (if self.dry_run {
                Decision::Report(LinkOpResult::DryRun)
            } else if is_dir {
                Decision::Perform(FsStep::EnsureDir)
            } else if dst_exists && !self.force {
                Decision::Report(LinkOpResult::SkippedExisting)
            } else if dst_exists {
                Decision::Perform(FsStep::ReplaceLink { symlink: self.symlink })
            } else {
                Decision::Perform(FsStep::Link { symlink: self.symlink })
            }),
    {
        if self.dry_run {
            Decision::Report(LinkOpResult::DryRun)
        } else if is_dir {
            Decision::Perform(FsStep::EnsureDir)
        } else if dst_exists && !self.force {
            Decision::Report(LinkOpResult::SkippedExisting)
        } else if dst_exists {
            Decision::Perform(FsStep::ReplaceLink { symlink: self.symlink })
        } else {
            Decision::Perform(FsStep::Link { symlink: self.symlink })
        }
    }

    /// The result of a performed step.
    pub fn finish(step: FsStep, outcome: Result<(), String>) -> (r: LinkOpResult)
        ensures
            r == (match outcome {
                Err(e) => LinkOpResult::Error(e),
                Ok(_) => match step {
                    FsStep::Link { symlink } | FsStep::ReplaceLink { symlink } => LinkOpResult::Linked {
                        symlink,
                        hardlink: !symlink,
                    },
                    _ => LinkOpResult::Linked { symlink: false, hardlink: false },
                },
            }),
    {
        match outcome {
            Err(e) => LinkOpResult::Error(e),
            Ok(_) => match step {
                FsStep::Link { symlink } | FsStep::ReplaceLink { symlink } => LinkOpResult::Linked {
                    symlink,
                    hardlink: !symlink,
                },
                _ => LinkOpResult::Linked { symlink: false, hardlink: false },
            },
        }
    }
}

/// Removes destinations.
#[derive(Clone, Copy, Debug, PartialEq, Eq)]
pub struct RemoveOp {
    pub dry_run: bool,
    pub force: bool,
}

impl RemoveOp {
    pub fn new() -> (r: RemoveOp)
        ensures
            !r.dry_run && !r.force,
    {
        RemoveOp { dry_run: false, force: false }
    }

    pub fn dry_run(&mut self, yes: bool)
        ensures
            final(self).dry_run == yes,
            final(self).force == old(self).force,
    {
        self.dry_run = yes;
    }

    pub fn force(&mut self, yes: bool)
        ensures
            final(self).force == yes,
            final(self).dry_run == old(self).dry_run,
    {
        self.force = yes;
    }

    /// The step for a destination in state `target`. A missing destination
    /// is skipped, never an error.
    pub open spec fn decision(&self, target: PathState) -> Decision<RemoveOpResult> {
        if self.dry_run {
            Decision::Report(RemoveOpResult::DryRun)
        } else {
            match target {
                PathState::Missing => Decision::Report(RemoveOpResult::SkippedNotFound),
                PathState::Unreadable(e) => Decision::Report(RemoveOpResult::Error(e)),
                PathState::Dir => Decision::Perform(FsStep::RemoveDirAll),
                PathState::File => Decision::Perform(FsStep::RemoveFile),
            }
        }
    }

    pub fn decide(&self, target: &PathState) -> (r: Decision<RemoveOpResult>)
        ensures
            r == self.decision(*target),
            r == (if self.dry_run {
                Decision::Report(RemoveOpResult::DryRun)
            } else {
                match *target {
                    PathState::Missing => Decision::Report(RemoveOpResult::SkippedNotFound),
                    PathState::Unreadable(e) => Decision::Report(RemoveOpResult::Error(e)),
                    PathState::Dir => Decision::Perform(FsStep::RemoveDirAll),
                    PathState::File => Decision::Perform(FsStep::RemoveFile),
                }
            }),
    {
        if self.dry_run {
            return Decision::Report(RemoveOpResult::DryRun);
        }
        match target {
            PathState::Missing => Decision::Report(RemoveOpResult::SkippedNotFound),
            PathState::Unreadable(e) => Decision::Report(RemoveOpResult::Error(e.clone())),
            PathState::Dir => Decision::Perform(FsStep::RemoveDirAll),
            PathState::File => Decision::Perform(FsStep::RemoveFile),
        }
    }

    /// The result of a performed removal.
    pub fn finish(outcome: Result<(), String>) -> (r: RemoveOpResult)
        ensures
            r == (match outcome {
                Err(e) => RemoveOpResult::Error(e),
                Ok(_) => RemoveOpResult::Removed,
            }),
    {
        match outcome {
            Err(e) => RemoveOpResult::Error(e),
            Ok(_) => RemoveOpResult::Removed,
        }
    }
}

} // verus!
