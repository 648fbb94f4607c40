use casa::install::{decide_entry, EntryDecision, Op};
use casa::file_ops::{
    CopyOp, CopyOpResult, Decision, FsStep, LinkOp, LinkOpResult, PathState, RemoveOp, RemoveOpResult,
};

#[test]
fn copy_without_force_skips_existing() {
    let op = CopyOp::new();
    assert_eq!(op.decide(false, true), Decision::Report(CopyOpResult::SkippedExisting));
}

#[test]
fn copy_with_force_replaces_existing() {
    let mut op = CopyOp::new();
    op.force(true);
    assert_eq!(op.decide(false, true), Decision::Perform(FsStep::ReplaceFile));
    assert_eq!(CopyOp::finish(FsStep::ReplaceFile, Ok(12)), CopyOpResult::CopiedForced(12));
}

#[test]
fn copy_fresh_and_directories() {
    let op = CopyOp::new();
    assert_eq!(op.decide(false, false), Decision::Perform(FsStep::CopyFile));
    assert_eq!(CopyOp::finish(FsStep::CopyFile, Ok(5)), CopyOpResult::Copied(5));
    assert_eq!(op.decide(true, true), Decision::Perform(FsStep::EnsureDir));
    assert_eq!(CopyOp::finish(FsStep::EnsureDir, Ok(0)), CopyOpResult::Copied(0));
    assert_eq!(
        CopyOp::finish(FsStep::CopyFile, Err("denied".to_string())),
        CopyOpResult::Error("denied".to_string())
    );
}

#[test]
fn dry_run_does_nothing() {
    let mut op = CopyOp::new();
    op.dry_run(true);
    op.force(true);
    assert_eq!(op.decide(false, true), Decision::Report(CopyOpResult::DryRun));
    let mut rm = RemoveOp::new();
    rm.dry_run(true);
    assert_eq!(rm.decide(&PathState::File), Decision::Report(RemoveOpResult::DryRun));
    let mut ln = LinkOp::new();
    ln.dry_run(true);
    assert_eq!(ln.decide(false, false), Decision::Report(LinkOpResult::DryRun));
}

#[test]
fn remove_missing_is_skipped() {
    let op = RemoveOp::new();
    assert_eq!(op.decide(&PathState::Missing), Decision::Report(RemoveOpResult::SkippedNotFound));
    assert_eq!(op.decide(&PathState::Dir), Decision::Perform(FsStep::RemoveDirAll));
    assert_eq!(op.decide(&PathState::File), Decision::Perform(FsStep::RemoveFile));
    assert_eq!(
        op.decide(&PathState::Unreadable("denied".to_string())),
        Decision::Report(RemoveOpResult::Error("denied".to_string()))
    );
    assert_eq!(RemoveOp::finish(Ok(())), RemoveOpResult::Removed);
}

#[test]
fn link_kinds() {
    let mut op = LinkOp::new();
    assert_eq!(op.decide(false, false), Decision::Perform(FsStep::Link { symlink: true }));
    op.is_hardlink(true);
    op.force(true);
    assert_eq!(op.decide(false, true), Decision::Perform(FsStep::ReplaceLink { symlink: false }));
    assert_eq!(
        LinkOp::finish(FsStep::ReplaceLink { symlink: false }, Ok(())),
        LinkOpResult::Linked { symlink: false, hardlink: true }
    );
    op.is_symlink(true);
    assert!(op.symlink);
    op.force(false);
    assert_eq!(op.decide(false, true), Decision::Report(LinkOpResult::SkippedExisting));
    assert_eq!(LinkOp::symlink(), FsStep::Link { symlink: true });
    assert_eq!(LinkOp::hardlink(), FsStep::Link { symlink: false });
    assert_eq!(LinkOp::finish(FsStep::EnsureDir, Ok(())), LinkOpResult::Linked { symlink: false, hardlink: false });
}

#[test]
fn entry_decisions_per_operation() {
    let cp = CopyOp::new();
    let ln = LinkOp::new();
    let rm = RemoveOp::new();
    assert_eq!(decide_entry(&cp, &ln, &rm, Op::Remove, true, &PathState::Dir), EntryDecision::Skip);
    assert_eq!(
        decide_entry(&cp, &ln, &rm, Op::Remove, false, &PathState::Missing),
        EntryDecision::Remove(Decision::Report(RemoveOpResult::SkippedNotFound))
    );
    assert_eq!(
        decide_entry(&cp, &ln, &rm, Op::Copy, false, &PathState::Unreadable("x".to_string())),
        EntryDecision::Copy(Decision::Perform(FsStep::CopyFile))
    );
    assert_eq!(
        decide_entry(&cp, &ln, &rm, Op::Link, false, &PathState::File),
        EntryDecision::Link(Decision::Report(LinkOpResult::SkippedExisting))
    );
}
