//! The backup store: for each target one snapshot that is written once and
//! one that is overwritten before every change.

use vstd::prelude::*;
use crate::settings::{copy_opt, opt_text};
use crate::text::chars::owned;

verus! {

/// The two snapshots of one target.
#[derive(Debug, Clone, PartialEq, Eq)]
pub struct SnapshotPair {
    /// The configuration as it was when the target was first backed up.
    pub original: Option<String>,
    /// The configuration as it was when the target was last backed up.
    pub current: Option<String>,
}

/// What a `SnapshotPair` holds, as texts.
pub struct SnapshotPairView {
    pub original: Option<Seq<char>>,
    pub current: Option<Seq<char>>,
}

impl View for SnapshotPair {
    type V = SnapshotPairView;

    open spec fn view(&self) -> SnapshotPairView {
        SnapshotPairView { original: opt_text(self.original), current: opt_text(self.current) }
    }
}

/// What is on disk for one target that lives in a file.
#[derive(Debug, Clone, PartialEq, Eq)]
pub struct FileTarget {
    /// Where the configuration lives, if that could be resolved.
    pub path: Option<String>,
    /// The configuration, if the file exists.
    pub content: Option<String>,
    /// The snapshots, if the backup directory could be resolved.
    pub backups: Option<SnapshotPair>,
}

/// What a `FileTarget` holds, as texts.
pub struct FileTargetView {
    pub path: Option<Seq<char>>,
    pub content: Option<Seq<char>>,
    pub backups: Option<SnapshotPairView>,
}

/// The view of optional snapshots.
pub open spec fn opt_snapshots(o: Option<SnapshotPair>) -> Option<SnapshotPairView> {
    match o {
        Some(pair) => Some(pair@),
        None => None,
    }
}

impl View for FileTarget {
    type V = FileTargetView;

    open spec fn view(&self) -> FileTargetView {
        FileTargetView {
            path: opt_text(self.path),
            content: opt_text(self.content),
            backups: opt_snapshots(self.backups),
        }
    }
}

/// The message for a backup directory that cannot be resolved.
pub open spec fn no_backup_dir() -> Seq<char> {
    "无法获取备份目录"@
}

/// The message for a snapshot whose place cannot be resolved.
pub open spec fn no_backup_path() -> Seq<char> {
    "无法获取备份路径"@
}

/// The snapshots after a backup of `content`: the first one is written only
/// where there was none, the last one always.
pub open spec fn snapshots_after(pair: SnapshotPairView, content: Seq<char>) -> SnapshotPairView {
    SnapshotPairView {
        original: if pair.original is Some {
            pair.original
        } else {
            Some(content)
        },
        current: Some(content),
    }
}

/// The target after a backup. Without a configuration there is nothing to
/// back up and nothing changes; with one, the backup directory must be
/// known.
pub open spec fn backed_up(target: FileTargetView) -> Result<FileTargetView, Seq<char>> {
    match target.content {
        None => Ok(target),
        Some(content) => match target.backups {
            None => Err(no_backup_dir()),
            Some(pair) => Ok(
                FileTargetView { backups: Some(snapshots_after(pair, content)), ..target },
            ),
        },
    }
}

/// The snapshot that a restore takes: the first or the last.
pub open spec fn snapshot(pair: SnapshotPairView, to_original: bool) -> Option<Seq<char>> {
    if to_original {
        pair.original
    } else {
        pair.current
    }
}

/// The target after a restore: `Ok(None)` where the snapshot does not
/// exist, and else the target with the snapshot as its configuration. The
/// snapshots themselves stay.
pub open spec fn restored(target: FileTargetView, to_original: bool) -> Result<
    Option<FileTargetView>,
    Seq<char>,
> {
    match target.backups {
        None => Err(no_backup_path()),
        Some(pair) => match snapshot(pair, to_original) {
            None => Ok(None),
            Some(content) => Ok(Some(FileTargetView { content: Some(content), ..target })),
        },
    }
}

/// Backs the configuration of `target` up.
pub fn backup_config(target: &mut FileTarget) -> (r: Result<(), String>)
    ensures
        match backed_up(old(target)@) {
            Ok(after) => r is Ok && final(target)@ == after,
            Err(e) => r is Err && r->Err_0@ == e && final(target)@ == old(target)@,
        },
{
    let content = match &target.content {
        None => {
            return Ok(());
        },
        Some(content) => owned(content.as_str()),
    };
    let original = match &target.backups {
        None => {
            return Err(owned("无法获取备份目录"));
        },
        Some(pair) => match &pair.original {
            Some(first) => owned(first.as_str()),
            None => owned(content.as_str()),
        },
    };
    target.backups = Some(SnapshotPair { original: Some(original), current: Some(content) });
    Ok(())
}

/// Restores the configuration of `target` from its first snapshot
/// (`to_original`) or its last; `Ok(false)` where that snapshot does not
/// exist.
pub fn restore_config(target: &mut FileTarget, to_original: bool) -> (r: Result<bool, String>)
    ensures
        match restored(old(target)@, to_original) {
            Ok(Some(after)) => r == Ok::<bool, String>(true) && final(target)@ == after,
            Ok(None) => r == Ok::<bool, String>(false) && final(target)@ == old(target)@,
            Err(e) => r is Err && r->Err_0@ == e && final(target)@ == old(target)@,
        },
{
    let found = match &target.backups {
        None => {
            return Err(owned("无法获取备份路径"));
        },
        Some(pair) => if to_original {
            copy_opt(&pair.original)
        } else {
            copy_opt(&pair.current)
        },
    };
    match found {
        None => Ok(false),
        Some(content) => {
            target.content = Some(content);
            Ok(true)
        },
    }
}

} // verus!
