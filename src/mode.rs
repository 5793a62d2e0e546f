use vstd::prelude::*;

verus! {

/// Umask applied by `Copy` when the configuration gives none.
pub const DEFAULT_UMASK: u32 = 0o002;

/// Base mode of a replicated directory before the umask is applied.
pub const DIR_MODE: u32 = 0o777;

/// Base mode of a replicated non-executable file before the umask is applied.
pub const FILE_MODE: u32 = 0o666;

/// Base mode of a replicated executable file before the umask is applied.
pub const EXE_FILE_MODE: u32 = 0o777;

/// The owner-execute bit: the executable flag that `Depends` hashes.
pub const EXE_CHECK_MASK: u32 = 0o100;

/// All execute bits: a copied file keeps its executability when any is set.
pub const EXE_ANY_MASK: u32 = 0o111;

/// The type of a filesystem node, as seen without following a symlink.
#[derive(Clone, Copy, Debug, PartialEq, Eq, Structural)]
pub enum EntryKind {
    File,
    Dir,
    Symlink,
    Other,
}

/// Symlink-aware stat data of one filesystem node.
#[derive(Clone, Copy, Debug, PartialEq, Eq, Structural)]
pub struct Metadata {
    pub kind: EntryKind,
    /// Permission bits, as `st_mode & 0o7777` or the whole `st_mode`.
    pub mode: u32,
    pub uid: u32,
    pub gid: u32,
}

pub open spec fn is_executable_mode(mode: u32) -> bool {
    mode & EXE_CHECK_MASK != 0
}

pub open spec fn has_exec_bit_mode(mode: u32) -> bool {
    mode & EXE_ANY_MASK != 0
}

/// The mode that replication applies to a node, `None` for a symlink.
pub open spec fn compute_mode_spec(meta: Metadata, preserve_permissions: bool, umask: u32) -> Option<u32> {
    if meta.kind == EntryKind::Symlink {
        None
    } else if preserve_permissions {
        Some(meta.mode)
    } else {
        let base = if meta.kind == EntryKind::Dir {
            DIR_MODE
        } else if has_exec_bit_mode(meta.mode) {
            EXE_FILE_MODE
        } else {
            FILE_MODE
        };
        Some(base & !umask)
    }
}

/// Whether the owner-execute bit of `mode` is set.
pub fn is_executable(mode: u32) -> (r: bool)
    ensures
        r == is_executable_mode(mode),
{
    mode & EXE_CHECK_MASK != 0
}

/// Whether any execute bit (owner, group or other) of `mode` is set.
pub fn has_exec_bit(mode: u32) -> (r: bool)
    ensures
        r == has_exec_bit_mode(mode),
{
    mode & EXE_ANY_MASK != 0
}

/// Mode to apply to a replicated node: none for symlinks, the node's own
/// mode when permissions are preserved, otherwise the normalised base mode
/// (directory, file with any execute bit set, or plain file) with the umask
/// bits cleared.
pub fn compute_mode(meta: &Metadata, preserve_permissions: bool, umask: u32) -> (r: Option<u32>)
    ensures
        r == compute_mode_spec(*meta, preserve_permissions, umask),
{
    if meta.kind == EntryKind::Symlink {
        return None;
    }
    if preserve_permissions {
        Some(meta.mode)
    } else {
        let base_mode = if meta.kind == EntryKind::Dir {
            DIR_MODE
        } else if has_exec_bit(meta.mode) {
            EXE_FILE_MODE
        } else {
            FILE_MODE
        };
        Some(base_mode & !umask)
    }
}

/// With the umask `0o022`, a plain file gets `0o644`, a file with any
/// execute bit set `0o755` and a directory `0o755`.
pub proof fn lemma_mode_under_umask_022(meta: Metadata)
    requires
        meta.kind != EntryKind::Symlink,
    ensures
        compute_mode_spec(meta, false, 0o022) == Some(
            if meta.kind == EntryKind::Dir || has_exec_bit_mode(meta.mode) {
                0o755u32
            } else {
                0o644u32
            },
        ),
{
    assert(0o777u32 & !0o022u32 == 0o755u32) by (bit_vector);
    assert(0o666u32 & !0o022u32 == 0o644u32) by (bit_vector);
}

/// A symlink never gets a mode, and preserving permissions keeps the mode
/// whatever the umask is.
pub proof fn lemma_mode_symlink_and_preserve(meta: Metadata, umask1: u32, umask2: u32, preserve: bool)
    ensures
        meta.kind == EntryKind::Symlink ==> compute_mode_spec(meta, preserve, umask1) is None,
        meta.kind != EntryKind::Symlink ==> compute_mode_spec(meta, true, umask1) == Some(meta.mode),
        compute_mode_spec(meta, true, umask1) == compute_mode_spec(meta, true, umask2),
{
}

} // verus!
