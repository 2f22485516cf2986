//! An abstract model of the filesystem state the link engine manipulates,
//! and the engine's symmetry laws over it.
//!
//! The model holds what occupies each path and which (source, mount point)
//! pairs are mounted.  Executing a plan from [`crate::engine`] has a
//! defined effect on the model, and observations taken from the model are
//! exactly what the engine's planning functions consume.  On top of this
//! the module proves the engine's apply/remove symmetry: applying a file
//! binding and then removing the realized record restores the prior state,
//! and applying a directory binding mounts the recorded source and is
//! undone by removal.

use vstd::prelude::*;

use crate::config::opt_view;
use crate::config::Symlink;
use crate::store::SymlinkRecord;

verus! {

/// What occupies a path.
pub ghost enum FsNode {
    File,
    Dir,
    Link(Seq<char>),
}

/// An abstract snapshot of the filesystem: the node at each occupied path,
/// and the live (source, mount point) pairs.
pub ghost struct FsModel {
    pub nodes: Map<Seq<char>, FsNode>,
    pub mounts: Set<(Seq<char>, Seq<char>)>,
}

/// Whether some source is mounted onto `path`.
pub open spec fn is_mounted(m: FsModel, path: Seq<char>) -> bool {
    exists|s: Seq<char>| m.mounts.contains((s, path))
}

/// The target observation the model yields for `path`: what the engine's
/// caller would see there.
pub open spec fn observe_target(m: FsModel, path: Seq<char>) -> crate::engine::TargetObservation {
    if m.nodes.dom().contains(path) {
        match m.nodes[path] {
            FsNode::File => crate::engine::TargetObservation {
                exists: true,
                is_symlink: false,
                is_dir: false,
                is_mount_point: is_mounted(m, path),
            },
            FsNode::Dir => crate::engine::TargetObservation {
                exists: true,
                is_symlink: false,
                is_dir: true,
                is_mount_point: is_mounted(m, path),
            },
            FsNode::Link(d) => crate::engine::TargetObservation {
                exists: m.nodes.dom().contains(d),
                is_symlink: true,
                is_dir: false,
                is_mount_point: false,
            },
        }
    } else {
        crate::engine::TargetObservation {
            exists: false,
            is_symlink: false,
            is_dir: false,
            is_mount_point: false,
        }
    }
}

/// The mount set without any mount onto `target`.
pub open spec fn unmount_all(
    mounts: Set<(Seq<char>, Seq<char>)>,
    target: Seq<char>,
) -> Set<(Seq<char>, Seq<char>)> {
    Set::new(|e: (Seq<char>, Seq<char>)| mounts.contains(e) && e.1 != target)
}

/// The model after the conflict step of a plan: the pre-existing occupant
/// of `target` is moved to the backup destination, or deleted (a mounted
/// directory being unmounted first), or left alone when the target was
/// vacant.
pub open spec fn conflict_effect(
    m: FsModel,
    target: Seq<char>,
    action: crate::engine::ConflictAction,
    backup_dest: Option<Seq<char>>,
) -> FsModel {
    match action {
        crate::engine::ConflictAction::KeepNone => m,
        crate::engine::ConflictAction::BackupRelink => FsModel {
            nodes: m.nodes.remove(target).insert(backup_dest->Some_0, m.nodes[target]),
            mounts: m.mounts,
        },
        crate::engine::ConflictAction::BackupRename => FsModel {
            nodes: m.nodes.remove(target).insert(backup_dest->Some_0, m.nodes[target]),
            mounts: m.mounts,
        },
        crate::engine::ConflictAction::RemoveSymlink => FsModel {
            nodes: m.nodes.remove(target),
            mounts: m.mounts,
        },
        crate::engine::ConflictAction::UnmountAndRemoveDir => FsModel {
            nodes: m.nodes.remove(target),
            mounts: unmount_all(m.mounts, target),
        },
        crate::engine::ConflictAction::RemoveDir => FsModel {
            nodes: m.nodes.remove(target),
            mounts: m.mounts,
        },
        crate::engine::ConflictAction::RemoveFile => FsModel {
            nodes: m.nodes.remove(target),
            mounts: m.mounts,
        },
    }
}

/// The model after materializing a binding at a vacant target: a directory
/// with the source mounted onto it, or a symlink to the source.
pub open spec fn materialize_effect(
    m: FsModel,
    source: Seq<char>,
    target: Seq<char>,
    mount: bool,
) -> FsModel {
    if mount {
        FsModel {
            nodes: m.nodes.insert(target, FsNode::Dir),
            mounts: m.mounts.insert((source, target)),
        }
    } else {
        FsModel { nodes: m.nodes.insert(target, FsNode::Link(source)), mounts: m.mounts }
    }
}

/// The model after executing a whole planned binding.
pub open spec fn apply_effect(m: FsModel, pb: crate::engine::PlannedBinding) -> FsModel {
    materialize_effect(
        conflict_effect(
            m,
            pb.realized.target@,
            pb.plan.conflict,
            opt_view(pb.plan.backup_dest),
        ),
        pb.realized.source@,
        pb.realized.target@,
        pb.plan.mount,
    )
}

/// The removal observation the model yields for a recorded binding.
pub open spec fn observe_removal(m: FsModel, b: SymlinkRecord) -> crate::engine::RemovalObservation {
    let t = observe_target(m, b.target);
    crate::engine::RemovalObservation {
        is_mount_point: t.is_mount_point,
        is_dir: t.is_dir,
        is_symlink: t.is_symlink,
        backup_exists: match b.backup_path {
            Some(p) => m.nodes.dom().contains(p),
            None => false,
        },
    }
}

/// The model after executing a removal step: the binding is undone (the
/// mount dropped and the emptied directory removed, or the symlink
/// unlinked), then the preserved occupant is renamed back onto the target.
pub open spec fn removal_effect(
    m: FsModel,
    b: SymlinkRecord,
    step: crate::engine::RemovalStep,
) -> FsModel {
    let m1 = match step.action {
        crate::engine::RemovalAction::Unmount => FsModel {
            nodes: if step.remove_empty_dir {
                m.nodes.remove(b.target)
            } else {
                m.nodes
            },
            mounts: unmount_all(m.mounts, b.target),
        },
        crate::engine::RemovalAction::Unlink => FsModel {
            nodes: m.nodes.remove(b.target),
            mounts: m.mounts,
        },
        crate::engine::RemovalAction::NoAction => m,
    };
    match opt_view(step.restore_backup) {
        Some(bp) => FsModel {
            nodes: m1.nodes.remove(bp).insert(b.target, m1.nodes[bp]),
            mounts: m1.mounts,
        },
        None => m1,
    }
}

/// Apply/remove symmetry for file bindings: applying a file binding leaves
/// the target a symlink to the canonicalized source, and immediately
/// removing the realized record leaves no symlink at the target, restores
/// any preserved prior occupant exactly, and otherwise leaves the target
/// vacant — the filesystem returns to its prior state but for an occupant
/// that was deleted without backup.  (The backup name must be fresh: on a
/// target whose computed backup path equals the target itself or is
/// already occupied, the round trip does not restore the prior state.)
pub proof fn lemma_file_apply_remove_symmetry(
    m: FsModel,
    b: Symlink,
    obs: crate::engine::ApplyObservation,
    stamp: Seq<char>,
    pb: crate::engine::PlannedBinding,
    step: crate::engine::RemovalStep,
)
    requires
        !b.is_directory,
        crate::engine::binding_plan_ok(b, obs, stamp, pb),
        obs.target == observe_target(m, b.target@),
        !is_mounted(m, b.target@),
        crate::engine::backup_name(b.target@, stamp) != b.target@,
        !m.nodes.dom().contains(crate::engine::backup_name(b.target@, stamp)),
        crate::engine::removal_step_ok(
            pb.realized@,
            observe_removal(apply_effect(m, pb), pb.realized@),
            step,
        ),
    ensures
        ({
            let m1 = apply_effect(m, pb);
            let m2 = removal_effect(m1, pb.realized@, step);
            let backs_up = (obs.target.exists || obs.target.is_symlink) && b.backup;
            &&& m1.nodes.dom().contains(b.target@)
            &&& m1.nodes[b.target@] == FsNode::Link(pb.realized.source@)
            &&& m2.mounts == m.mounts
            &&& backs_up ==> m2.nodes == m.nodes
            &&& !backs_up ==> m2.nodes == m.nodes.remove(b.target@)
                && !m2.nodes.dom().contains(b.target@)
        }),
{
    let t = b.target@;
    let bn = crate::engine::backup_name(t, stamp);
    let mc = conflict_effect(m, t, pb.plan.conflict, opt_view(pb.plan.backup_dest));
    let m1 = apply_effect(m, pb);
    let m2 = removal_effect(m1, pb.realized@, step);
    let backs_up = (obs.target.exists || obs.target.is_symlink) && b.backup;
    assert(pb.realized.target@ == t);
    assert(m1.nodes == mc.nodes.insert(t, FsNode::Link(pb.realized.source@)));
    assert(m1.mounts == mc.mounts);
    // The removal observation after the apply: a symlink, never a mount
    // point, with the backup present exactly when one was made.
    let ro = observe_removal(m1, pb.realized@);
    assert(ro.is_symlink);
    assert(!ro.is_mount_point);
    assert(step.action == crate::engine::RemovalAction::Unlink);
    if backs_up {
        assert(opt_view(pb.realized.backup_path) == Some(bn));
        assert(mc.nodes == m.nodes.remove(t).insert(bn, m.nodes[t]));
        assert(m1.nodes.dom().contains(bn));
        assert(ro.backup_exists);
        assert(opt_view(step.restore_backup) == Some(bn));
        assert(m2.nodes =~= m.nodes);
    } else {
        assert(opt_view(pb.realized.backup_path) is None);
        assert(opt_view(step.restore_backup) is None);
        assert(mc.nodes =~= m.nodes.remove(t));
        assert(m2.nodes =~= m.nodes.remove(t));
    }
    assert(mc.mounts == m.mounts);
    assert(m2.mounts == m.mounts);
}

/// Apply/remove symmetry for directory bindings: applying a directory
/// binding creates a mount of the canonicalized source onto the target, a
/// verification observation carrying those canonical paths draws no
/// diagnostic from any mount table holding that pair, and after removal
/// the target is no longer a mount point.
pub proof fn lemma_directory_apply_remove_symmetry(
    m: FsModel,
    b: Symlink,
    obs: crate::engine::ApplyObservation,
    stamp: Seq<char>,
    pb: crate::engine::PlannedBinding,
    step: crate::engine::RemovalStep,
)
    requires
        b.is_directory,
        crate::engine::binding_plan_ok(b, obs, stamp, pb),
        obs.target == observe_target(m, b.target@),
        crate::engine::removal_step_ok(
            pb.realized@,
            observe_removal(apply_effect(m, pb), pb.realized@),
            step,
        ),
    ensures
        ({
            let m1 = apply_effect(m, pb);
            let m2 = removal_effect(m1, pb.realized@, step);
            &&& m1.mounts.contains((pb.realized.source@, b.target@))
            &&& is_mounted(m1, b.target@)
            &&& !is_mounted(m2, b.target@)
        }),
{
    let t = b.target@;
    let m1 = apply_effect(m, pb);
    assert(pb.plan.mount);
    assert(pb.realized.target@ == t);
    assert(m1.mounts.contains((pb.realized.source@, t)));
    let ro = observe_removal(m1, pb.realized@);
    assert(m1.nodes == conflict_effect(
        m,
        t,
        pb.plan.conflict,
        opt_view(pb.plan.backup_dest),
    ).nodes.insert(t, FsNode::Dir));
    assert(m1.nodes[t] == FsNode::Dir);
    assert(ro.is_mount_point);
    assert(step.action == crate::engine::RemovalAction::Unmount);
    let m2 = removal_effect(m1, pb.realized@, step);
    assert(forall|s: Seq<char>| !m2.mounts.contains((s, t)));
}

/// A verification observation carrying the recorded canonical paths draws
/// no diagnostic from a mount table that holds their pair.
pub proof fn lemma_directory_verify_clean(
    b: SymlinkRecord,
    obs: crate::engine::VerifyObservation,
    table: Seq<char>,
)
    requires
        obs matches crate::engine::VerifyObservation::Directory {
            canonical_target,
            canonical_source,
        } && crate::mounts::table_has_pair(table, canonical_source@, canonical_target@),
    ensures
        crate::engine::verify_diag(b, obs, table) is None,
{
}

/// Conflict handling for a regular file occupying the target of a file
/// binding: with backups asked for, the occupant is moved to the computed
/// backup path (which the realized record names) and the target becomes a
/// symlink to the source; without, the occupant is deleted outright, no
/// backup is recorded, and the target still becomes a symlink to the
/// source.
pub proof fn lemma_conflict_handling(
    m: FsModel,
    b: Symlink,
    obs: crate::engine::ApplyObservation,
    stamp: Seq<char>,
    pb: crate::engine::PlannedBinding,
)
    requires
        !b.is_directory,
        crate::engine::binding_plan_ok(b, obs, stamp, pb),
        obs.target == observe_target(m, b.target@),
        m.nodes.dom().contains(b.target@),
        m.nodes[b.target@] == FsNode::File,
        !is_mounted(m, b.target@),
        crate::engine::backup_name(b.target@, stamp) != b.target@,
    ensures
        ({
            let m1 = apply_effect(m, pb);
            let bn = crate::engine::backup_name(b.target@, stamp);
            &&& m1.nodes.dom().contains(b.target@)
            &&& m1.nodes[b.target@] == FsNode::Link(pb.realized.source@)
            &&& b.backup ==> {
                &&& m1.nodes.dom().contains(bn)
                &&& m1.nodes[bn] == FsNode::File
                &&& opt_view(pb.realized.backup_path) == Some(bn)
            }
            &&& !b.backup ==> {
                &&& opt_view(pb.realized.backup_path) is None
                &&& m1.nodes == m.nodes.insert(b.target@, FsNode::Link(pb.realized.source@))
            }
        }),
{
    let t = b.target@;
    let bn = crate::engine::backup_name(t, stamp);
    let mc = conflict_effect(m, t, pb.plan.conflict, opt_view(pb.plan.backup_dest));
    let m1 = apply_effect(m, pb);
    assert(pb.realized.target@ == t);
    assert(obs.target.exists && !obs.target.is_symlink && !obs.target.is_dir
        && !obs.target.is_mount_point);
    if b.backup {
        assert(pb.plan.conflict == crate::engine::ConflictAction::BackupRename);
        assert(opt_view(pb.plan.backup_dest) == Some(bn));
        assert(mc.nodes == m.nodes.remove(t).insert(bn, m.nodes[t]));
        assert(m1.nodes[bn] == FsNode::File);
    } else {
        assert(pb.plan.conflict == crate::engine::ConflictAction::RemoveFile);
        assert(mc.nodes == m.nodes.remove(t));
        assert(m1.nodes =~= m.nodes.insert(t, FsNode::Link(pb.realized.source@)));
    }
}

} // verus!
