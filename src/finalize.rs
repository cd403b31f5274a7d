use vstd::prelude::*;

verus! {

/// A filesystem mutation that the caller performs.
#[derive(Clone, Debug)]
pub enum FsAction {
    /// Delete the file if it exists.
    RemoveIfExists(String),
    /// Delete `path` if it exists, then rename `part` onto it.
    ReplaceWithPart { part: String, path: String },
    /// Delete `dest` if it exists, then make it a symbolic link to `src`.
    Symlink { src: String, dest: String },
}

/// Whether the action touches the file at `p`.
pub open spec fn touches(a: FsAction, p: Seq<char>) -> bool {
    match a {
        FsAction::RemoveIfExists(x) => x@ == p,
        FsAction::ReplaceWithPart { part, path } => part@ == p || path@ == p,
        FsAction::Symlink { src, dest } => dest@ == p,
    }
}

/// A staged change: the actions that make it visible, run in order, each only after the
/// previous one succeeded; and the actions that undo it if it is never committed, all run.
#[derive(Debug)]
pub struct Finalize {
    pub finalize: Vec<FsAction>,
    pub cancel: Vec<FsAction>,
}

/// The commit of a `.part` download: replace the target by the staged file.
pub open spec fn part_commit(path: String, part: String) -> Seq<FsAction> {
    seq![FsAction::ReplaceWithPart { part, path }]
}

/// The rollback of a `.part` download: remove the staged file.
pub open spec fn part_rollback(part: String) -> Seq<FsAction> {
    seq![FsAction::RemoveIfExists(part)]
}

impl Finalize {
    /// Stages the move of `part_path` onto `path`; nothing is staged if the transfer was
    /// already finalized.
    pub fn for_part_path(path: String, part_path: String, finalized: bool) -> (r: Self)
        ensures
            finalized ==> r.finalize@.len() == 0 && r.cancel@.len() == 0,
            !finalized ==> r.finalize@ == part_commit(path, part_path) && r.cancel@ == part_rollback(part_path),
    {
        if finalized {
            return Self::noop();
        }
        let part2 = part_path.clone();
        let mut finalize: Vec<FsAction> = Vec::new();
        finalize.push(FsAction::ReplaceWithPart { part: part_path, path });
        let mut cancel: Vec<FsAction> = Vec::new();
        cancel.push(FsAction::RemoveIfExists(part2));
        assert(finalize@ =~= part_commit(path, part_path));
        assert(cancel@ =~= part_rollback(part_path));
        Finalize { finalize, cancel }
    }

    /// Guards a file written in place: if it did not exist before, rolling back removes it.
    pub fn guard_file(path: String, did_it_exist: bool) -> (r: Self)
        ensures
            r.finalize@.len() == 0,
            did_it_exist ==> r.cancel@.len() == 0,
            !did_it_exist ==> r.cancel@ == seq![FsAction::RemoveIfExists(path)],
    {
        let mut cancel: Vec<FsAction> = Vec::new();
        if !did_it_exist {
            cancel.push(FsAction::RemoveIfExists(path));
            assert(cancel@ =~= seq![FsAction::RemoveIfExists(path)]);
        }
        Finalize { finalize: Vec::new(), cancel }
    }

    /// Nothing to commit, nothing to undo.
    pub fn noop() -> (r: Self)
        ensures
            r.finalize@.len() == 0,
            r.cancel@.len() == 0,
    {
        Finalize { finalize: Vec::new(), cancel: Vec::new() }
    }

    pub fn is_noop(&self) -> (r: bool)
        ensures
            r == (self.finalize@.len() == 0 && self.cancel@.len() == 0),
    {
        self.finalize.len() == 0 && self.cancel.len() == 0
    }

    /// Both changes: commits `self` then `rhs`, and undoes both.
    pub fn merge(self, rhs: Self) -> (r: Self)
        ensures
            r.finalize@ == self.finalize@ + rhs.finalize@,
            r.cancel@ == self.cancel@ + rhs.cancel@,
    {
        let mut finalize = self.finalize;
        let mut cancel = self.cancel;
        let mut f2 = rhs.finalize;
        let mut c2 = rhs.cancel;
        finalize.append(&mut f2);
        cancel.append(&mut c2);
        Finalize { finalize, cancel }
    }

    /// Commits: hands out the actions to run and drops the rollback.
    pub fn finalize(&mut self) -> (r: Vec<FsAction>)
        ensures
            r@ == old(self).finalize@,
            final(self).finalize@.len() == 0,
            final(self).cancel@.len() == 0,
    {
        let mut out: Vec<FsAction> = Vec::new();
        std::mem::swap(&mut out, &mut self.finalize);
        self.cancel = Vec::new();
        out
    }

    /// Abandons the change: hands out the rollback actions, each to be run once.
    pub fn abandon(self) -> (r: Vec<FsAction>)
        ensures
            r@ == self.cancel@,
    {
        self.cancel
    }

    /// In a batch, hands out the commit actions of entry `i`, leaving its rollback in place
    /// until `mark_committed` says they succeeded.
    pub fn finalize_slice(s: &mut Vec<Finalize>, i: usize) -> (r: Vec<FsAction>)
        requires
            i < old(s)@.len(),
        ensures
            r@ == old(s)@[i as int].finalize@,
            final(s)@.len() == old(s)@.len(),
            final(s)@[i as int].finalize@.len() == 0,
            final(s)@[i as int].cancel == old(s)@[i as int].cancel,
            forall|k: int| 0 <= k < old(s)@.len() && k != i ==> #[trigger] final(s)@[k] == old(s)@[k],
    {
        let mut taken: Vec<FsAction> = Vec::new();
        let mut e = s.remove(i);
        std::mem::swap(&mut taken, &mut e.finalize);
        s.insert(i, e);
        assert forall|k: int| 0 <= k < old(s)@.len() && k != i implies #[trigger] final(s)@[k] == old(s)@[k] by {
            if k < i {
            } else {
            }
        }
        taken
    }

    /// In a batch, records that entry `i` committed: it no longer rolls back.
    pub fn mark_committed(s: &mut Vec<Finalize>, i: usize)
        requires
            i < old(s)@.len(),
        ensures
            final(s)@.len() == old(s)@.len(),
            final(s)@[i as int].cancel@.len() == 0,
            final(s)@[i as int].finalize == old(s)@[i as int].finalize,
            forall|k: int| 0 <= k < old(s)@.len() && k != i ==> #[trigger] final(s)@[k] == old(s)@[k],
    {
        let mut e = s.remove(i);
        e.cancel = Vec::new();
        s.insert(i, e);
    }

    /// Abandons a whole batch: the rollback actions still owed, entry by entry.
    pub fn abandon_batch(s: Vec<Finalize>) -> (r: Vec<FsAction>)
        ensures
            r@ == cancels_of(s@),
    {
        let mut out: Vec<FsAction> = Vec::new();
        let mut s = s;
        let ghost all = s@;
        let mut i: usize = 0;
        let n = s.len();
        while s.len() > 0
            invariant
                i + s@.len() == n,
                n == all.len(),
                s@ == all.subrange(i as int, n as int),
                out@ == cancels_of(all.subrange(0, i as int)),
            decreases s@.len(),
        {
            let e = s.remove(0);
            let mut c = e.cancel;
            let ghost prev = out@;
            out.append(&mut c);
            proof {
                assert(all.subrange(0, i as int + 1).drop_last() =~= all.subrange(0, i as int));
                assert(all[i as int] == e);
            }
            i = i + 1;
            assert(s@ =~= all.subrange(i as int, n as int));
        }
        assert(all.subrange(0, n as int) =~= all);
        out
    }
}

/// The rollback actions of a batch, entry by entry.
pub open spec fn cancels_of(s: Seq<Finalize>) -> Seq<FsAction>
    decreases s.len(),
{
    if s.len() == 0 {
        seq![]
    } else {
        cancels_of(s.drop_last()) + s.last().cancel@
    }
}

/// Abandoning an uncommitted `.part` download removes the staged file and leaves the target
/// path alone.
pub proof fn lemma_part_rollback_spares_target(path: String, part: String)
    requires
        path@ != part@,
    ensures
        part_rollback(part).len() == 1,
        touches(part_rollback(part)[0], part@),
        forall|k: int| 0 <= k < part_rollback(part).len() ==> !touches(#[trigger] part_rollback(part)[k], path@),
{
}

} // verus!
