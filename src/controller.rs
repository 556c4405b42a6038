//! The lifecycle of virtual branches: every mutation goes through the
//! registry, and every read re-runs the resolver over the current diff.
use vstd::prelude::*;
use crate::branch::{BranchView, VirtualBranch, branches_view, commits_view};
use crate::hunk::{Hunk, HunkView, hunks_view};
use crate::registry::{
    BranchCreateRequest, BranchError, BranchRef, BranchUpdateRequest, Registry, RegistryView, claims_of, default_name,
    index_in, name_view, ownership_view,
};
use crate::resolver::{claims_view, orphaned, owner_of, pick_owned, resolve};

verus! {

/// The upstream reference that every virtual branch diffs against.
pub struct Target {
    pub branch: String,
    pub remote_url: String,
    pub sha: String,
}

/// The owner of each hunk of `diff` in the state `v`.
pub open spec fn owners_in(v: RegistryView, diff: Seq<HunkView>) -> Seq<Option<u64>> {
    Seq::new(
        diff.len(),
        |i: int| owner_of(diff[i], v.applied.map_values(|b: BranchView| claims_of(b)), v.selected),
    )
}

/// The state after resolving `diff`: each active branch owns the hunks whose owner it is.
pub open spec fn resolved(v: RegistryView, diff: Seq<HunkView>) -> RegistryView {
    v.reassigned(diff, owners_in(v, diff))
}

/// One project's virtual branches and the target they diff against.
pub struct Controller {
    pub registry: Registry,
    pub target: Option<Target>,
}

impl Controller {
    /// A project with no branch and no target.
    pub fn new() -> (r: Controller)
        ensures
            r.wf(),
            r.registry@.applied.len() == 0,
            r.registry@.stashed.len() == 0,
            r.registry@.issued == 0,
            r.target is None,
    {
        Controller { registry: Registry::new(), target: None }
    }

    pub open spec fn wf(&self) -> bool {
        self.registry@.consistent()
    }

    /// Replaces the target. What the branches owned was computed against the
    /// old base: it is dropped, and the next listing resolves afresh.
    pub fn set_target(&mut self, target: Target)
        requires
            old(self).wf(),
        ensures
            final(self).wf(),
            final(self).target == Some(target),
            final(self).registry@ == old(self).registry@.reassigned(Seq::empty(), Seq::empty()),
    {
        let diff: Vec<Hunk> = Vec::new();
        let owners: Vec<Option<u64>> = Vec::new();
        self.registry.assign(&diff, &owners);
        assert(hunks_view(diff@) =~= Seq::<HunkView>::empty());
        self.target = Some(target);
    }

    /// Creates a branch; see `Registry::create`.
    pub fn create_virtual_branch(&mut self, req: BranchCreateRequest) -> (id: u64)
        requires
            old(self).wf(),
            old(self).registry@.issued < u64::MAX,
        ensures
            final(self).wf(),
            final(self).target == old(self).target,
            id == old(self).registry@.issued,
            final(self).registry@ == old(self).registry@.added(
                id,
                match req.name {
                    Some(n) => n@,
                    None => default_name(),
                },
                Seq::empty(),
                req.selected_for_changes == Some(true),
            ),
    {
        self.registry.create(req)
    }

    /// Updates a branch; see `Registry::update`.
    pub fn update_virtual_branch(&mut self, req: BranchUpdateRequest) -> (r: Result<(), BranchError>)
        requires
            old(self).wf(),
        ensures
            final(self).wf(),
            final(self).target == old(self).target,
            old(self).registry@.has_applied(req.id) ==> r is Ok && final(self).registry@
                == old(self).registry@.updated(
                req.id,
                name_view(req.name),
                ownership_view(req.ownership),
                req.selected_for_changes,
            ),
            !old(self).registry@.has_applied(req.id) ==> r == Err::<(), BranchError>(BranchError::NotFound)
                && final(self).registry@ == old(self).registry@,
    {
        self.registry.update(req)
    }

    /// Deletes a branch; see `Registry::delete`.
    pub fn delete_virtual_branch(&mut self, id: u64) -> (r: Result<(), BranchError>)
        requires
            old(self).wf(),
        ensures
            final(self).wf(),
            final(self).target == old(self).target,
            old(self).registry@.has_applied(id) ==> r is Ok && final(self).registry@
                == old(self).registry@.deleted(id),
            !old(self).registry@.has_applied(id) && old(self).registry@.has_stashed(id) ==> r is Ok
                && final(self).registry@ == old(self).registry@.unstashed(id),
            !old(self).registry@.has_applied(id) && !old(self).registry@.has_stashed(id) ==> r == Err::<
                (),
                BranchError,
            >(BranchError::NotFound) && final(self).registry@ == old(self).registry@,
    {
        self.registry.delete(id)
    }

    /// Unapplies a branch and keeps it, parked; see `Registry::deactivate`.
    pub fn unapply_virtual_branch(&mut self, id: u64) -> (r: Result<(), BranchError>)
        requires
            old(self).wf(),
        ensures
            final(self).wf(),
            final(self).target == old(self).target,
            old(self).registry@.has_applied(id) ==> r is Ok && final(self).registry@
                == old(self).registry@.deactivated(id),
            !old(self).registry@.has_applied(id) ==> r == Err::<(), BranchError>(BranchError::NotFound)
                && final(self).registry@ == old(self).registry@,
    {
        self.registry.deactivate(id)
    }

    /// Converts the active branch `id` to a real branch: it leaves the
    /// registry, and its name and commits are handed back for the reference
    /// to be written.
    pub fn convert_to_real_branch(&mut self, id: u64) -> (r: Result<BranchRef, BranchError>)
        requires
            old(self).wf(),
        ensures
            final(self).wf(),
            final(self).target == old(self).target,
            old(self).registry@.has_applied(id) ==> (r matches Ok(reference) && final(self).registry@
                == old(self).registry@.deleted(id) && reference.name@ == old(self).registry@.applied[index_in(
                old(self).registry@.applied,
                id,
            )].name && commits_view(reference.commits@) == old(self).registry@.applied[index_in(
                old(self).registry@.applied,
                id,
            )].commits),
            !old(self).registry@.has_applied(id) ==> r == Err::<BranchRef, BranchError>(BranchError::NotFound)
                && final(self).registry@ == old(self).registry@,
    {
        match self.registry.take(id) {
            Ok(b) => Ok(BranchRef { name: b.name, commits: b.commits }),
            Err(e) => Err(e),
        }
    }

    /// Applies a real branch as a new virtual branch; see `Registry::activate`.
    pub fn create_virtual_branch_from_branch(&mut self, reference: BranchRef) -> (id: u64)
        requires
            old(self).wf(),
            old(self).registry@.issued < u64::MAX,
        ensures
            final(self).wf(),
            final(self).target == old(self).target,
            id == old(self).registry@.issued,
            final(self).registry@ == old(self).registry@.added(
                id,
                reference.name@,
                commits_view(reference.commits@),
                false,
            ),
    {
        self.registry.activate(reference)
    }

    /// Commits what the branch `id` owns; see `Registry::commit`.
    pub fn create_commit(&mut self, id: u64, message: String) -> (r: Result<(), BranchError>)
        requires
            old(self).wf(),
        ensures
            final(self).wf(),
            final(self).target == old(self).target,
            !old(self).registry@.has_applied(id) ==> r == Err::<(), BranchError>(BranchError::NotFound)
                && final(self).registry@ == old(self).registry@,
            old(self).registry@.has_applied(id) && old(self).registry@.applied[index_in(
                old(self).registry@.applied,
                id,
            )].ownership.len() == 0 ==> r == Err::<(), BranchError>(BranchError::NoChanges)
                && final(self).registry@ == old(self).registry@,
            old(self).registry@.has_applied(id) && old(self).registry@.applied[index_in(
                old(self).registry@.applied,
                id,
            )].ownership.len() > 0 ==> r is Ok && final(self).registry@ == old(self).registry@.committed(
                id,
                message@,
            ),
    {
        self.registry.commit(id, message)
    }

    /// Resolves the current diff onto the active branches and lists them, in
    /// order, each owning the hunks whose owner it is, together with the hunks
    /// that no branch owns.
    pub fn list_virtual_branches(&mut self, diff: &Vec<Hunk>) -> (r: (Vec<VirtualBranch>, Vec<Hunk>))
        requires
            old(self).wf(),
        ensures
            final(self).wf(),
            final(self).target == old(self).target,
            final(self).registry@ == resolved(old(self).registry@, hunks_view(diff@)),
            branches_view(r.0@) == final(self).registry@.applied,
            hunks_view(r.1@) == orphaned(hunks_view(diff@), owners_in(old(self).registry@, hunks_view(diff@))),
    {
        let ghost v0 = self.registry@;
        let claims = self.registry.claims();
        let selected = self.registry.selected();
        let owners = resolve(diff, &claims, selected);
        assert(claims_view(claims@) == v0.applied.map_values(|b: BranchView| claims_of(b)));
        assert(owners@ =~= owners_in(v0, hunks_view(diff@)));
        self.registry.assign(diff, &owners);
        let orphans = pick_owned(diff, &owners, None);
        (self.registry.list(false), orphans)
    }
}

} // verus!
