//! The registry of virtual branches, which keeps exactly one active branch
//! selected for changes whenever any branch is active.
use vstd::prelude::*;
use crate::branch::{BranchView, Commit, CommitView, VirtualBranch, branches_view, commits_view, lock_surface};
use crate::hunk::{Hunk, HunkView, hunks_view};
use crate::resolver::{BranchClaims, ClaimsView, claims_view, owned_by, pick_owned};

verus! {

/// Why an operation on virtual branches failed.
#[derive(Clone, Copy, Debug, PartialEq, Eq, Structural)]
pub enum BranchError {
    /// No branch has the given id.
    NotFound,
    /// A commit was asked of a branch that owns no hunk.
    NoChanges,
}

/// Options for a new branch; what is left `None` takes its default.
pub struct BranchCreateRequest {
    pub name: Option<String>,
    pub selected_for_changes: Option<bool>,
}

impl BranchCreateRequest {
    /// No name and no explicit selection.
    pub fn new() -> (r: BranchCreateRequest)
        ensures
            r.name is None,
            r.selected_for_changes is None,
    {
        BranchCreateRequest { name: None, selected_for_changes: None }
    }
}

impl Default for BranchCreateRequest {
    fn default() -> (r: BranchCreateRequest)
        ensures
            r.name is None,
            r.selected_for_changes is None,
    {
        BranchCreateRequest::new()
    }
}

/// Changes to a branch; what is left `None` stays as it is.
pub struct BranchUpdateRequest {
    pub id: u64,
    pub name: Option<String>,
    pub ownership: Option<Vec<Hunk>>,
    pub selected_for_changes: Option<bool>,
}

impl BranchUpdateRequest {
    /// A request that changes nothing of the branch `id`.
    pub fn new(id: u64) -> (r: BranchUpdateRequest)
        ensures
            r.id == id,
            r.name is None,
            r.ownership is None,
            r.selected_for_changes is None,
    {
        BranchUpdateRequest { id, name: None, ownership: None, selected_for_changes: None }
    }
}

/// A real branch reference to apply as a new virtual branch: its name and commits.
pub struct BranchRef {
    pub name: String,
    pub commits: Vec<Commit>,
}

pub ghost struct RegistryView {
    /// The active branches, in the order they were created or applied.
    pub applied: Seq<BranchView>,
    /// Branches that were deactivated and kept.
    pub stashed: Seq<BranchView>,
    /// The branch selected for changes.
    pub selected: Option<u64>,
    /// The id the next new branch gets; every id so far is below it.
    pub issued: u64,
}

/// The number of branches of `s` marked selected for changes.
pub open spec fn count_selected(s: Seq<BranchView>) -> nat
    decreases s.len(),
{
    if s.len() == 0 {
        0
    } else {
        count_selected(s.drop_last()) + if s.last().selected_for_changes { 1nat } else { 0nat }
    }
}

/// `b` with its selection flag set from `selected`.
pub open spec fn reflag(b: BranchView, selected: Option<u64>) -> BranchView {
    BranchView {
        id: b.id,
        name: b.name,
        active: b.active,
        selected_for_changes: selected == Some(b.id),
        ownership: b.ownership,
        commits: b.commits,
    }
}

pub open spec fn reflagged(s: Seq<BranchView>, selected: Option<u64>) -> Seq<BranchView> {
    s.map_values(|b: BranchView| reflag(b, selected))
}

/// The replacement for a removed selected branch: the most recently created
/// of those that remain, `None` when none remains.
pub open spec fn elect(s: Seq<BranchView>) -> Option<u64> {
    if s.len() == 0 {
        None
    } else {
        Some(s.last().id)
    }
}

/// A fresh active branch.
pub open spec fn fresh_branch(id: u64, name: Seq<char>, commits: Seq<CommitView>) -> BranchView {
    BranchView {
        id,
        name,
        active: true,
        selected_for_changes: false,
        ownership: Seq::empty(),
        commits,
    }
}

/// The name a branch gets when none is asked for.
pub open spec fn default_name() -> Seq<char> {
    seq!['V', 'i', 'r', 't', 'u', 'a', 'l', ' ', 'b', 'r', 'a', 'n', 'c', 'h']
}

/// The position of the branch `id` in `s`.
pub open spec fn index_in(s: Seq<BranchView>, id: u64) -> int {
    choose|i: int| 0 <= i < s.len() && #[trigger] s[i].id == id
}

/// `b` parked out of the working directory.
pub open spec fn parked(b: BranchView) -> BranchView {
    BranchView {
        id: b.id,
        name: b.name,
        active: false,
        selected_for_changes: false,
        ownership: b.ownership,
        commits: b.commits,
    }
}

/// `b` with the given name and ownership where they are given.
pub open spec fn amended(b: BranchView, name: Option<Seq<char>>, ownership: Option<Seq<HunkView>>) -> BranchView {
    BranchView {
        id: b.id,
        name: match name {
            Some(n) => n,
            None => b.name,
        },
        active: b.active,
        selected_for_changes: b.selected_for_changes,
        ownership: match ownership {
            Some(o) => o,
            None => b.ownership,
        },
        commits: b.commits,
    }
}

/// `b` after committing what it owns: a new newest commit of its hunks, and no
/// hunk left owned.
pub open spec fn after_commit(b: BranchView, message: Seq<char>) -> BranchView {
    BranchView {
        id: b.id,
        name: b.name,
        active: b.active,
        selected_for_changes: b.selected_for_changes,
        ownership: Seq::empty(),
        commits: seq![CommitView { message, changes: b.ownership }] + b.commits,
    }
}

/// `b` owning exactly `ownership`.
pub open spec fn owning(b: BranchView, ownership: Seq<HunkView>) -> BranchView {
    BranchView {
        id: b.id,
        name: b.name,
        active: b.active,
        selected_for_changes: b.selected_for_changes,
        ownership,
        commits: b.commits,
    }
}

/// What the resolver needs of `b`.
pub open spec fn claims_of(b: BranchView) -> ClaimsView {
    ClaimsView { id: b.id, locks: lock_surface(b.commits), owned: b.ownership }
}

pub open spec fn name_view(o: Option<String>) -> Option<Seq<char>> {
    match o {
        Some(n) => Some(n@),
        None => None,
    }
}

pub open spec fn ownership_view(o: Option<Vec<Hunk>>) -> Option<Seq<HunkView>> {
    match o {
        Some(v) => Some(hunks_view(v@)),
        None => None,
    }
}

impl RegistryView {
    /// The state after each active branch takes the hunks of `diff` that
    /// `owners` gives it, and no other.
    pub open spec fn reassigned(self, diff: Seq<HunkView>, owners: Seq<Option<u64>>) -> RegistryView {
        RegistryView {
            applied: self.applied.map_values(|b: BranchView| owning(b, owned_by(diff, owners, b.id))),
            stashed: self.stashed,
            selected: self.selected,
            issued: self.issued,
        }
    }

    /// The state after the active branch at `i` leaves the active set; when it
    /// was selected, the most recent remaining branch is selected in its place.
    pub open spec fn removed(self, i: int) -> RegistryView {
        let rest = self.applied.remove(i);
        let sel = if self.selected == Some(self.applied[i].id) { elect(rest) } else { self.selected };
        RegistryView { applied: reflagged(rest, sel), stashed: self.stashed, selected: sel, issued: self.issued }
    }

    /// The state after deleting the active branch `id`.
    pub open spec fn deleted(self, id: u64) -> RegistryView {
        self.removed(index_in(self.applied, id))
    }

    /// The state after deleting the stashed branch `id`.
    pub open spec fn unstashed(self, id: u64) -> RegistryView {
        RegistryView {
            applied: self.applied,
            stashed: self.stashed.remove(index_in(self.stashed, id)),
            selected: self.selected,
            issued: self.issued,
        }
    }

    /// The state after deactivating the active branch `id`, which is kept, parked.
    pub open spec fn deactivated(self, id: u64) -> RegistryView {
        let i = index_in(self.applied, id);
        let r = self.removed(i);
        RegistryView {
            applied: r.applied,
            stashed: self.stashed.push(parked(self.applied[i])),
            selected: r.selected,
            issued: self.issued,
        }
    }

    /// The state after updating the active branch `id`. Selecting it takes the
    /// flag from every other branch; unselecting the selected branch hands the
    /// flag to the most recent other active branch, if there is one.
    pub open spec fn updated(
        self,
        id: u64,
        name: Option<Seq<char>>,
        ownership: Option<Seq<HunkView>>,
        select: Option<bool>,
    ) -> RegistryView {
        let i = index_in(self.applied, id);
        let sel = match select {
            Some(true) => Some(id),
            Some(false) => if self.selected == Some(id) && self.applied.len() > 1 {
                elect(self.applied.remove(i))
            } else {
                self.selected
            },
            None => self.selected,
        };
        RegistryView {
            applied: reflagged(self.applied.update(i, amended(self.applied[i], name, ownership)), sel),
            stashed: self.stashed,
            selected: sel,
            issued: self.issued,
        }
    }

    /// The state after committing the hunks that the active branch `id` owns.
    pub open spec fn committed(self, id: u64, message: Seq<char>) -> RegistryView {
        let i = index_in(self.applied, id);
        RegistryView {
            applied: self.applied.update(i, after_commit(self.applied[i], message)),
            stashed: self.stashed,
            selected: self.selected,
            issued: self.issued,
        }
    }

    /// The state after adding the branch `id`, selected when `select` holds or
    /// when it is the only active branch.
    pub open spec fn added(self, id: u64, name: Seq<char>, commits: Seq<CommitView>, select: bool) -> RegistryView {
        let sel = if select || self.applied.len() == 0 { Some(id) } else { self.selected };
        RegistryView {
            applied: reflagged(self.applied.push(fresh_branch(id, name, commits)), sel),
            stashed: self.stashed,
            selected: sel,
            issued: (id + 1) as u64,
        }
    }

    /// Some active branch has the id `id`.
    pub open spec fn has_applied(self, id: u64) -> bool {
        exists|i: int| 0 <= i < self.applied.len() && #[trigger] self.applied[i].id == id
    }

    /// Some stashed branch has the id `id`.
    pub open spec fn has_stashed(self, id: u64) -> bool {
        exists|i: int| 0 <= i < self.stashed.len() && #[trigger] self.stashed[i].id == id
    }

    /// The registry's invariant: active branches are marked active, have distinct
    /// ids, and carry the selection flag exactly when they are the selected one;
    /// a branch is selected exactly when some branch is active.
    pub open spec fn consistent(self) -> bool {
        &&& forall|i: int| 0 <= i < self.applied.len() ==> {
            &&& (#[trigger] self.applied[i]).active
            &&& self.applied[i].selected_for_changes == (self.selected == Some(self.applied[i].id))
            &&& self.applied[i].id < self.issued
        }
        &&& forall|i: int| 0 <= i < self.stashed.len() ==> {
            &&& !(#[trigger] self.stashed[i]).active
            &&& !self.stashed[i].selected_for_changes
            &&& self.stashed[i].id < self.issued
        }
        &&& forall|i: int, j: int| 0 <= i < self.applied.len() && 0 <= j < self.applied.len() && i != j
            ==> #[trigger] self.applied[i].id != #[trigger] self.applied[j].id
        &&& forall|i: int, j: int| 0 <= i < self.stashed.len() && 0 <= j < self.stashed.len() && i != j
            ==> #[trigger] self.stashed[i].id != #[trigger] self.stashed[j].id
        &&& forall|i: int, j: int| 0 <= i < self.applied.len() && 0 <= j < self.stashed.len()
            ==> #[trigger] self.applied[i].id != #[trigger] self.stashed[j].id
        &&& (self.selected is None) == (self.applied.len() == 0)
        &&& (self.selected matches Some(s) ==> self.has_applied(s))
    }
}

/// The set of virtual branches of one project.
pub struct Registry {
    applied: Vec<VirtualBranch>,
    stashed: Vec<VirtualBranch>,
    selected: Option<u64>,
    next_id: u64,
}

impl View for Registry {
    type V = RegistryView;

    closed spec fn view(&self) -> RegistryView {
        RegistryView {
            applied: branches_view(self.applied@),
            stashed: branches_view(self.stashed@),
            selected: self.selected,
            issued: self.next_id,
        }
    }
}

/// Over distinct ids, the flags set from `selected` mark one branch exactly
/// when `selected` names one of them, and none otherwise.
proof fn lemma_count_reflagged(s: Seq<BranchView>, selected: Option<u64>)
    requires
        forall|i: int, j: int| 0 <= i < s.len() && 0 <= j < s.len() && i != j
            ==> #[trigger] s[i].id != #[trigger] s[j].id,
    ensures
        count_selected(reflagged(s, selected)) == (
            if exists|i: int| 0 <= i < s.len() && Some(#[trigger] s[i].id) == selected { 1nat } else { 0nat }),
    decreases s.len(),
{
    if s.len() > 0 {
        let t = s.drop_last();
        assert(reflagged(s, selected).drop_last() =~= reflagged(t, selected));
        lemma_count_reflagged(t, selected);
        if exists|i: int| 0 <= i < s.len() && Some(#[trigger] s[i].id) == selected {
            let k = choose|i: int| 0 <= i < s.len() && Some(#[trigger] s[i].id) == selected;
            if k == s.len() - 1 {
                assert forall|i: int| 0 <= i < t.len() implies Some(#[trigger] t[i].id) != selected by {
                    assert(s[i].id != s[k].id);
                }
            } else {
                assert(Some(t[k].id) == selected);
                assert(s.last().id != s[k].id);
            }
        } else {
            assert forall|i: int| 0 <= i < t.len() implies Some(#[trigger] t[i].id) != selected by {
                assert(Some(s[i].id) != selected);
            }
        }
    }
}

/// In every consistent state the number of active branches selected for
/// changes is zero when no branch is active, and exactly one otherwise.
pub proof fn lemma_single_selection(v: RegistryView)
    requires
        v.consistent(),
    ensures
        count_selected(v.applied) == (if v.applied.len() == 0 { 0nat } else { 1nat }),
{
    assert(reflagged(v.applied, v.selected) =~= v.applied);
    lemma_count_reflagged(v.applied, v.selected);
    if v.applied.len() > 0 {
        let s = v.selected->0;
        let k = choose|i: int| 0 <= i < v.applied.len() && #[trigger] v.applied[i].id == s;
        assert(Some(v.applied[k].id) == v.selected);
    } else {
        assert(v.applied =~= Seq::<BranchView>::empty());
    }
}

/// The state after `n` creations with default options, one after another.
pub open spec fn created_by_default(v: RegistryView, n: nat) -> RegistryView
    decreases n,
{
    if n == 0 {
        v
    } else {
        let w = created_by_default(v, (n - 1) as nat);
        w.added(w.issued, default_name(), Seq::empty(), false)
    }
}

/// Creating branches with default options, starting with no active branch:
/// the first one created is selected and every later one is not.
pub proof fn lemma_default_creation_selects_first(v: RegistryView, n: nat)
    requires
        v.consistent(),
        v.applied.len() == 0,
        v.issued + n <= u64::MAX,
    ensures
        created_by_default(v, n).applied.len() == n,
        created_by_default(v, n).issued == v.issued + n,
        n > 0 ==> created_by_default(v, n).selected == Some(v.issued),
        forall|i: int| 0 <= i < n ==> (#[trigger] created_by_default(v, n).applied[i]).id == v.issued + i
            && (created_by_default(v, n).applied[i].selected_for_changes <==> i == 0),
    decreases n,
{
    if n > 0 {
        let m = (n - 1) as nat;
        lemma_default_creation_selects_first(v, m);
        let w = created_by_default(v, m);
        let x = created_by_default(v, n);
        assert(x == w.added(w.issued, default_name(), Seq::empty(), false));
        assert forall|i: int| 0 <= i < n implies (#[trigger] x.applied[i]).id == v.issued + i
            && (x.applied[i].selected_for_changes <==> i == 0) by {
            if i < m {
                assert(w.applied[i].id == v.issued + i);
            }
        }
    }
}

/// Selecting a branch takes the flag from every other branch in one step.
pub proof fn lemma_selection_is_exclusive(
    v: RegistryView,
    id: u64,
    name: Option<Seq<char>>,
    ownership: Option<Seq<HunkView>>,
)
    requires
        v.consistent(),
        v.has_applied(id),
    ensures
        forall|k: int| 0 <= k < v.updated(id, name, ownership, Some(true)).applied.len()
            ==> (#[trigger] v.updated(id, name, ownership, Some(true)).applied[k].selected_for_changes
                <==> v.updated(id, name, ownership, Some(true)).applied[k].id == id),
        count_selected(v.updated(id, name, ownership, Some(true)).applied) == 1,
{
    lemma_updated_consistent(v, id, name, ownership, Some(true));
    lemma_single_selection(v.updated(id, name, ownership, Some(true)));
}

/// Deleting or deactivating the selected branch while other branches are
/// active leaves exactly one of them selected; when none remains, none is.
pub proof fn lemma_removal_reelects(v: RegistryView, id: u64)
    requires
        v.consistent(),
        v.has_applied(id),
        v.selected == Some(id),
    ensures
        v.applied.len() > 1 ==> count_selected(v.deleted(id).applied) == 1
            && count_selected(v.deactivated(id).applied) == 1,
        v.applied.len() == 1 ==> count_selected(v.deleted(id).applied) == 0
            && count_selected(v.deactivated(id).applied) == 0 && v.deleted(id).selected is None
            && v.deactivated(id).selected is None,
{
    let i = index_in(v.applied, id);
    lemma_removed_consistent(v, i);
    lemma_deactivated_consistent(v, id);
    lemma_single_selection(v.deleted(id));
    lemma_single_selection(v.deactivated(id));
}

proof fn lemma_added_consistent(v: RegistryView, id: u64, name: Seq<char>, commits: Seq<CommitView>, select: bool)
    requires
        v.consistent(),
        id == v.issued,
        v.issued < u64::MAX,
    ensures
        v.added(id, name, commits, select).consistent(),
        !v.has_applied(id),
        !v.has_stashed(id),
{
    let w = v.added(id, name, commits, select);
    let pushed = v.applied.push(fresh_branch(id, name, commits));
    assert forall|i: int| 0 <= i < w.applied.len() implies w.applied[i] == reflag(pushed[i], w.selected) by {}
    assert(w.applied[w.applied.len() - 1].id == id);
    if let Some(s) = w.selected {
        if s != id {
            let k = choose|i: int| 0 <= i < v.applied.len() && #[trigger] v.applied[i].id == s;
            assert(w.applied[k].id == s);
        }
    }
}

proof fn lemma_removed_consistent(v: RegistryView, i: int)
    requires
        v.consistent(),
        0 <= i < v.applied.len(),
    ensures
        v.removed(i).consistent(),
        !v.removed(i).has_applied(v.applied[i].id),
        v.removed(i).selected matches Some(s) ==> s != v.applied[i].id,
        v.removed(i).applied.len() == v.applied.len() - 1,
{
    let w = v.removed(i);
    let rest = v.applied.remove(i);
    assert forall|k: int| 0 <= k < rest.len() implies #[trigger] rest[k] == v.applied[if k < i { k } else { k + 1 }] by {}
    assert forall|k: int| 0 <= k < rest.len() implies #[trigger] w.applied[k] == reflag(rest[k], w.selected) by {}
    assert forall|k: int, j: int| 0 <= k < w.applied.len() && 0 <= j < w.applied.len() && k != j
        implies #[trigger] w.applied[k].id != #[trigger] w.applied[j].id by {
        assert(rest[k] == v.applied[if k < i { k } else { k + 1 }]);
        assert(rest[j] == v.applied[if j < i { j } else { j + 1 }]);
    }
    assert forall|k: int| 0 <= k < w.applied.len() implies #[trigger] w.applied[k].id != v.applied[i].id by {
        assert(rest[k] == v.applied[if k < i { k } else { k + 1 }]);
    }
    assert forall|k: int, j: int| 0 <= k < w.applied.len() && 0 <= j < w.stashed.len()
        implies #[trigger] w.applied[k].id != #[trigger] w.stashed[j].id by {
        assert(rest[k] == v.applied[if k < i { k } else { k + 1 }]);
    }
    if v.selected == Some(v.applied[i].id) {
        if rest.len() > 0 {
            assert(w.applied[rest.len() - 1].id == rest.last().id);
        }
    } else {
        let s = v.selected->0;
        let k = choose|k: int| 0 <= k < v.applied.len() && #[trigger] v.applied[k].id == s;
        assert(k != i);
        let k2 = if k < i { k } else { k - 1 };
        assert(rest[k2] == v.applied[k]);
        assert(w.applied[k2].id == s);
    }
}

proof fn lemma_deactivated_consistent(v: RegistryView, id: u64)
    requires
        v.consistent(),
        v.has_applied(id),
    ensures
        v.deactivated(id).consistent(),
{
    let i = index_in(v.applied, id);
    lemma_removed_consistent(v, i);
    let w = v.deactivated(id);
    let r = v.removed(i);
    assert forall|k: int, j: int| 0 <= k < w.applied.len() && 0 <= j < w.stashed.len()
        implies #[trigger] w.applied[k].id != #[trigger] w.stashed[j].id by {
        if j < v.stashed.len() {
            assert(w.stashed[j] == r.stashed[j]);
        } else {
            assert(w.stashed[j].id == id);
            assert(!r.has_applied(id));
        }
    }
    assert forall|k: int, j: int| 0 <= k < w.stashed.len() && 0 <= j < w.stashed.len() && k != j
        implies #[trigger] w.stashed[k].id != #[trigger] w.stashed[j].id by {
        if k == v.stashed.len() {
            assert(v.applied[i].id != v.stashed[j].id);
        }
        if j == v.stashed.len() {
            assert(v.applied[i].id != v.stashed[k].id);
        }
    }
}

proof fn lemma_unstashed_consistent(v: RegistryView, id: u64)
    requires
        v.consistent(),
        v.has_stashed(id),
    ensures
        v.unstashed(id).consistent(),
{
    let i = index_in(v.stashed, id);
    let w = v.unstashed(id);
    assert forall|k: int| 0 <= k < w.stashed.len() implies #[trigger] w.stashed[k] == v.stashed[if k < i { k } else { k + 1 }] by {}
    assert forall|k: int, j: int| 0 <= k < w.stashed.len() && 0 <= j < w.stashed.len() && k != j
        implies #[trigger] w.stashed[k].id != #[trigger] w.stashed[j].id by {
        assert(w.stashed[k] == v.stashed[if k < i { k } else { k + 1 }]);
        assert(w.stashed[j] == v.stashed[if j < i { j } else { j + 1 }]);
    }
    assert forall|k: int, j: int| 0 <= k < w.applied.len() && 0 <= j < w.stashed.len()
        implies #[trigger] w.applied[k].id != #[trigger] w.stashed[j].id by {
        assert(w.stashed[j] == v.stashed[if j < i { j } else { j + 1 }]);
    }
}

/// The position of the branch `id` in a list of branches with distinct ids.
fn position(v: &Vec<VirtualBranch>, id: u64) -> (r: Option<usize>)
    requires
        forall|i: int, j: int| 0 <= i < v@.len() && 0 <= j < v@.len() && i != j
            ==> #[trigger] branches_view(v@)[i].id != #[trigger] branches_view(v@)[j].id,
    ensures
        match r {
            Some(i) => i < v@.len() && branches_view(v@)[i as int].id == id && i == index_in(branches_view(v@), id),
            None => !exists|i: int| 0 <= i < v@.len() && #[trigger] branches_view(v@)[i].id == id,
        },
{
    let ghost bs = branches_view(v@);
    let mut i: usize = 0;
    while i < v.len()
        invariant
            i <= v.len(),
            bs == branches_view(v@),
            forall|a: int, b: int| 0 <= a < bs.len() && 0 <= b < bs.len() && a != b
                ==> #[trigger] bs[a].id != #[trigger] bs[b].id,
            forall|j: int| 0 <= j < i ==> #[trigger] bs[j].id != id,
        decreases v.len() - i,
    {
        if v[i].id == id {
            assert(bs[i as int].id == id);
            let ghost k = index_in(bs, id);
            proof {
                if k != i as int {
                    assert(bs[k].id != bs[i as int].id);
                }
            }
            return Some(i);
        }
        i = i + 1;
    }
    None
}

proof fn lemma_updated_consistent(
    v: RegistryView,
    id: u64,
    name: Option<Seq<char>>,
    ownership: Option<Seq<HunkView>>,
    select: Option<bool>,
)
    requires
        v.consistent(),
        v.has_applied(id),
    ensures
        v.updated(id, name, ownership, select).consistent(),
        v.updated(id, name, ownership, select).selected is Some,
{
    let i = index_in(v.applied, id);
    let w = v.updated(id, name, ownership, select);
    let up = v.applied.update(i, amended(v.applied[i], name, ownership));
    assert forall|k: int| 0 <= k < w.applied.len() implies #[trigger] w.applied[k] == reflag(up[k], w.selected) by {}
    assert forall|k: int| 0 <= k < w.applied.len() implies #[trigger] w.applied[k].id == v.applied[k].id by {
        assert(up[k].id == v.applied[k].id);
    }
    let s = w.selected->0;
    if s == id {
        assert(w.applied[i].id == id);
    } else if w.selected == v.selected {
        let k = choose|k: int| 0 <= k < v.applied.len() && #[trigger] v.applied[k].id == s;
        assert(w.applied[k].id == s);
    } else {
        let n = v.applied.len();
        let rest = v.applied.remove(i);
        if i == n - 1 {
            assert(rest.last() == v.applied[n - 2]);
            assert(w.applied[n - 2].id == s);
        } else {
            assert(rest.last() == v.applied[n - 1]);
            assert(w.applied[n - 1].id == s);
        }
    }
}

impl Registry {
    /// An empty registry.
    pub fn new() -> (r: Registry)
        ensures
            r@.consistent(),
            r@.applied.len() == 0,
            r@.stashed.len() == 0,
            r@.selected is None,
            r@.issued == 0,
    {
        Registry { applied: Vec::new(), stashed: Vec::new(), selected: None, next_id: 0 }
    }

    /// The branch selected for changes.
    pub fn selected(&self) -> (r: Option<u64>)
        ensures
            r == self@.selected,
    {
        self.selected
    }

    /// Sets each active branch's flag from the selected id.
    fn sync_flags(&mut self)
        ensures
            final(self)@.applied == reflagged(old(self)@.applied, old(self)@.selected),
            final(self)@.stashed == old(self)@.stashed,
            final(self)@.selected == old(self)@.selected,
            final(self)@.issued == old(self)@.issued,
    {
        let ghost orig = self@.applied;
        let mut i: usize = 0;
        while i < self.applied.len()
            invariant
                i <= self.applied.len(),
                self.applied.len() == orig.len(),
                forall|j: int| 0 <= j < i ==> #[trigger] branches_view(self.applied@)[j] == reflag(orig[j], self.selected),
                forall|j: int| i <= j < orig.len() ==> #[trigger] branches_view(self.applied@)[j] == orig[j],
                self.stashed == old(self).stashed,
                self.selected == old(self).selected,
                self.next_id == old(self).next_id,
            decreases orig.len() - i,
        {
            let ghost before = self.applied@;
            assert(branches_view(before)[i as int] == orig[i as int]);
            let mut b = self.applied.remove(i);
            b.selected_for_changes = match self.selected {
                Some(s) => s == b.id,
                None => false,
            };
            let ghost bv = b;
            self.applied.insert(i, b);
            assert(self.applied@ =~= before.update(i as int, bv));
            assert forall|j: int| 0 <= j < orig.len() && j != i implies #[trigger] branches_view(self.applied@)[j] == branches_view(before)[j] by {}
            assert(branches_view(self.applied@)[i as int] == reflag(orig[i as int], self.selected));
            i = i + 1;
        }
        assert(branches_view(self.applied@) =~= reflagged(orig, self.selected));
    }

    /// The position of the active branch `id`.
    fn index_of(&self, id: u64) -> (r: Option<usize>)
        requires
            self@.consistent(),
        ensures
            match r {
                Some(i) => i < self@.applied.len() && self@.applied[i as int].id == id && i == index_in(self@.applied, id),
                None => !self@.has_applied(id),
            },
    {
        position(&self.applied, id)
    }

    /// Takes the active branch at `i` out of the active set, parked, and
    /// re-elects the selected branch when it was that one.
    fn detach(&mut self, i: usize) -> (b: VirtualBranch)
        requires
            old(self)@.consistent(),
            i < old(self)@.applied.len(),
        ensures
            final(self)@ == old(self)@.removed(i as int),
            b@ == parked(old(self)@.applied[i as int]),
    {
        let ghost v0 = self@;
        let mut b = self.applied.remove(i);
        assert(branches_view(self.applied@) =~= v0.applied.remove(i as int));
        let was_selected = match self.selected {
            Some(s) => s == b.id,
            None => false,
        };
        if was_selected {
            let n = self.applied.len();
            self.selected = if n == 0 { None } else { Some(self.applied[n - 1].id) };
        }
        b.active = false;
        b.selected_for_changes = false;
        self.sync_flags();
        b
    }

    /// Adds an active branch with a fresh id.
    fn add(&mut self, name: String, commits: Vec<Commit>, select: bool) -> (id: u64)
        requires
            old(self)@.consistent(),
            old(self)@.issued < u64::MAX,
        ensures
            id == old(self)@.issued,
            !old(self)@.has_applied(id),
            !old(self)@.has_stashed(id),
            final(self)@ == old(self)@.added(id, name@, commits_view(commits@), select),
            final(self)@.consistent(),
    {
        let ghost v0 = self@;
        let id = self.next_id;
        let b = VirtualBranch {
            id,
            name,
            active: true,
            selected_for_changes: false,
            ownership: Vec::new(),
            commits,
        };
        proof {
            assert(hunks_view(b.ownership@) =~= Seq::<HunkView>::empty());
        }
        let ghost bv = b@;
        self.applied.push(b);
        assert(branches_view(self.applied@) =~= v0.applied.push(bv));
        if select || self.selected.is_none() {
            self.selected = Some(id);
        }
        self.next_id = id + 1;
        self.sync_flags();
        assert(self@ == v0.added(id, name@, commits_view(commits@), select));
        proof {
            lemma_added_consistent(v0, id, name@, commits_view(commits@), select);
        }
        id
    }

    /// Creates an active branch. It is selected when the request asks so, or
    /// when no other branch is active; the flag leaves every other branch.
    pub fn create(&mut self, req: BranchCreateRequest) -> (id: u64)
        requires
            old(self)@.consistent(),
            old(self)@.issued < u64::MAX,
        ensures
            final(self)@.consistent(),
            id == old(self)@.issued,
            !old(self)@.has_applied(id),
            final(self)@ == old(self)@.added(
                id,
                match req.name {
                    Some(n) => n@,
                    None => default_name(),
                },
                Seq::empty(),
                req.selected_for_changes == Some(true),
            ),
    {
        let name = match req.name {
            Some(n) => n,
            None => {
                let n = "Virtual branch".to_owned();
                proof {
                    reveal_strlit("Virtual branch");
                    assert(n@ =~= default_name());
                }
                n
            },
        };
        let select = match req.selected_for_changes {
            Some(s) => s,
            None => false,
        };
        let commits: Vec<Commit> = Vec::new();
        assert(commits_view(commits@) =~= Seq::<CommitView>::empty());
        self.add(name, commits, select)
    }

    /// Applies a real branch reference as a new active branch, which is
    /// selected when it is the only active branch.
    pub fn activate(&mut self, reference: BranchRef) -> (id: u64)
        requires
            old(self)@.consistent(),
            old(self)@.issued < u64::MAX,
        ensures
            final(self)@.consistent(),
            id == old(self)@.issued,
            final(self)@ == old(self)@.added(id, reference.name@, commits_view(reference.commits@), false),
    {
        self.add(reference.name, reference.commits, false)
    }

    /// Deletes the branch `id`, active or stashed. When it was the selected
    /// branch, the most recently created remaining active branch is selected.
    pub fn delete(&mut self, id: u64) -> (r: Result<(), BranchError>)
        requires
            old(self)@.consistent(),
        ensures
            final(self)@.consistent(),
            old(self)@.has_applied(id) ==> r is Ok && final(self)@ == old(self)@.deleted(id),
            !old(self)@.has_applied(id) && old(self)@.has_stashed(id) ==> r is Ok && final(self)@
                == old(self)@.unstashed(id),
            !old(self)@.has_applied(id) && !old(self)@.has_stashed(id) ==> r == Err::<(), BranchError>(
                BranchError::NotFound,
            ) && final(self)@ == old(self)@,
            old(self)@.selected == Some(id) && old(self)@.applied.len() > 1 ==> final(self)@.selected
                == Some(final(self)@.applied.last().id) && count_selected(final(self)@.applied) == 1,
            final(self)@.applied.len() == 0 ==> final(self)@.selected is None && count_selected(
                final(self)@.applied,
            ) == 0,
    {
        let ghost v0 = self@;
        match self.index_of(id) {
            Some(i) => {
                let _ = self.detach(i);
                proof {
                    lemma_removed_consistent(v0, i as int);
                    lemma_single_selection(self@);
                }
                Ok(())
            },
            None => {
                let ghost st = self@.stashed;
                match position(&self.stashed, id) {
                    Some(k) => {
                        let _ = self.stashed.remove(k);
                        assert(branches_view(self.stashed@) =~= st.remove(k as int));
                        proof {
                            lemma_unstashed_consistent(v0, id);
                            lemma_single_selection(self@);
                        }
                        Ok(())
                    },
                    None => {
                        proof {
                            lemma_single_selection(self@);
                        }
                        Err(BranchError::NotFound)
                    },
                }
            },
        }
    }

    /// Deactivates the active branch `id` and keeps it, parked. When it was the
    /// selected branch, the most recently created remaining active branch is selected.
    pub fn deactivate(&mut self, id: u64) -> (r: Result<(), BranchError>)
        requires
            old(self)@.consistent(),
        ensures
            final(self)@.consistent(),
            old(self)@.has_applied(id) ==> r is Ok && final(self)@ == old(self)@.deactivated(id),
            !old(self)@.has_applied(id) ==> r == Err::<(), BranchError>(BranchError::NotFound)
                && final(self)@ == old(self)@,
            old(self)@.selected == Some(id) && old(self)@.applied.len() > 1 ==> final(self)@.selected
                == Some(final(self)@.applied.last().id) && count_selected(final(self)@.applied) == 1,
            final(self)@.applied.len() == 0 ==> final(self)@.selected is None && count_selected(
                final(self)@.applied,
            ) == 0,
    {
        let ghost v0 = self@;
        match self.index_of(id) {
            Some(i) => {
                let b = self.detach(i);
                let ghost st = self@.stashed;
                self.stashed.push(b);
                assert(branches_view(self.stashed@) =~= st.push(b@));
                proof {
                    lemma_deactivated_consistent(v0, id);
                    lemma_single_selection(self@);
                }
                Ok(())
            },
            None => {
                proof {
                    lemma_single_selection(self@);
                }
                Err(BranchError::NotFound)
            },
        }
    }

    /// Takes the active branch `id` out of the registry and hands it back,
    /// parked, with the same re-election as `delete`.
    pub fn take(&mut self, id: u64) -> (r: Result<VirtualBranch, BranchError>)
        requires
            old(self)@.consistent(),
        ensures
            final(self)@.consistent(),
            old(self)@.has_applied(id) ==> (r matches Ok(b) && final(self)@ == old(self)@.deleted(id)
                && b@ == parked(old(self)@.applied[index_in(old(self)@.applied, id)])),
            !old(self)@.has_applied(id) ==> r == Err::<VirtualBranch, BranchError>(
                BranchError::NotFound,
            ) && final(self)@ == old(self)@,
    {
        let ghost v0 = self@;
        match self.index_of(id) {
            Some(i) => {
                let b = self.detach(i);
                proof {
                    lemma_removed_consistent(v0, i as int);
                }
                Ok(b)
            },
            None => Err(BranchError::NotFound),
        }
    }

    /// Updates the active branch `id`: its name and ownership where given, and
    /// its selection. Selecting it takes the flag from every other branch in
    /// the same step.
    pub fn update(&mut self, req: BranchUpdateRequest) -> (r: Result<(), BranchError>)
        requires
            old(self)@.consistent(),
        ensures
            final(self)@.consistent(),
            old(self)@.has_applied(req.id) ==> r is Ok && final(self)@ == old(self)@.updated(
                req.id,
                name_view(req.name),
                ownership_view(req.ownership),
                req.selected_for_changes,
            ),
            !old(self)@.has_applied(req.id) ==> r == Err::<(), BranchError>(BranchError::NotFound)
                && final(self)@ == old(self)@,
            old(self)@.has_applied(req.id) && req.selected_for_changes == Some(true) ==> forall|k: int|
                0 <= k < final(self)@.applied.len() ==> (#[trigger] final(self)@.applied[k].selected_for_changes
                    <==> final(self)@.applied[k].id == req.id),
    {
        let ghost v0 = self@;
        let id = req.id;
        let ghost nv = name_view(req.name);
        let ghost ov = ownership_view(req.ownership);
        match self.index_of(id) {
            None => Err(BranchError::NotFound),
            Some(i) => {
                let mut b = self.applied.remove(i);
                match req.name {
                    Some(n) => {
                        b.name = n;
                    },
                    None => {},
                }
                match req.ownership {
                    Some(o) => {
                        b.ownership = o;
                    },
                    None => {},
                }
                let ghost bv = b@;
                self.applied.insert(i, b);
                assert(bv == amended(v0.applied[i as int], nv, ov));
                assert(branches_view(self.applied@) =~= v0.applied.update(i as int, bv));
                let was_selected = match self.selected {
                    Some(s) => s == id,
                    None => false,
                };
                match req.selected_for_changes {
                    Some(true) => {
                        self.selected = Some(id);
                    },
                    Some(false) => {
                        let n = self.applied.len();
                        if was_selected && n > 1 {
                            let other = if i == n - 1 { self.applied[n - 2].id } else { self.applied[n - 1].id };
                            proof {
                                let rest = v0.applied.remove(i as int);
                                if i == n - 1 {
                                    assert(rest.last() == v0.applied[n - 2]);
                                } else {
                                    assert(rest.last() == v0.applied[n - 1]);
                                }
                            }
                            self.selected = Some(other);
                        }
                    },
                    None => {},
                }
                self.sync_flags();
                proof {
                    lemma_updated_consistent(v0, id, nv, ov, req.selected_for_changes);
                }
                Ok(())
            },
        }
    }

    /// Commits the hunks that the active branch `id` owns as its newest
    /// commit, which then locks their lines to it; the branch owns no hunk
    /// afterwards. The selection is unchanged.
    pub fn commit(&mut self, id: u64, message: String) -> (r: Result<(), BranchError>)
        requires
            old(self)@.consistent(),
        ensures
            final(self)@.consistent(),
            !old(self)@.has_applied(id) ==> r == Err::<(), BranchError>(BranchError::NotFound)
                && final(self)@ == old(self)@,
            old(self)@.has_applied(id) && old(self)@.applied[index_in(old(self)@.applied, id)].ownership.len()
                == 0 ==> r == Err::<(), BranchError>(BranchError::NoChanges) && final(self)@ == old(self)@,
            old(self)@.has_applied(id) && old(self)@.applied[index_in(old(self)@.applied, id)].ownership.len()
                > 0 ==> r is Ok && final(self)@ == old(self)@.committed(id, message@),
    {
        let ghost v0 = self@;
        match self.index_of(id) {
            None => Err(BranchError::NotFound),
            Some(i) => {
                if self.applied[i].ownership.len() == 0 {
                    return Err(BranchError::NoChanges);
                }
                let mut b = self.applied.remove(i);
                let mut changes: Vec<Hunk> = Vec::new();
                std::mem::swap(&mut changes, &mut b.ownership);
                let c = Commit { message, changes };
                b.commits.insert(0, c);
                let ghost bv = b@;
                assert(commits_view(b.commits@) =~= seq![c@] + v0.applied[i as int].commits);
                assert(hunks_view(b.ownership@) =~= Seq::<HunkView>::empty());
                self.applied.insert(i, b);
                assert(branches_view(self.applied@) =~= v0.applied.update(i as int, bv));
                proof {
                    let w = self@;
                    assert forall|k: int| 0 <= k < w.applied.len() implies #[trigger] w.applied[k].id == v0.applied[k].id
                        && w.applied[k].active == v0.applied[k].active
                        && w.applied[k].selected_for_changes == v0.applied[k].selected_for_changes by {}
                    if let Some(s) = w.selected {
                        let k = choose|k: int| 0 <= k < v0.applied.len() && #[trigger] v0.applied[k].id == s;
                        assert(w.applied[k].id == s);
                    }
                }
                Ok(())
            },
        }
    }

    /// Gives each active branch the hunks of `diff` that `owners` assigns to it.
    pub fn assign(&mut self, diff: &Vec<Hunk>, owners: &Vec<Option<u64>>)
        requires
            old(self)@.consistent(),
            owners@.len() == diff@.len(),
        ensures
            final(self)@.consistent(),
            final(self)@ == old(self)@.reassigned(hunks_view(diff@), owners@),
    {
        let ghost v0 = self@;
        let ghost d = hunks_view(diff@);
        let mut i: usize = 0;
        while i < self.applied.len()
            invariant
                i <= self.applied.len(),
                self.applied.len() == v0.applied.len(),
                owners@.len() == diff@.len(),
                d == hunks_view(diff@),
                forall|j: int| 0 <= j < i ==> #[trigger] branches_view(self.applied@)[j] == owning(
                    v0.applied[j],
                    owned_by(d, owners@, v0.applied[j].id),
                ),
                forall|j: int| i <= j < v0.applied.len() ==> #[trigger] branches_view(self.applied@)[j] == v0.applied[j],
                self@.stashed == v0.stashed,
                self@.selected == v0.selected,
                self@.issued == v0.issued,
            decreases v0.applied.len() - i,
        {
            let ghost before = self.applied@;
            assert(branches_view(before)[i as int] == v0.applied[i as int]);
            let mut b = self.applied.remove(i);
            b.ownership = pick_owned(diff, owners, Some(b.id));
            let ghost bv = b;
            self.applied.insert(i, b);
            assert(self.applied@ =~= before.update(i as int, bv));
            assert forall|j: int| 0 <= j < v0.applied.len() && j != i implies #[trigger] branches_view(self.applied@)[j]
                == branches_view(before)[j] by {}
            i = i + 1;
        }
        assert(self@.applied =~= v0.applied.map_values(
            |b: BranchView| owning(b, owned_by(d, owners@, b.id)),
        ));
        proof {
            let w = self@;
            if let Some(s) = w.selected {
                let k = choose|k: int| 0 <= k < v0.applied.len() && #[trigger] v0.applied[k].id == s;
                assert(w.applied[k].id == s);
            }
        }
    }

    /// What the resolver needs of each active branch, in order.
    pub fn claims(&self) -> (r: Vec<BranchClaims>)
        ensures
            claims_view(r@) == self@.applied.map_values(|b: BranchView| claims_of(b)),
    {
        let ghost want = self@.applied.map_values(|b: BranchView| claims_of(b));
        let mut r: Vec<BranchClaims> = Vec::new();
        let mut i: usize = 0;
        while i < self.applied.len()
            invariant
                i <= self.applied.len(),
                want == self@.applied.map_values(|b: BranchView| claims_of(b)),
                claims_view(r@) == want.subrange(0, i as int),
            decreases self.applied.len() - i,
        {
            let b = &self.applied[i];
            let c = BranchClaims {
                id: b.id,
                locks: b.lock_surface(),
                owned: crate::hunk::duplicate_hunks(&b.ownership),
            };
            let ghost r0 = r@;
            r.push(c);
            assert(claims_view(r@) =~= claims_view(r0).push(want[i as int]));
            assert(claims_view(r@) =~= want.subrange(0, i + 1));
            i = i + 1;
        }
        assert(want.subrange(0, i as int) =~= want);
        r
    }

    /// The active branches in order, followed by the stashed ones when
    /// `include_inactive` holds.
    pub fn list(&self, include_inactive: bool) -> (r: Vec<VirtualBranch>)
        ensures
            branches_view(r@) == if include_inactive {
                self@.applied + self@.stashed
            } else {
                self@.applied
            },
    {
        let mut r: Vec<VirtualBranch> = Vec::new();
        let mut i: usize = 0;
        while i < self.applied.len()
            invariant
                i <= self.applied.len(),
                branches_view(r@) == self@.applied.subrange(0, i as int),
            decreases self.applied.len() - i,
        {
            let ghost r0 = r@;
            r.push(self.applied[i].duplicate());
            assert(branches_view(r@) =~= branches_view(r0).push(self@.applied[i as int]));
            assert(branches_view(r@) =~= self@.applied.subrange(0, i + 1));
            i = i + 1;
        }
        assert(self@.applied.subrange(0, i as int) =~= self@.applied);
        if include_inactive {
            let mut j: usize = 0;
            while j < self.stashed.len()
                invariant
                    j <= self.stashed.len(),
                    branches_view(r@) == self@.applied + self@.stashed.subrange(0, j as int),
                decreases self.stashed.len() - j,
            {
                let ghost r0 = r@;
                r.push(self.stashed[j].duplicate());
                assert(branches_view(r@) =~= branches_view(r0).push(self@.stashed[j as int]));
                assert(branches_view(r@) =~= self@.applied + self@.stashed.subrange(0, j + 1));
                j = j + 1;
            }
            assert(self@.stashed.subrange(0, j as int) =~= self@.stashed);
        }
        r
    }
}

} // verus!
