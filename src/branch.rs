//! Virtual branches and their commits.
use vstd::prelude::*;
use crate::hunk::{Hunk, HunkView, hunks_view, duplicate_hunks};

verus! {

/// A commit of a virtual branch: its message and the hunks it changed,
/// which lock those lines to the branch.
pub struct Commit {
    pub message: String,
    pub changes: Vec<Hunk>,
}

pub ghost struct CommitView {
    pub message: Seq<char>,
    pub changes: Seq<HunkView>,
}

impl View for Commit {
    type V = CommitView;

    open spec fn view(&self) -> CommitView {
        CommitView { message: self.message@, changes: hunks_view(self.changes@) }
    }
}

pub open spec fn commits_view(s: Seq<Commit>) -> Seq<CommitView> {
    s.map_values(|c: Commit| c@)
}

/// All lines that the commits changed, commit by commit.
pub open spec fn lock_surface(commits: Seq<CommitView>) -> Seq<HunkView>
    decreases commits.len(),
{
    if commits.len() == 0 {
        Seq::empty()
    } else {
        lock_surface(commits.drop_last()) + commits.last().changes
    }
}

impl Commit {
    pub fn duplicate(&self) -> (r: Commit)
        ensures
            r@ == self@,
    {
        Commit { message: self.message.clone(), changes: duplicate_hunks(&self.changes) }
    }
}

/// A named, independently committable part of the working directory's changes.
pub struct VirtualBranch {
    pub id: u64,
    pub name: String,
    pub active: bool,
    pub selected_for_changes: bool,
    /// The uncommitted hunks that the branch owns.
    pub ownership: Vec<Hunk>,
    /// The branch's commits, newest first.
    pub commits: Vec<Commit>,
}

pub ghost struct BranchView {
    pub id: u64,
    pub name: Seq<char>,
    pub active: bool,
    pub selected_for_changes: bool,
    pub ownership: Seq<HunkView>,
    pub commits: Seq<CommitView>,
}

impl View for VirtualBranch {
    type V = BranchView;

    open spec fn view(&self) -> BranchView {
        BranchView {
            id: self.id,
            name: self.name@,
            active: self.active,
            selected_for_changes: self.selected_for_changes,
            ownership: hunks_view(self.ownership@),
            commits: commits_view(self.commits@),
        }
    }
}

pub open spec fn branches_view(s: Seq<VirtualBranch>) -> Seq<BranchView> {
    s.map_values(|b: VirtualBranch| b@)
}

/// The paths of `s`, each once, in the order they first appear among the first `n` hunks.
pub open spec fn paths_among(s: Seq<HunkView>, n: int) -> Seq<Seq<char>>
    decreases n,
{
    if n <= 0 {
        Seq::empty()
    } else {
        let p = paths_among(s, n - 1);
        if p.contains(s[n - 1].path) {
            p
        } else {
            p.push(s[n - 1].path)
        }
    }
}

/// The files that a list of hunks touches, each once, in order of first appearance.
pub open spec fn files_of(s: Seq<HunkView>) -> Seq<Seq<char>> {
    paths_among(s, s.len() as int)
}

/// A copy of a list of commits.
pub fn duplicate_commits(s: &Vec<Commit>) -> (r: Vec<Commit>)
    ensures
        commits_view(r@) == commits_view(s@),
{
    let mut r: Vec<Commit> = Vec::new();
    let mut i: usize = 0;
    while i < s.len()
        invariant
            i <= s.len(),
            commits_view(r@) == commits_view(s@.subrange(0, i as int)),
        decreases s.len() - i,
    {
        r.push(s[i].duplicate());
        assert(commits_view(s@.subrange(0, i + 1)) =~= commits_view(s@.subrange(0, i as int)).push(s@[i as int]@));
        assert(commits_view(r@) =~= commits_view(s@.subrange(0, i + 1)));
        i = i + 1;
    }
    assert(s@.subrange(0, s.len() as int) =~= s@);
    r
}

/// Whether `v` holds a string equal to `p`.
fn contains_path(v: &Vec<String>, p: &String) -> (r: bool)
    ensures
        r == v@.map_values(|x: String| x@).contains(p@),
{
    let ghost vs = v@.map_values(|x: String| x@);
    let mut i: usize = 0;
    while i < v.len()
        invariant
            i <= v.len(),
            vs == v@.map_values(|x: String| x@),
            forall|j: int| 0 <= j < i ==> vs[j] != p@,
        decreases v.len() - i,
    {
        if v[i] == *p {
            assert(vs[i as int] == p@);
            return true;
        }
        i = i + 1;
    }
    false
}

impl VirtualBranch {
    /// A copy of the branch.
    pub fn duplicate(&self) -> (r: VirtualBranch)
        ensures
            r@ == self@,
    {
        VirtualBranch {
            id: self.id,
            name: self.name.clone(),
            active: self.active,
            selected_for_changes: self.selected_for_changes,
            ownership: duplicate_hunks(&self.ownership),
            commits: duplicate_commits(&self.commits),
        }
    }

    /// The files in which the branch owns hunks, each once.
    pub fn files(&self) -> (r: Vec<String>)
        ensures
            r@.map_values(|x: String| x@) == files_of(hunks_view(self.ownership@)),
    {
        let ghost s = hunks_view(self.ownership@);
        let mut r: Vec<String> = Vec::new();
        let mut i: usize = 0;
        while i < self.ownership.len()
            invariant
                i <= self.ownership.len(),
                s == hunks_view(self.ownership@),
                r@.map_values(|x: String| x@) == paths_among(s, i as int),
            decreases self.ownership.len() - i,
        {
            let p = &self.ownership[i].path;
            if !contains_path(&r, p) {
                r.push(p.clone());
                assert(r@.map_values(|x: String| x@) =~= paths_among(s, i as int).push(p@));
            }
            i = i + 1;
        }
        r
    }

    /// The lines that the branch's commits changed.
    pub fn lock_surface(&self) -> (r: Vec<Hunk>)
        ensures
            hunks_view(r@) == lock_surface(commits_view(self.commits@)),
    {
        let ghost cs = commits_view(self.commits@);
        let mut r: Vec<Hunk> = Vec::new();
        let mut i: usize = 0;
        while i < self.commits.len()
            invariant
                i <= self.commits.len(),
                cs == commits_view(self.commits@),
                hunks_view(r@) == lock_surface(cs.subrange(0, i as int)),
            decreases self.commits.len() - i,
        {
            let ghost before = r@;
            let c = &self.commits[i];
            let mut j: usize = 0;
            while j < c.changes.len()
                invariant
                    j <= c.changes.len(),
                    hunks_view(r@) == hunks_view(before) + hunks_view(c.changes@.subrange(0, j as int)),
                decreases c.changes.len() - j,
            {
                let ghost r_old = r@;
                r.push(c.changes[j].duplicate());
                assert(hunks_view(r@) =~= hunks_view(r_old).push(c.changes@[j as int]@));
                assert(hunks_view(c.changes@.subrange(0, j + 1)) =~= hunks_view(c.changes@.subrange(0, j as int)).push(c.changes@[j as int]@));
                assert(hunks_view(r@) =~= hunks_view(before) + hunks_view(c.changes@.subrange(0, j + 1)));
                j = j + 1;
            }
            assert(c.changes@.subrange(0, c.changes.len() as int) =~= c.changes@);
            assert(cs.subrange(0, i + 1).drop_last() =~= cs.subrange(0, i as int));
            i = i + 1;
        }
        assert(cs.subrange(0, cs.len() as int) =~= cs);
        r
    }
}

} // verus!
