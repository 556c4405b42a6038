//! Hunk ownership: which branch each hunk of the current diff goes to.
use vstd::prelude::*;
use crate::hunk::{Hunk, HunkView, hunks_view, touches_any, holds_hunk, touches_any_of, holds_hunk_of};

verus! {

/// What the resolver knows of one active branch: the ranges its commits
/// changed (its lock surface) and the hunks it owned after the last pass.
pub struct BranchClaims {
    pub id: u64,
    pub locks: Vec<Hunk>,
    pub owned: Vec<Hunk>,
}

pub ghost struct ClaimsView {
    pub id: u64,
    pub locks: Seq<HunkView>,
    pub owned: Seq<HunkView>,
}

impl View for BranchClaims {
    type V = ClaimsView;

    open spec fn view(&self) -> ClaimsView {
        ClaimsView { id: self.id, locks: hunks_view(self.locks@), owned: hunks_view(self.owned@) }
    }
}

pub open spec fn claims_view(s: Seq<BranchClaims>) -> Seq<ClaimsView> {
    s.map_values(|c: BranchClaims| c@)
}

/// The first of the first `n` branches whose lock surface `h` touches.
pub open spec fn locker_among(h: HunkView, bs: Seq<ClaimsView>, n: int) -> Option<u64>
    decreases n,
{
    if n <= 0 {
        None
    } else {
        match locker_among(h, bs, n - 1) {
            Some(id) => Some(id),
            None => if touches_any(h, bs[n - 1].locks) {
                Some(bs[n - 1].id)
            } else {
                None
            },
        }
    }
}

/// The first branch whose lock surface `h` touches.
pub open spec fn locker(h: HunkView, bs: Seq<ClaimsView>) -> Option<u64> {
    locker_among(h, bs, bs.len() as int)
}

/// The first of the first `n` branches that owned `h` on the last pass.
pub open spec fn keeper_among(h: HunkView, bs: Seq<ClaimsView>, n: int) -> Option<u64>
    decreases n,
{
    if n <= 0 {
        None
    } else {
        match keeper_among(h, bs, n - 1) {
            Some(id) => Some(id),
            None => if holds_hunk(bs[n - 1].owned, h) {
                Some(bs[n - 1].id)
            } else {
                None
            },
        }
    }
}

/// The first branch that owned `h` on the last pass.
pub open spec fn keeper(h: HunkView, bs: Seq<ClaimsView>) -> Option<u64> {
    keeper_among(h, bs, bs.len() as int)
}

/// The owner of a hunk: the branch whose commits it touches, else the branch
/// that owned it before, else the selected branch; `None` when it is orphaned.
/// It depends on the hunk alone, never on the other hunks of its file.
pub open spec fn owner_of(h: HunkView, bs: Seq<ClaimsView>, selected: Option<u64>) -> Option<u64> {
    match locker(h, bs) {
        Some(id) => Some(id),
        None => match keeper(h, bs) {
            Some(id) => Some(id),
            None => selected,
        },
    }
}

/// The hunks among the first `n` of `diff` whose owner in `owners` is `owner`, in order.
pub open spec fn picked(diff: Seq<HunkView>, owners: Seq<Option<u64>>, owner: Option<u64>, n: int) -> Seq<HunkView>
    decreases n,
{
    if n <= 0 {
        Seq::empty()
    } else {
        let p = picked(diff, owners, owner, n - 1);
        if owners[n - 1] == owner {
            p.push(diff[n - 1])
        } else {
            p
        }
    }
}

/// The hunks of `diff` that the branch `id` owns.
pub open spec fn owned_by(diff: Seq<HunkView>, owners: Seq<Option<u64>>, id: u64) -> Seq<HunkView> {
    picked(diff, owners, Some(id), diff.len() as int)
}

/// The hunks of `diff` that no branch owns.
pub open spec fn orphaned(diff: Seq<HunkView>, owners: Seq<Option<u64>>) -> Seq<HunkView> {
    picked(diff, owners, None, diff.len() as int)
}

/// Once found among a prefix, the first locker stays the first for longer prefixes.
proof fn lemma_locker_settled(h: HunkView, bs: Seq<ClaimsView>, n: int, m: int)
    requires
        0 <= n <= m,
        locker_among(h, bs, n) is Some,
    ensures
        locker_among(h, bs, m) == locker_among(h, bs, n),
    decreases m - n,
{
    if m > n {
        lemma_locker_settled(h, bs, n, m - 1);
    }
}

/// Once found among a prefix, the first keeper stays the first for longer prefixes.
proof fn lemma_keeper_settled(h: HunkView, bs: Seq<ClaimsView>, n: int, m: int)
    requires
        0 <= n <= m,
        keeper_among(h, bs, n) is Some,
    ensures
        keeper_among(h, bs, m) == keeper_among(h, bs, n),
    decreases m - n,
{
    if m > n {
        lemma_keeper_settled(h, bs, n, m - 1);
    }
}

/// Among prefixes, the locker is the one branch whose lock surface `h` touches.
proof fn lemma_sole_locker(h: HunkView, bs: Seq<ClaimsView>, k: int, n: int)
    requires
        0 <= k < bs.len(),
        0 <= n <= bs.len(),
        touches_any(h, bs[k].locks),
        forall|j: int| 0 <= j < bs.len() && j != k ==> !touches_any(h, #[trigger] bs[j].locks),
    ensures
        locker_among(h, bs, n) == (if n <= k { None::<u64> } else { Some(bs[k].id) }),
    decreases n,
{
    if n > 0 {
        lemma_sole_locker(h, bs, k, n - 1);
    }
}

/// With no lock surface touched, there is no locker.
proof fn lemma_no_locker(h: HunkView, bs: Seq<ClaimsView>, n: int)
    requires
        0 <= n <= bs.len(),
        forall|j: int| 0 <= j < bs.len() ==> !touches_any(h, #[trigger] bs[j].locks),
    ensures
        locker_among(h, bs, n) == None::<u64>,
    decreases n,
{
    if n > 0 {
        lemma_no_locker(h, bs, n - 1);
    }
}

/// With no branch owning `h` before, there is no keeper.
proof fn lemma_no_keeper(h: HunkView, bs: Seq<ClaimsView>, n: int)
    requires
        0 <= n <= bs.len(),
        forall|j: int| 0 <= j < bs.len() ==> !holds_hunk(#[trigger] bs[j].owned, h),
    ensures
        keeper_among(h, bs, n) == None::<u64>,
    decreases n,
{
    if n > 0 {
        lemma_no_keeper(h, bs, n - 1);
    }
}

/// A locked hunk does not drag other hunks of its file along: a hunk that
/// touches the committed lines of branch `k` alone goes to that branch, while
/// a hunk of the same file that touches no committed lines and that no branch
/// owned before goes to the selected branch, both in one pass.
pub proof fn lemma_lock_keeps_to_its_hunk(
    locked: HunkView,
    free: HunkView,
    bs: Seq<ClaimsView>,
    k: int,
    selected: u64,
)
    requires
        0 <= k < bs.len(),
        locked.path == free.path,
        touches_any(locked, bs[k].locks),
        forall|j: int| 0 <= j < bs.len() && j != k ==> !touches_any(locked, #[trigger] bs[j].locks),
        forall|j: int| 0 <= j < bs.len() ==> !touches_any(free, #[trigger] bs[j].locks),
        forall|j: int| 0 <= j < bs.len() ==> !holds_hunk(#[trigger] bs[j].owned, free),
    ensures
        owner_of(locked, bs, Some(selected)) == Some(bs[k].id),
        owner_of(free, bs, Some(selected)) == Some(selected),
{
    lemma_sole_locker(locked, bs, k, bs.len() as int);
    lemma_no_locker(free, bs, bs.len() as int);
    lemma_no_keeper(free, bs, bs.len() as int);
}

/// The branch whose lock surface `h` touches, the first one if several do.
pub fn find_locker(h: &Hunk, branches: &Vec<BranchClaims>) -> (r: Option<u64>)
    ensures
        r == locker(h@, claims_view(branches@)),
{
    let ghost bs = claims_view(branches@);
    let mut i: usize = 0;
    while i < branches.len()
        invariant
            i <= branches.len(),
            bs == claims_view(branches@),
            locker_among(h@, bs, i as int) == None::<u64>,
        decreases branches.len() - i,
    {
        if touches_any_of(h, &branches[i].locks) {
            proof {
                lemma_locker_settled(h@, bs, i + 1, bs.len() as int);
            }
            return Some(branches[i].id);
        }
        i = i + 1;
    }
    None
}

/// The branch that owned `h` on the last pass, the first one if several did.
pub fn find_keeper(h: &Hunk, branches: &Vec<BranchClaims>) -> (r: Option<u64>)
    ensures
        r == keeper(h@, claims_view(branches@)),
{
    let ghost bs = claims_view(branches@);
    let mut i: usize = 0;
    while i < branches.len()
        invariant
            i <= branches.len(),
            bs == claims_view(branches@),
            keeper_among(h@, bs, i as int) == None::<u64>,
        decreases branches.len() - i,
    {
        if holds_hunk_of(&branches[i].owned, h) {
            proof {
                lemma_keeper_settled(h@, bs, i + 1, bs.len() as int);
            }
            return Some(branches[i].id);
        }
        i = i + 1;
    }
    None
}

/// The owner of one hunk.
pub fn resolve_hunk(h: &Hunk, branches: &Vec<BranchClaims>, selected: Option<u64>) -> (r: Option<u64>)
    ensures
        r == owner_of(h@, claims_view(branches@), selected),
{
    match find_locker(h, branches) {
        Some(id) => Some(id),
        None => match find_keeper(h, branches) {
            Some(id) => Some(id),
            None => selected,
        },
    }
}

/// The owner of every hunk of `diff`, position by position.
pub fn resolve(diff: &Vec<Hunk>, branches: &Vec<BranchClaims>, selected: Option<u64>) -> (r: Vec<Option<u64>>)
    ensures
        r@.len() == diff@.len(),
        forall|i: int| 0 <= i < diff@.len() ==>
            #[trigger] r@[i] == owner_of(diff@[i]@, claims_view(branches@), selected),
{
    let mut r: Vec<Option<u64>> = Vec::new();
    let mut i: usize = 0;
    while i < diff.len()
        invariant
            i <= diff.len(),
            r@.len() == i,
            forall|j: int| 0 <= j < i ==>
                #[trigger] r@[j] == owner_of(diff@[j]@, claims_view(branches@), selected),
        decreases diff.len() - i,
    {
        let o = resolve_hunk(&diff[i], branches, selected);
        r.push(o);
        i = i + 1;
    }
    r
}

/// The hunks of `diff` whose owner is `owner`, in the order of `diff`.
pub fn pick_owned(diff: &Vec<Hunk>, owners: &Vec<Option<u64>>, owner: Option<u64>) -> (r: Vec<Hunk>)
    requires
        owners@.len() == diff@.len(),
    ensures
        hunks_view(r@) == picked(hunks_view(diff@), owners@, owner, diff@.len() as int),
{
    let ghost d = hunks_view(diff@);
    let mut r: Vec<Hunk> = Vec::new();
    let mut i: usize = 0;
    while i < diff.len()
        invariant
            i <= diff.len(),
            owners@.len() == diff@.len(),
            d == hunks_view(diff@),
            hunks_view(r@) == picked(d, owners@, owner, i as int),
        decreases diff.len() - i,
    {
        let hit = match (owners[i], owner) {
            (Some(a), Some(b)) => a == b,
            (None, None) => true,
            _ => false,
        };
        if hit {
            let h = diff[i].duplicate();
            r.push(h);
            assert(hunks_view(r@) =~= picked(d, owners@, owner, i as int).push(d[i as int]));
        }
        i = i + 1;
    }
    r
}

} // verus!
