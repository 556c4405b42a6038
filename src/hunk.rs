//! Line ranges and hunks: the unit of ownership.
use vstd::prelude::*;

verus! {

/// An inclusive range of line numbers, `start..=end`.
#[derive(Clone, Copy, Debug, PartialEq, Eq, Structural)]
pub struct LineRange {
    pub start: u64,
    pub end: u64,
}

impl LineRange {
    /// Two ranges overlap when they share at least one line.
    pub open spec fn overlaps_spec(self, other: LineRange) -> bool {
        self.start <= other.end && other.start <= self.end
    }

    pub fn new(start: u64, end: u64) -> (r: LineRange)
        ensures
            r.start == start,
            r.end == end,
    {
        LineRange { start, end }
    }

    pub fn overlaps(&self, other: &LineRange) -> (r: bool)
        ensures
            r == self.overlaps_spec(*other),
    {
        self.start <= other.end && other.start <= self.end
    }
}

/// A contiguous changed line range in one file.
#[derive(Debug)]
pub struct Hunk {
    pub path: String,
    pub range: LineRange,
}

/// What a hunk is, mathematically: a path and a line range.
pub ghost struct HunkView {
    pub path: Seq<char>,
    pub range: LineRange,
}

impl View for Hunk {
    type V = HunkView;

    open spec fn view(&self) -> HunkView {
        HunkView { path: self.path@, range: self.range }
    }
}

/// The views of a sequence of hunks.
pub open spec fn hunks_view(s: Seq<Hunk>) -> Seq<HunkView> {
    s.map_values(|h: Hunk| h@)
}

/// A hunk touches another when both are in the same file and their lines overlap.
pub open spec fn touches(a: HunkView, b: HunkView) -> bool {
    a.path == b.path && a.range.overlaps_spec(b.range)
}

/// `h` touches some hunk of `s`.
pub open spec fn touches_any(h: HunkView, s: Seq<HunkView>) -> bool {
    exists|i: int| 0 <= i < s.len() && touches(h, #[trigger] s[i])
}

/// `s` holds a hunk with the same path and range as `h`.
pub open spec fn holds_hunk(s: Seq<HunkView>, h: HunkView) -> bool {
    exists|i: int| 0 <= i < s.len() && #[trigger] s[i] == h
}

impl Hunk {
    pub fn new(path: String, range: LineRange) -> (r: Hunk)
        ensures
            r@ == (HunkView { path: path@, range }),
    {
        Hunk { path, range }
    }

    /// A copy with the same path and range.
    pub fn duplicate(&self) -> (r: Hunk)
        ensures
            r@ == self@,
    {
        Hunk { path: self.path.clone(), range: self.range }
    }

    pub fn touches(&self, other: &Hunk) -> (r: bool)
        ensures
            r == touches(self@, other@),
    {
        self.path == other.path && self.range.overlaps(&other.range)
    }

    pub fn same_as(&self, other: &Hunk) -> (r: bool)
        ensures
            r == (self@ == other@),
    {
        self.path == other.path && self.range == other.range
    }
}

/// Whether `h` touches any hunk of `s`.
pub fn touches_any_of(h: &Hunk, s: &Vec<Hunk>) -> (r: bool)
    ensures
        r == touches_any(h@, hunks_view(s@)),
{
    let mut i: usize = 0;
    while i < s.len()
        invariant
            i <= s.len(),
            forall|j: int| 0 <= j < i ==> !touches(h@, #[trigger] hunks_view(s@)[j]),
        decreases s.len() - i,
    {
        if h.touches(&s[i]) {
            assert(touches(h@, hunks_view(s@)[i as int]));
            return true;
        }
        i = i + 1;
    }
    false
}

/// Whether `s` holds a hunk with the path and range of `h`.
pub fn holds_hunk_of(s: &Vec<Hunk>, h: &Hunk) -> (r: bool)
    ensures
        r == holds_hunk(hunks_view(s@), h@),
{
    let mut i: usize = 0;
    while i < s.len()
        invariant
            i <= s.len(),
            forall|j: int| 0 <= j < i ==> #[trigger] hunks_view(s@)[j] != h@,
        decreases s.len() - i,
    {
        if s[i].same_as(h) {
            assert(hunks_view(s@)[i as int] == h@);
            return true;
        }
        i = i + 1;
    }
    false
}

/// A copy of a list of hunks.
pub fn duplicate_hunks(s: &Vec<Hunk>) -> (r: Vec<Hunk>)
    ensures
        hunks_view(r@) == hunks_view(s@),
{
    let mut r: Vec<Hunk> = Vec::new();
    let mut i: usize = 0;
    while i < s.len()
        invariant
            i <= s.len(),
            hunks_view(r@) == hunks_view(s@.subrange(0, i as int)),
        decreases s.len() - i,
    {
        r.push(s[i].duplicate());
        assert(hunks_view(s@.subrange(0, i + 1)) =~= hunks_view(s@.subrange(0, i as int)).push(s@[i as int]@));
        assert(hunks_view(r@) =~= hunks_view(s@.subrange(0, i + 1)));
        i = i + 1;
    }
    assert(s@.subrange(0, s.len() as int) =~= s@);
    r
}

} // verus!
