//! Counting the entries that the import filter drops, by the first name of
//! their path.

use crate::text::{
    lemma_text_lt_irreflexive, lemma_text_lt_total, lemma_text_lt_transitive, str_eq, str_lt,
    text_lt,
};
use vstd::prelude::*;

verus! {

/// How many entries were dropped under one first name.
#[derive(Debug, Clone, PartialEq, Eq)]
pub struct TallyEntry {
    /// The first name of the dropped paths, such as `var` or `boot`.
    pub prefix: String,
    /// How many entries were dropped under it.
    pub count: u32,
}

/// The dropped entries of one pass over an archive, counted by first name
/// and kept in ascending order of the names.
#[derive(Debug, Clone, PartialEq, Eq)]
pub struct FilterTally {
    rows: Vec<TallyEntry>,
}

/// Whether the rows are in strictly ascending order of their names.
pub open spec fn ascending(rows: Seq<TallyEntry>) -> bool {
    forall|a: int, b: int|
        0 <= a < b < rows.len() ==> text_lt(#[trigger] rows[a].prefix@, #[trigger] rows[b].prefix@)
}

/// Whether some row is about the name `p`.
pub open spec fn has_row(rows: Seq<TallyEntry>, p: Seq<char>) -> bool {
    exists|i: int| 0 <= i < rows.len() && (#[trigger] rows[i]).prefix@ == p
}

/// The index of a row about the name `p`.
pub open spec fn row_of(rows: Seq<TallyEntry>, p: Seq<char>) -> int {
    choose|i: int| 0 <= i < rows.len() && (#[trigger] rows[i]).prefix@ == p
}

/// The counts that the rows hold, by name.
pub open spec fn counts(rows: Seq<TallyEntry>) -> Map<Seq<char>, nat> {
    Map::new(|p: Seq<char>| has_row(rows, p), |p: Seq<char>| rows[row_of(rows, p)].count as nat)
}

/// In ascending rows no name occurs twice.
proof fn lemma_one_row_per_name(rows: Seq<TallyEntry>, a: int, b: int)
    requires
        ascending(rows),
        0 <= a < rows.len(),
        0 <= b < rows.len(),
        rows[a].prefix@ == rows[b].prefix@,
    ensures
        a == b,
{
    lemma_text_lt_irreflexive(rows[a].prefix@);
}

/// In ascending rows, the row found for a name is the one that holds it.
proof fn lemma_row_found(rows: Seq<TallyEntry>, i: int)
    requires
        ascending(rows),
        0 <= i < rows.len(),
    ensures
        has_row(rows, rows[i].prefix@),
        row_of(rows, rows[i].prefix@) == i,
        counts(rows).contains_key(rows[i].prefix@),
        counts(rows)[rows[i].prefix@] == rows[i].count,
{
    let p = rows[i].prefix@;
    assert(has_row(rows, p));
    lemma_one_row_per_name(rows, row_of(rows, p), i);
}

impl FilterTally {
    /// The rows, in ascending order of their names.
    pub closed spec fn rows(&self) -> Seq<TallyEntry> {
        self.rows@
    }

    /// What every tally holds: the rows ascend strictly, so no name occurs
    /// twice, and each counts at least one entry.
    pub open spec fn wf(&self) -> bool {
        &&& ascending(self.rows())
        &&& forall|i: int| 0 <= i < self.rows().len() ==> (#[trigger] self.rows()[i]).count >= 1
    }

    /// How many entries were dropped under each name that has any.
    pub open spec fn view(&self) -> Map<Seq<char>, nat> {
        counts(self.rows())
    }

    /// How many entries were dropped under `p`.
    pub open spec fn count_of(&self, p: Seq<char>) -> nat {
        if self@.contains_key(p) {
            self@[p]
        } else {
            0
        }
    }

    /// A tally of nothing.
    pub fn new() -> (t: FilterTally)
        ensures
            t.wf(),
            t@ == Map::<Seq<char>, nat>::empty(),
            t.rows().len() == 0,
    {
        let t = FilterTally { rows: Vec::new() };
        assert(t@ =~= Map::<Seq<char>, nat>::empty());
        t
    }

    /// The number of names that have a count.
    pub fn len(&self) -> (n: usize)
        ensures
            n == self.rows().len(),
    {
        self.rows.len()
    }

    /// The row at position `i` in ascending order of the names.
    pub fn row(&self, i: usize) -> (r: &TallyEntry)
        requires
            i < self.rows().len(),
        ensures
            *r == self.rows()[i as int],
    {
        &self.rows[i]
    }

    /// The count kept for `prefix`, if entries were dropped under it.
    pub fn get(&self, prefix: &str) -> (r: Option<u32>)
        requires
            self.wf(),
        ensures
            match r {
                Some(c) => self@.contains_key(prefix@) && self@[prefix@] == c,
                None => !self@.contains_key(prefix@),
            },
    {
        let n = self.rows.len();
        let mut i: usize = 0;
        while i < n
            invariant
                n == self.rows().len(),
                i <= n,
                self.wf(),
                forall|j: int| 0 <= j < i ==> (#[trigger] self.rows()[j]).prefix@ != prefix@,
            decreases n - i,
        {
            if str_eq(self.rows[i].prefix.as_str(), prefix) {
                proof {
                    lemma_row_found(self.rows(), i as int);
                }
                return Some(self.rows[i].count);
            }
            i = i + 1;
        }
        None
    }

    /// Whether one more entry can be counted under `prefix`.
    pub fn has_room(&self, prefix: &str) -> (r: bool)
        requires
            self.wf(),
        ensures
            r == (self.count_of(prefix@) < u32::MAX),
    {
        match self.get(prefix) {
            Some(c) => c < u32::MAX,
            None => true,
        }
    }

    /// Whether every count is below the largest number it can hold.
    pub fn all_below_max(&self) -> (r: bool)
        requires
            self.wf(),
        ensures
            r == (forall|p: Seq<char>| #[trigger] self@.contains_key(p) ==> self@[p] < u32::MAX),
    {
        let n = self.rows.len();
        let mut i: usize = 0;
        while i < n
            invariant
                n == self.rows().len(),
                i <= n,
                self.wf(),
                forall|j: int| 0 <= j < i ==> (#[trigger] self.rows()[j]).count < u32::MAX,
            decreases n - i,
        {
            if self.rows[i].count == u32::MAX {
                proof {
                    lemma_row_found(self.rows(), i as int);
                    assert(self@.contains_key(self.rows()[i as int].prefix@));
                }
                return false;
            }
            i = i + 1;
        }
        proof {
            assert forall|p: Seq<char>| #[trigger] self@.contains_key(p) implies self@[p]
                < u32::MAX by {
                let j = row_of(self.rows(), p);
                assert(self.rows()[j].count < u32::MAX);
            }
        }
        true
    }

    /// Counts one more dropped entry under `prefix`.
    pub fn record(&mut self, prefix: &str)
        requires
            old(self).wf(),
            old(self).count_of(prefix@) < u32::MAX,
        ensures
            final(self).wf(),
            final(self)@ == old(self)@.insert(prefix@, old(self).count_of(prefix@) + 1),
    {
        let n = self.rows.len();
        let mut i: usize = 0;
        while i < n && str_lt(self.rows[i].prefix.as_str(), prefix)
            invariant
                n == self.rows().len(),
                i <= n,
                *self == *old(self),
                forall|j: int| 0 <= j < i ==> text_lt((#[trigger] self.rows()[j]).prefix@, prefix@),
            decreases n - i,
        {
            i = i + 1;
        }
        let ghost before = self.rows();
        if i < n && str_eq(self.rows[i].prefix.as_str(), prefix) {
            let c = self.rows[i].count;
            proof {
                lemma_row_found(before, i as int);
            }
            let row = TallyEntry { prefix: self.rows[i].prefix.clone(), count: c + 1 };
            self.rows.set(i, row);
            proof {
                let after = self.rows();
                assert forall|a: int, b: int| 0 <= a < b < after.len() implies text_lt(
                    #[trigger] after[a].prefix@,
                    #[trigger] after[b].prefix@,
                ) by {
                    assert(after[a].prefix@ == before[a].prefix@);
                    assert(after[b].prefix@ == before[b].prefix@);
                }
                let want = counts(before).insert(prefix@, (c + 1) as nat);
                assert forall|p: Seq<char>| counts(after).contains_key(p) == want.contains_key(
                    p,
                ) by {
                    if has_row(after, p) {
                        let j = row_of(after, p);
                        assert(before[j].prefix@ == p);
                    }
                    if has_row(before, p) {
                        let j = row_of(before, p);
                        assert(after[j].prefix@ == p);
                    }
                    assert(after[i as int].prefix@ == prefix@);
                }
                assert forall|p: Seq<char>| counts(after).contains_key(p) implies counts(
                    after,
                )[p] == want[p] by {
                    let j = row_of(after, p);
                    lemma_row_found(after, j);
                    if p != prefix@ {
                        assert(before[j].prefix@ == p);
                        lemma_row_found(before, j);
                    } else {
                        lemma_one_row_per_name(after, j, i as int);
                    }
                }
                assert(counts(after) =~= want);
            }
        } else {
            proof {
                if i < n {
                    lemma_text_lt_total(before[i as int].prefix@, prefix@);
                }
                assert forall|j: int| i <= j < n implies text_lt(
                    prefix@,
                    (#[trigger] before[j]).prefix@,
                ) by {
                    if j > i {
                        lemma_text_lt_transitive(
                            prefix@,
                            before[i as int].prefix@,
                            before[j].prefix@,
                        );
                    }
                }
                assert(!has_row(before, prefix@)) by {
                    if has_row(before, prefix@) {
                        let j = row_of(before, prefix@);
                        lemma_text_lt_irreflexive(prefix@);
                        if j < i {
                            assert(text_lt(before[j].prefix@, prefix@));
                        } else {
                            assert(text_lt(prefix@, before[j].prefix@));
                        }
                    }
                }
            }
            let row = TallyEntry { prefix: String::from_str(prefix), count: 1 };
            self.rows.insert(i, row);
            proof {
                let after = self.rows();
                assert(after.len() == before.len() + 1);
                assert(after[i as int] == row);
                assert forall|j: int| 0 <= j < i implies after[j] == before[j] by {}
                assert forall|j: int| i < j < after.len() implies after[j] == before[j - 1] by {}
                assert forall|a: int, b: int| 0 <= a < b < after.len() implies text_lt(
                    #[trigger] after[a].prefix@,
                    #[trigger] after[b].prefix@,
                ) by {
                    if a < i && b > i {
                        assert(after[b] == before[b - 1]);
                    }
                    if a < i && b < i {
                        assert(text_lt(before[a].prefix@, before[b].prefix@));
                    }
                    if a > i {
                        assert(text_lt(before[a - 1].prefix@, before[b - 1].prefix@));
                    }
                    if a == i {
                        assert(after[b] == before[b - 1]);
                    }
                }
                let want = counts(before).insert(prefix@, 1);
                assert forall|p: Seq<char>| counts(after).contains_key(p) == want.contains_key(
                    p,
                ) by {
                    if has_row(after, p) {
                        let j = row_of(after, p);
                        if j < i {
                            assert(before[j].prefix@ == p);
                        } else if j > i {
                            assert(before[j - 1].prefix@ == p);
                        }
                    }
                    if has_row(before, p) {
                        let j = row_of(before, p);
                        if j < i {
                            assert(after[j].prefix@ == p);
                        } else {
                            assert(after[j + 1].prefix@ == p);
                        }
                    }
                    assert(after[i as int].prefix@ == prefix@);
                }
                assert forall|p: Seq<char>| counts(after).contains_key(p) implies counts(
                    after,
                )[p] == want[p] by {
                    let j = row_of(after, p);
                    lemma_row_found(after, j);
                    if j < i {
                        assert(before[j].prefix@ == p);
                        lemma_row_found(before, j);
                    } else if j > i {
                        assert(before[j - 1].prefix@ == p);
                        lemma_row_found(before, j - 1);
                    }
                }
                assert(counts(after) =~= want);
            }
        }
    }
}

} // verus!
