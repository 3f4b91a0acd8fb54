//! The import filter: one forward pass over the entries of an untrusted
//! archive that decides, entry by entry, what reaches the commit writer.
//!
//! Entries below the object store of the archive are never written as they
//! come. A modified regular file there is kept aside, the first hard link to
//! it is written as the file itself, and later links to it point at that
//! first link. Every other entry is written under its normalized path, or
//! dropped and counted when it lies outside `/usr` and `/etc`.

use crate::failure::ErrorKind;
use crate::tar::path::{
    components_of, first_normal, lemma_kept_path_lies_below_usr, normalize_validate_path,
    normalized, path_has_base, path_under, paths_equal, same_path, well_formed_components,
    NormalizedPathResult, NormalizedView,
};
use crate::tar::tally::FilterTally;
use crate::text::{has_prefix, opt_text, texts};
use vstd::prelude::*;

verus! {

/// The kinds of archive entry that the filter tells apart.
#[derive(Debug, Clone, Copy, PartialEq, Eq, Structural)]
pub enum EntryKind {
    /// A regular file.
    Regular,
    /// A hard link.
    Link,
    /// A symbolic link.
    Symlink,
    /// Anything else: a directory, a device, a fifo.
    Other,
}

/// What the filter reads of one archive entry.
#[derive(Debug, Clone, PartialEq, Eq)]
pub struct EntryMeta {
    /// The path of the entry.
    pub path: String,
    /// The kind of the entry.
    pub kind: EntryKind,
    /// The modification time in the header, zero where it has none.
    pub mtime: u64,
    /// The name that the entry links to, where it names one; in its long
    /// form where the archive gives one.
    pub link_target: Option<String>,
}

/// The mathematical content of an [`EntryMeta`].
pub struct EntryView {
    pub path: Seq<char>,
    pub kind: EntryKind,
    pub mtime: u64,
    pub link_target: Option<Seq<char>>,
}

impl View for EntryMeta {
    type V = EntryView;

    open spec fn view(&self) -> EntryView {
        EntryView {
            path: self.path@,
            kind: self.kind,
            mtime: self.mtime,
            link_target: match self.link_target {
                Some(t) => Some(t@),
                None => None,
            },
        }
    }
}

/// What is to be done with an entry.
#[derive(Debug, Clone, PartialEq, Eq)]
pub enum FilterAction {
    /// Keep the header and the body aside under the entry's path; write nothing.
    Spill,
    /// Write nothing.
    Drop,
    /// Write, at the entry's path, the header and body kept aside under `source`.
    EmitSpilled { source: String },
    /// Write a hard link at the entry's path that points at `target`.
    Relink { target: String },
    /// Write the entry with its body, under `path`.
    Copy { path: String },
    /// Write the entry, a link to `target`, under `path`.
    CopyLink { path: String, target: String },
}

/// The mathematical content of a [`FilterAction`].
pub enum ActionView {
    Spill,
    Drop,
    EmitSpilled { source: Seq<char> },
    Relink { target: Seq<char> },
    Copy { path: Seq<char> },
    CopyLink { path: Seq<char>, target: Seq<char> },
}

impl View for FilterAction {
    type V = ActionView;

    open spec fn view(&self) -> ActionView {
        match self {
            FilterAction::Spill => ActionView::Spill,
            FilterAction::Drop => ActionView::Drop,
            FilterAction::EmitSpilled { source } => ActionView::EmitSpilled { source: source@ },
            FilterAction::Relink { target } => ActionView::Relink { target: target@ },
            FilterAction::Copy { path } => ActionView::Copy { path: path@ },
            FilterAction::CopyLink { path, target } => ActionView::CopyLink {
                path: path@,
                target: target@,
            },
        }
    }
}

/// Why the filter gives up on an archive.
#[derive(Debug, Clone, PartialEq, Eq)]
pub enum FilterError {
    /// A path holds `..` or a Windows prefix.
    InvalidPath(String),
    /// A hard link names no target.
    EmptyHardlink,
    /// A link that is to be written names no target.
    InvalidLink,
}

/// The mathematical content of a [`FilterError`].
pub enum FilterErrorView {
    InvalidPath(Seq<char>),
    EmptyHardlink,
    InvalidLink,
}

impl View for FilterError {
    type V = FilterErrorView;

    open spec fn view(&self) -> FilterErrorView {
        match self {
            FilterError::InvalidPath(p) => FilterErrorView::InvalidPath(p@),
            FilterError::EmptyHardlink => FilterErrorView::EmptyHardlink,
            FilterError::InvalidLink => FilterErrorView::InvalidLink,
        }
    }
}

impl FilterError {
    /// The kind of this failure: a path that must not be there fails
    /// validation, a link without a target is a malformed header.
    pub fn kind(&self) -> (k: ErrorKind)
        ensures
            k == match self@ {
                FilterErrorView::InvalidPath(_) => ErrorKind::Validation,
                FilterErrorView::EmptyHardlink => ErrorKind::Parse,
                FilterErrorView::InvalidLink => ErrorKind::Parse,
            },
    {
        match self {
            FilterError::InvalidPath(_) => ErrorKind::Validation,
            FilterError::EmptyHardlink => ErrorKind::Parse,
            FilterError::InvalidLink => ErrorKind::Parse,
        }
    }

    /// The message for this failure.
    pub fn message(&self) -> (m: String)
        ensures
            m@ == match self@ {
                FilterErrorView::InvalidPath(p) => "Invalid path: "@ + p,
                FilterErrorView::EmptyHardlink => "Invalid empty hardlink"@,
                FilterErrorView::InvalidLink => "Invalid link"@,
            },
    {
        match self {
            FilterError::InvalidPath(p) => String::from_str("Invalid path: ").concat(p.as_str()),
            FilterError::EmptyHardlink => String::from_str("Invalid empty hardlink"),
            FilterError::InvalidLink => String::from_str("Invalid link"),
        }
    }
}

/// The first path that took over the content of an object-store file.
#[derive(Debug, Clone, PartialEq, Eq)]
pub struct Relocation {
    /// The path of the file in the object store.
    pub from: String,
    /// The path under which its content was written.
    pub to: String,
}

/// The two tables and the tally that the filter carries through one pass,
/// and the path prefix under which the archive holds the object store.
#[derive(Debug, Clone, PartialEq, Eq)]
pub struct TarFilter {
    repo_prefix: String,
    pending: Vec<String>,
    relocated: Vec<Relocation>,
    tally: FilterTally,
}

/// The mathematical content of a [`TarFilter`].
pub struct FilterView {
    /// The path prefix under which the archive holds the object store.
    pub repo_prefix: Seq<char>,
    /// Paths of the object-store files kept aside, oldest first.
    pub pending: Seq<Seq<char>>,
    /// Object-store paths whose content was written elsewhere, and where.
    pub relocated: Seq<(Seq<char>, Seq<char>)>,
    /// Dropped entries, counted by the first name of their path.
    pub tally: Map<Seq<char>, nat>,
}

/// What one step makes of a state and an entry.
pub struct StepView {
    pub state: FilterView,
    pub outcome: Result<ActionView, FilterErrorView>,
}

/// Index of the first of `keys` that is the same path as `p`, or their
/// number when none is.
pub open spec fn find_path(keys: Seq<Seq<char>>, p: Seq<char>) -> int
    decreases keys.len(),
{
    if keys.len() == 0 {
        0
    } else if same_path(keys[0], p) {
        0
    } else {
        1 + find_path(keys.drop_first(), p)
    }
}

/// The object-store paths of the relocations.
pub open spec fn sources(relocated: Seq<(Seq<char>, Seq<char>)>) -> Seq<Seq<char>> {
    relocated.map_values(|r: (Seq<char>, Seq<char>)| r.0)
}

/// The relocations after the content of `from` was written at `to`: a
/// relocation of the same path is redirected, else one is added.
pub open spec fn relocate(
    relocated: Seq<(Seq<char>, Seq<char>)>,
    from: Seq<char>,
    to: Seq<char>,
) -> Seq<(Seq<char>, Seq<char>)> {
    let j = find_path(sources(relocated), from);
    if j < relocated.len() {
        relocated.update(j, (relocated[j].0, to))
    } else {
        relocated.push((from, to))
    }
}

/// The tally with one more entry under `prefix`.
pub open spec fn tallied(tally: Map<Seq<char>, nat>, prefix: Seq<char>) -> Map<Seq<char>, nat> {
    tally.insert(
        prefix,
        if tally.contains_key(prefix) {
            tally[prefix] + 1
        } else {
            1
        },
    )
}

/// How an entry is written under `path`: a hard link or a symbolic link as
/// a link to the target it names, and it must name one; anything else with
/// its body.
pub open spec fn copied(e: EntryView, path: Seq<char>) -> Result<ActionView, FilterErrorView> {
    if e.kind == EntryKind::Link || e.kind == EntryKind::Symlink {
        match e.link_target {
            Some(target) => Ok(ActionView::CopyLink { path, target }),
            None => Err(FilterErrorView::InvalidLink),
        }
    } else {
        Ok(ActionView::Copy { path })
    }
}

/// The path under which an entry is written: `path` where one is given,
/// else its own.
pub open spec fn copy_path(e: EntryView, path: Option<Seq<char>>) -> Seq<char> {
    match path {
        Some(p) => p,
        None => e.path,
    }
}

/// The decision for one entry, and the state after it.
pub open spec fn filter_step(s: FilterView, e: EntryView) -> StepView {
    let modified = e.mtime > 0;
    if path_under(e.path, s.repo_prefix) {
        if modified && e.kind == EntryKind::Regular {
            let i = find_path(s.pending, e.path);
            let pending = if i < s.pending.len() {
                s.pending
            } else {
                s.pending.push(e.path)
            };
            StepView { state: FilterView { pending, ..s }, outcome: Ok(ActionView::Spill) }
        } else {
            StepView { state: s, outcome: Ok(ActionView::Drop) }
        }
    } else if e.kind == EntryKind::Link && modified && e.link_target is None {
        StepView { state: s, outcome: Err(FilterErrorView::EmptyHardlink) }
    } else if e.kind == EntryKind::Link && modified && path_under(
        e.link_target->Some_0,
        s.repo_prefix,
    ) {
        let target = e.link_target->Some_0;
        let i = find_path(s.pending, target);
        let j = find_path(sources(s.relocated), target);
        if i < s.pending.len() {
            StepView {
                state: FilterView {
                    pending: s.pending.remove(i),
                    relocated: relocate(s.relocated, target, e.path),
                    ..s
                },
                outcome: Ok(ActionView::EmitSpilled { source: s.pending[i] }),
            }
        } else if j < s.relocated.len() {
            StepView { state: s, outcome: Ok(ActionView::Relink { target: s.relocated[j].1 }) }
        } else {
            StepView { state: s, outcome: Ok(ActionView::Drop) }
        }
    } else {
        match normalized(components_of(e.path)) {
            None => StepView { state: s, outcome: Err(FilterErrorView::InvalidPath(e.path)) },
            Some(NormalizedView::Filtered(prefix)) => StepView {
                state: FilterView { tally: tallied(s.tally, prefix), ..s },
                outcome: Ok(ActionView::Drop),
            },
            Some(NormalizedView::Normal(path)) => StepView { state: s, outcome: copied(e, path) },
        }
    }
}

/// Whatever the filter has copied from an entry whose path has a name lies
/// below `./usr`.
pub proof fn lemma_copies_lie_below_usr(s: FilterView, e: EntryView)
    requires
        well_formed_components(components_of(e.path)),
        first_normal(components_of(e.path)) < components_of(e.path).len(),
    ensures
        filter_step(s, e).outcome matches Ok(ActionView::Copy { path }) ==> has_prefix(
            path,
            "./usr"@,
        ),
        filter_step(s, e).outcome matches Ok(ActionView::CopyLink { path, .. }) ==> has_prefix(
            path,
            "./usr"@,
        ),
{
    if normalized(components_of(e.path)) matches Some(NormalizedView::Normal(_)) {
        lemma_kept_path_lies_below_usr(e.path);
    }
}

/// The tables are bounded by the entries that went through the filter: a
/// step adds at most one path to each.
pub proof fn lemma_step_adds_at_most_one(s: FilterView, e: EntryView)
    ensures
        filter_step(s, e).state.pending.len() <= s.pending.len() + 1,
        filter_step(s, e).state.relocated.len() <= s.relocated.len() + 1,
{
    match e.link_target {
        Some(target) => {
            lemma_find_path(s.pending, target);
            lemma_find_path(sources(s.relocated), target);
        },
        None => {},
    }
    lemma_find_path(s.pending, e.path);
}

/// The content of the outcome of a step.
pub open spec fn outcome_view(r: Result<FilterAction, FilterError>) -> Result<
    ActionView,
    FilterErrorView,
> {
    match r {
        Ok(a) => Ok(a@),
        Err(e) => Err(e@),
    }
}

/// No two of the keys are the same path.
pub open spec fn distinct_paths(keys: Seq<Seq<char>>) -> bool {
    forall|a: int, b: int|
        0 <= a < b < keys.len() ==> !same_path(#[trigger] keys[a], #[trigger] keys[b])
}

proof fn lemma_find_path(keys: Seq<Seq<char>>, p: Seq<char>)
    ensures
        0 <= find_path(keys, p) <= keys.len(),
        find_path(keys, p) < keys.len() ==> same_path(keys[find_path(keys, p)], p),
        forall|j: int| 0 <= j < find_path(keys, p) ==> !same_path(#[trigger] keys[j], p),
    decreases keys.len(),
{
    if keys.len() > 0 && !same_path(keys[0], p) {
        let t = keys.drop_first();
        lemma_find_path(t, p);
        assert forall|j: int| 0 <= j < find_path(keys, p) implies !same_path(
            #[trigger] keys[j],
            p,
        ) by {
            if j > 0 {
                assert(t[j - 1] == keys[j]);
            }
        }
    }
}

/// The first key that is the same path as `p` is found where no earlier one is.
proof fn lemma_find_path_at(keys: Seq<Seq<char>>, p: Seq<char>, k: int)
    requires
        0 <= k <= keys.len(),
        forall|j: int| 0 <= j < k ==> !same_path(#[trigger] keys[j], p),
        k < keys.len() ==> same_path(keys[k], p),
    ensures
        find_path(keys, p) == k,
{
    lemma_find_path(keys, p);
    let f = find_path(keys, p);
    if f < k {
        assert(same_path(keys[f], p));
    } else if f > k {
        assert(!same_path(keys[k], p));
    }
}

/// Index of the first of `keys` that is the same path as `p`, or their number.
fn position_of(keys: &Vec<String>, p: &str) -> (i: usize)
    ensures
        i == find_path(texts(keys@), p@),
        i <= keys@.len(),
{
    let ghost ks = texts(keys@);
    let n = keys.len();
    let mut i: usize = 0;
    while i < n
        invariant
            n == keys@.len(),
            ks == texts(keys@),
            i <= n,
            forall|j: int| 0 <= j < i ==> !same_path(#[trigger] ks[j], p@),
        decreases n - i,
    {
        if paths_equal(keys[i].as_str(), p) {
            proof {
                lemma_find_path_at(ks, p@, i as int);
            }
            return i;
        }
        i = i + 1;
    }
    proof {
        lemma_find_path_at(ks, p@, i as int);
    }
    i
}

/// Copy a tar entry to a new tar archive, optionally using a different
/// filesystem path: says how the entry is to be written.
pub fn copy_entry(entry: &EntryMeta, path: Option<&str>) -> (r: Result<FilterAction, FilterError>)
    ensures
        outcome_view(r) == copied(entry@, copy_path(entry@, opt_text(path))),
{
    let path = match path {
        Some(p) => String::from_str(p),
        None => entry.path.clone(),
    };
    match entry.kind {
        EntryKind::Link | EntryKind::Symlink => match &entry.link_target {
            Some(target) => Ok(FilterAction::CopyLink { path, target: target.clone() }),
            None => Err(FilterError::InvalidLink),
        },
        _ => Ok(FilterAction::Copy { path }),
    }
}

impl TarFilter {
    /// The relocations as pairs of texts.
    pub open spec fn relocation_views(relocated: Seq<Relocation>) -> Seq<(Seq<char>, Seq<char>)> {
        relocated.map_values(|r: Relocation| (r.from@, r.to@))
    }

    /// The tables and the tally.
    pub closed spec fn view(&self) -> FilterView {
        FilterView {
            repo_prefix: self.repo_prefix@,
            pending: texts(self.pending@),
            relocated: Self::relocation_views(self.relocated@),
            tally: self.tally@,
        }
    }

    /// What every filter state holds: no path is kept aside twice or
    /// relocated twice.
    pub closed spec fn wf(&self) -> bool {
        &&& self.tally.wf()
        &&& distinct_paths(self@.pending)
        &&& distinct_paths(sources(self@.relocated))
    }

    /// Whether every count of the tally can still grow.
    pub open spec fn has_room(&self) -> bool {
        forall|p: Seq<char>| #[trigger] self@.tally.contains_key(p) ==> self@.tally[p] < u32::MAX
    }

    /// The state before the first entry of an archive that holds the
    /// object store under `repo_prefix`: nothing kept aside, nothing
    /// relocated, nothing dropped.
    pub fn new(repo_prefix: &str) -> (f: TarFilter)
        ensures
            f.wf(),
            f.has_room(),
            f@.repo_prefix == repo_prefix@,
            f@.pending.len() == 0,
            f@.relocated.len() == 0,
            f@.tally == Map::<Seq<char>, nat>::empty(),
    {
        TarFilter {
            repo_prefix: String::from_str(repo_prefix),
            pending: Vec::new(),
            relocated: Vec::new(),
            tally: FilterTally::new(),
        }
    }

    /// The tally so far.
    pub fn tally(&self) -> (t: &FilterTally)
        requires
            self.wf(),
        ensures
            t.wf(),
            t@ == self@.tally,
    {
        &self.tally
    }

    /// Ends the pass and hands out the tally; the tables are dropped.
    pub fn finish(self) -> (t: FilterTally)
        requires
            self.wf(),
        ensures
            t.wf(),
            t@ == self@.tally,
    {
        self.tally
    }

    /// Whether [`TarFilter::step`] can take another entry: no count of the
    /// tally has reached the largest number it can hold.
    pub fn can_step(&self) -> (r: bool)
        requires
            self.wf(),
        ensures
            r == self.has_room(),
    {
        assert(self@.tally == self.tally@);
        self.tally.all_below_max()
    }

    /// Decides what to do with the next entry of the archive, and updates
    /// the tables and the tally.
    pub fn step(&mut self, entry: &EntryMeta) -> (r: Result<FilterAction, FilterError>)
        requires
            old(self).wf(),
            old(self).has_room(),
        ensures
            final(self).wf(),
            final(self)@ == filter_step(old(self)@, entry@).state,
            outcome_view(r) == filter_step(old(self)@, entry@).outcome,
    {
        let modified = entry.mtime > 0;
        let path = entry.path.as_str();
        if path_has_base(path, self.repo_prefix.as_str()) {
            if modified && matches!(entry.kind, EntryKind::Regular) {
                let i = position_of(&self.pending, path);
                if i >= self.pending.len() {
                    let ghost before = self.pending@;
                    proof {
                        lemma_find_path(texts(before), path@);
                    }
                    self.pending.push(entry.path.clone());
                    proof {
                        let ks = texts(self.pending@);
                        assert(ks =~= texts(before).push(path@));
                        assert forall|a: int, b: int| 0 <= a < b < ks.len() implies !same_path(
                            #[trigger] ks[a],
                            #[trigger] ks[b],
                        ) by {
                            if b == ks.len() - 1 {
                                assert(!same_path(texts(before)[a], path@));
                            } else {
                                assert(ks[a] == texts(before)[a]);
                                assert(ks[b] == texts(before)[b]);
                            }
                        }
                    }
                }
                return Ok(FilterAction::Spill);
            }
            return Ok(FilterAction::Drop);
        }
        if matches!(entry.kind, EntryKind::Link) && modified {
            let target = match &entry.link_target {
                Some(t) => t.as_str(),
                None => {
                    return Err(FilterError::EmptyHardlink);
                },
            };
            if path_has_base(target, self.repo_prefix.as_str()) {
                let i = position_of(&self.pending, target);
                if i < self.pending.len() {
                    let ghost before = texts(self.pending@);
                    let ghost rel_before = Self::relocation_views(self.relocated@);
                    proof {
                        lemma_find_path(before, target@);
                    }
                    let source = self.pending.remove(i);
                    proof {
                        let ks = texts(self.pending@);
                        assert(ks =~= before.remove(i as int));
                        assert forall|a: int, b: int| 0 <= a < b < ks.len() implies !same_path(
                            #[trigger] ks[a],
                            #[trigger] ks[b],
                        ) by {
                            let a0 = if a < i { a } else { a + 1 };
                            let b0 = if b < i { b } else { b + 1 };
                            assert(ks[a] == before[a0]);
                            assert(ks[b] == before[b0]);
                        }
                    }
                    let froms = self.relocation_sources();
                    let j = position_of(&froms, target);
                    proof {
                        lemma_find_path(sources(rel_before), target@);
                    }
                    if j < self.relocated.len() {
                        let from = self.relocated[j].from.clone();
                        self.relocated.set(j, Relocation { from, to: entry.path.clone() });
                        proof {
                            let rel = Self::relocation_views(self.relocated@);
                            assert(rel =~= rel_before.update(j as int, (rel_before[j as int].0, path@)));
                            assert(sources(rel) =~= sources(rel_before));
                        }
                    } else {
                        self.relocated.push(
                            Relocation { from: String::from_str(target), to: entry.path.clone() },
                        );
                        proof {
                            let rel = Self::relocation_views(self.relocated@);
                            assert(rel =~= rel_before.push((target@, path@)));
                            let ks = sources(rel);
                            assert(ks =~= sources(rel_before).push(target@));
                            assert forall|a: int, b: int|
                                0 <= a < b < ks.len() implies !same_path(
                                #[trigger] ks[a],
                                #[trigger] ks[b],
                            ) by {
                                if b == ks.len() - 1 {
                                    assert(!same_path(sources(rel_before)[a], target@));
                                } else {
                                    assert(ks[a] == sources(rel_before)[a]);
                                    assert(ks[b] == sources(rel_before)[b]);
                                }
                            }
                        }
                    }
                    return Ok(FilterAction::EmitSpilled { source });
                }
                let froms = self.relocation_sources();
                let j = position_of(&froms, target);
                if j < self.relocated.len() {
                    return Ok(FilterAction::Relink { target: self.relocated[j].to.clone() });
                }
                return Ok(FilterAction::Drop);
            }
        }
        match normalize_validate_path(path) {
            Err(e) => Err(FilterError::InvalidPath(e.path)),
            Ok(NormalizedPathResult::Filtered(prefix)) => {
                self.tally.record(prefix.as_str());
                Ok(FilterAction::Drop)
            },
            Ok(NormalizedPathResult::Normal(p)) => copy_entry(entry, Some(p.as_str())),
        }
    }

    /// The object-store paths of the relocations, in their order.
    fn relocation_sources(&self) -> (froms: Vec<String>)
        ensures
            texts(froms@) == sources(Self::relocation_views(self.relocated@)),
    {
        let mut froms: Vec<String> = Vec::new();
        let n = self.relocated.len();
        let mut i: usize = 0;
        while i < n
            invariant
                n == self.relocated@.len(),
                i <= n,
                froms@.len() == i,
                forall|j: int| 0 <= j < i ==> (#[trigger] froms@[j])@ == self.relocated@[j].from@,
            decreases n - i,
        {
            froms.push(self.relocated[i].from.clone());
            i = i + 1;
        }
        assert(texts(froms@) =~= sources(Self::relocation_views(self.relocated@)));
        froms
    }
}

} // verus!
