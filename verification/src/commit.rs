//! Preparing a root filesystem for a commit: the directories that only hold
//! state of a running system are emptied, empty directories below `/var` are
//! removed, and files below `/var` are found and reported.
//!
//! The sweep works on a picture of the filesystem, a tree of directory
//! entries with the device of each. It says what is left of the tree and
//! which removals lead there, in the order in which they are to be made.

use crate::failure::ErrorKind;
use crate::text::{str_eq, texts};
use vstd::prelude::*;

verus! {

/// What a directory entry is.
#[derive(Debug, PartialEq, Eq)]
pub enum Node {
    /// Anything but a directory.
    File,
    /// A directory, with its entries.
    Dir(Vec<DirEntry>),
}

/// An entry of a directory.
#[derive(Debug, PartialEq, Eq)]
pub struct DirEntry {
    /// The name of the entry in its directory.
    pub name: String,
    /// The device that holds the entry.
    pub dev: u64,
    /// Whether something is mounted on the entry.
    pub mount_point: bool,
    /// What the entry is.
    pub node: Node,
}

/// The mathematical content of a [`Node`].
pub enum NodeView {
    File,
    Dir(Seq<EntryView>),
}

/// The mathematical content of a [`DirEntry`].
pub struct EntryView {
    pub name: Seq<char>,
    pub dev: u64,
    pub mount_point: bool,
    pub node: NodeView,
}

/// The content of an entry.
pub open spec fn entry_view(e: DirEntry) -> EntryView
    decreases e,
{
    EntryView {
        name: e.name@,
        dev: e.dev,
        mount_point: e.mount_point,
        node: match e.node {
            Node::File => NodeView::File,
            Node::Dir(entries) => NodeView::Dir(entry_views(entries@)),
        },
    }
}

/// The contents of a sequence of entries.
pub open spec fn entry_views(entries: Seq<DirEntry>) -> Seq<EntryView>
    decreases entries,
{
    if entries.len() == 0 {
        Seq::empty()
    } else {
        entry_views(entries.drop_last()).push(entry_view(entries.last()))
    }
}

impl View for DirEntry {
    type V = EntryView;

    open spec fn view(&self) -> EntryView {
        entry_view(*self)
    }
}

/// The contents of a sequence of entries are those of each entry, in order.
pub proof fn lemma_entry_views(entries: Seq<DirEntry>)
    ensures
        entry_views(entries).len() == entries.len(),
        forall|i: int| 0 <= i < entries.len() ==> #[trigger] entry_views(entries)[i] == entries[i]@,
    decreases entries.len(),
{
    if entries.len() > 0 {
        lemma_entry_views(entries.drop_last());
    }
}

/// The contents of entries with one more at the end.
pub proof fn lemma_entry_views_push(entries: Seq<DirEntry>, e: DirEntry)
    ensures
        entry_views(entries.push(e)) == entry_views(entries).push(e@),
{
    assert(entries.push(e).drop_last() =~= entries);
}

/// A removal of one path.
#[derive(Debug, Clone, PartialEq, Eq)]
pub struct Removal {
    /// The path to remove, relative to the root.
    pub path: String,
    /// Whether the path is a directory, empty by the time of its removal.
    pub dir: bool,
}

/// The mathematical content of a [`Removal`].
pub struct RemovalView {
    pub path: Seq<char>,
    pub dir: bool,
}

impl View for Removal {
    type V = RemovalView;

    open spec fn view(&self) -> RemovalView {
        RemovalView { path: self.path@, dir: self.dir }
    }
}

/// The contents of a sequence of removals.
pub open spec fn removal_views(removals: Seq<Removal>) -> Seq<RemovalView> {
    removals.map_values(|r: Removal| r@)
}

/// The path of an entry `name` of the directory at `parent`; the empty
/// path stands for the directory that paths are relative to.
pub open spec fn child_path(parent: Seq<char>, name: Seq<char>) -> Seq<char> {
    if parent.len() == 0 {
        name
    } else {
        parent + "/"@ + name
    }
}

/// The path of an entry `name` of the directory at `parent`.
fn join_path(parent: &str, name: &str) -> (p: String)
    ensures
        p@ == child_path(parent@, name@),
{
    if parent.unicode_len() == 0 {
        String::from_str(name)
    } else {
        String::from_str(parent).concat("/").concat(name)
    }
}

/// Whether an entry is out of reach of a removal on the device `rootdev`:
/// it lies on another device, or something is mounted on it.
pub open spec fn skipped(e: EntryView, rootdev: u64) -> bool {
    e.dev != rootdev || e.mount_point
}

/// What is left of the entries of a directory once everything on the device
/// `rootdev` is removed from it that can be: entries on other devices and
/// mount points stay, and so does a directory that still holds something.
pub open spec fn cleared(entries: Seq<EntryView>, rootdev: u64) -> Seq<EntryView>
    decreases entries,
{
    if entries.len() == 0 {
        Seq::empty()
    } else {
        let init = cleared(entries.drop_last(), rootdev);
        let e = entries.last();
        if skipped(e, rootdev) {
            init.push(e)
        } else {
            match e.node {
                NodeView::File => init,
                NodeView::Dir(below) => {
                    let rest = cleared(below, rootdev);
                    if rest.len() == 0 {
                        init
                    } else {
                        init.push(EntryView { node: NodeView::Dir(rest), ..e })
                    }
                },
            }
        }
    }
}

/// The removals that clear the entries of the directory at `path`, in
/// order: what a directory holds goes before the directory.
pub open spec fn clearing(entries: Seq<EntryView>, rootdev: u64, path: Seq<char>) -> Seq<
    RemovalView,
>
    decreases entries, 0int,
{
    if entries.len() == 0 {
        Seq::empty()
    } else {
        let init = clearing(entries.drop_last(), rootdev, path);
        let e = entries.last();
        let at = child_path(path, e.name);
        if skipped(e, rootdev) {
            init
        } else {
            match e.node {
                NodeView::File => init.push(RemovalView { path: at, dir: false }),
                NodeView::Dir(below) => init + removing(below, rootdev, at),
            }
        }
    }
}

/// The removals that take the directory at `path` away as far as its
/// device allows: those that clear its entries, and then its own where
/// nothing is left in it.
pub open spec fn removing(entries: Seq<EntryView>, rootdev: u64, path: Seq<char>) -> Seq<
    RemovalView,
>
    decreases entries, 1int,
{
    let inner = clearing(entries, rootdev, path);
    if cleared(entries, rootdev).len() == 0 {
        inner.push(RemovalView { path, dir: true })
    } else {
        inner
    }
}

impl DirEntry {
    /// A copy of this entry and of all that is below it.
    pub fn duplicate(&self) -> (e: DirEntry)
        ensures
            e@ == self@,
        decreases self,
    {
        let node = match &self.node {
            Node::File => Node::File,
            Node::Dir(entries) => Node::Dir(duplicate_entries(entries)),
        };
        DirEntry { name: self.name.clone(), dev: self.dev, mount_point: self.mount_point, node }
    }
}

/// A copy of the entries and of all that is below them.
pub fn duplicate_entries(entries: &Vec<DirEntry>) -> (out: Vec<DirEntry>)
    ensures
        entry_views(out@) == entry_views(entries@),
    decreases entries,
{
    let mut out: Vec<DirEntry> = Vec::new();
    let n = entries.len();
    let mut i: usize = 0;
    while i < n
        invariant
            n == entries@.len(),
            i <= n,
            entry_views(out@) == entry_views(entries@.take(i as int)),
        decreases n - i,
    {
        let ghost before = out@;
        let e = entries[i].duplicate();
        out.push(e);
        proof {
            lemma_entry_views_push(before, e);
            lemma_entry_views_push(entries@.take(i as int), entries@[i as int]);
            assert(entries@.take(i as int).push(entries@[i as int]) =~= entries@.take(i + 1));
        }
        i = i + 1;
    }
    assert(entries@.take(n as int) =~= entries@);
    out
}

/// Adds a removal to the removals made so far.
fn push_removal(removals: &mut Vec<Removal>, path: String, dir: bool)
    ensures
        removal_views(final(removals)@) == removal_views(old(removals)@).push(
            RemovalView { path: path@, dir },
        ),
{
    removals.push(Removal { path, dir });
    assert(removal_views(removals@) =~= removal_views(old(removals)@).push(
        RemovalView { path: path@, dir },
    ));
}

/// Empties the directory at `path`, whose entries are `entries`, as far as
/// it lies on the device `rootdev` and nothing is mounted in it: what lies
/// on another device or is a mount point stays, and with it the directories
/// above it. Says what is left of the entries.
pub fn clean_subdir(entries: &Vec<DirEntry>, rootdev: u64, path: &str, removals: &mut Vec<Removal>) -> (remaining:
    Vec<DirEntry>)
    ensures
        entry_views(remaining@) == cleared(entry_views(entries@), rootdev),
        removal_views(final(removals)@) == removal_views(old(removals)@) + clearing(
            entry_views(entries@),
            rootdev,
            path@,
        ),
    decreases entries, 0int,
{
    let ghost ev = entry_views(entries@);
    let ghost start = removal_views(removals@);
    let mut remaining: Vec<DirEntry> = Vec::new();
    let n = entries.len();
    let mut i: usize = 0;
    proof {
        lemma_entry_views(entries@);
        assert(ev.take(0) =~= Seq::<EntryView>::empty());
        assert(start + clearing(ev.take(0), rootdev, path@) =~= start);
    }
    while i < n
        invariant
            n == entries@.len(),
            ev == entry_views(entries@),
            ev.len() == n,
            forall|j: int| 0 <= j < n ==> #[trigger] ev[j] == entries@[j]@,
            i <= n,
            entry_views(remaining@) == cleared(ev.take(i as int), rootdev),
            removal_views(removals@) == start + clearing(ev.take(i as int), rootdev, path@),
        decreases n - i,
    {
        let entry = &entries[i];
        let ghost e = ev[i as int];
        let ghost kept = remaining@;
        proof {
            assert(ev.take(i + 1).drop_last() =~= ev.take(i as int));
            assert(ev.take(i + 1).last() == e);
            assert(e == entry@);
        }
        if entry.dev != rootdev || entry.mount_point {
            let copy = entry.duplicate();
            remaining.push(copy);
            proof {
                lemma_entry_views_push(kept, copy);
            }
        } else {
            let at = join_path(path, entry.name.as_str());
            match &entry.node {
                Node::File => {
                    push_removal(removals, at, false);
                },
                Node::Dir(below) => {
                    let rest = remove_all_on_mount_recurse(below, rootdev, at.as_str(), removals);
                    proof {
                        assert(removal_views(removals@) =~= start + (clearing(
                            ev.take(i as int),
                            rootdev,
                            path@,
                        ) + removing(entry_views(below@), rootdev, at@)));
                        lemma_entry_views(rest@);
                    }
                    if rest.len() > 0 {
                        let copy = DirEntry {
                            name: entry.name.clone(),
                            dev: entry.dev,
                            mount_point: entry.mount_point,
                            node: Node::Dir(rest),
                        };
                        remaining.push(copy);
                        proof {
                            lemma_entry_views_push(kept, copy);
                        }
                    }
                },
            }
        }
        i = i + 1;
    }
    proof {
        assert(ev.take(n as int) =~= ev);
    }
    remaining
}

/// Removes the directory at `path` with all that it holds, but does not go
/// onto other devices or across mount points. Says what is left of the
/// entries of the directory; where nothing is, the directory itself is
/// removed.
pub fn remove_all_on_mount_recurse(
    entries: &Vec<DirEntry>,
    rootdev: u64,
    path: &str,
    removals: &mut Vec<Removal>,
) -> (remaining: Vec<DirEntry>)
    ensures
        entry_views(remaining@) == cleared(entry_views(entries@), rootdev),
        removal_views(final(removals)@) == removal_views(old(removals)@) + removing(
            entry_views(entries@),
            rootdev,
            path@,
        ),
    decreases entries, 1int,
{
    let remaining = clean_subdir(entries, rootdev, path, removals);
    proof {
        lemma_entry_views(remaining@);
    }
    if remaining.len() == 0 {
        let ghost done = removal_views(removals@);
        push_removal(removals, String::from_str(path), true);
        proof {
            assert(done.push(RemovalView { path: path@, dir: true }) =~= removal_views(
                old(removals)@,
            ) + clearing(entry_views(entries@), rootdev, path@).push(
                RemovalView { path: path@, dir: true },
            ));
        }
    }
    remaining
}

/// Whether an entry is a directory of the given name on the given device.
pub open spec fn is_dir_named(e: EntryView, rootdev: u64, name: Seq<char>) -> bool {
    e.name == name && e.dev == rootdev && e.node is Dir
}

/// The entries of the directory at `path` after its directory `name` was
/// emptied, where it has one on the device `rootdev`.
pub open spec fn cleaned_in(entries: Seq<EntryView>, rootdev: u64, name: Seq<char>) -> Seq<
    EntryView,
>
    decreases entries.len(),
{
    if entries.len() == 0 {
        Seq::empty()
    } else {
        let init = cleaned_in(entries.drop_last(), rootdev, name);
        let e = entries.last();
        if is_dir_named(e, rootdev, name) {
            init.push(EntryView { node: NodeView::Dir(cleared(e.node->Dir_0, rootdev)), ..e })
        } else {
            init.push(e)
        }
    }
}

/// The removals that empty the directory `name` of the directory at `path`.
pub open spec fn cleaning_in(
    entries: Seq<EntryView>,
    rootdev: u64,
    path: Seq<char>,
    name: Seq<char>,
) -> Seq<RemovalView>
    decreases entries.len(),
{
    if entries.len() == 0 {
        Seq::empty()
    } else {
        let init = cleaning_in(entries.drop_last(), rootdev, path, name);
        let e = entries.last();
        if is_dir_named(e, rootdev, name) {
            init + clearing(e.node->Dir_0, rootdev, child_path(path, name))
        } else {
            init
        }
    }
}

/// Empties the directory `name` of the directory at `path`, where it has
/// one on the device `rootdev`.
fn clean_named(
    entries: &Vec<DirEntry>,
    rootdev: u64,
    path: &str,
    name: &str,
    removals: &mut Vec<Removal>,
) -> (out: Vec<DirEntry>)
    ensures
        entry_views(out@) == cleaned_in(entry_views(entries@), rootdev, name@),
        removal_views(final(removals)@) == removal_views(old(removals)@) + cleaning_in(
            entry_views(entries@),
            rootdev,
            path@,
            name@,
        ),
{
    let ghost ev = entry_views(entries@);
    let ghost start = removal_views(removals@);
    let mut out: Vec<DirEntry> = Vec::new();
    let n = entries.len();
    let mut i: usize = 0;
    proof {
        lemma_entry_views(entries@);
        assert(ev.take(0) =~= Seq::<EntryView>::empty());
        assert(start + cleaning_in(ev.take(0), rootdev, path@, name@) =~= start);
    }
    while i < n
        invariant
            n == entries@.len(),
            ev == entry_views(entries@),
            ev.len() == n,
            forall|j: int| 0 <= j < n ==> #[trigger] ev[j] == entries@[j]@,
            i <= n,
            entry_views(out@) == cleaned_in(ev.take(i as int), rootdev, name@),
            removal_views(removals@) == start + cleaning_in(
                ev.take(i as int),
                rootdev,
                path@,
                name@,
            ),
        decreases n - i,
    {
        let entry = &entries[i];
        let ghost e = ev[i as int];
        let ghost kept = out@;
        proof {
            assert(ev.take(i + 1).drop_last() =~= ev.take(i as int));
            assert(ev.take(i + 1).last() == e);
            assert(e == entry@);
        }
        let mut copy: Option<DirEntry> = None;
        if entry.dev == rootdev && str_eq(entry.name.as_str(), name) {
            if let Node::Dir(below) = &entry.node {
                let at = join_path(path, name);
                let rest = clean_subdir(below, rootdev, at.as_str(), removals);
                proof {
                    assert(removal_views(removals@) =~= start + (cleaning_in(
                        ev.take(i as int),
                        rootdev,
                        path@,
                        name@,
                    ) + clearing(entry_views(below@), rootdev, at@)));
                }
                copy = Some(
                    DirEntry {
                        name: entry.name.clone(),
                        dev: entry.dev,
                        mount_point: entry.mount_point,
                        node: Node::Dir(rest),
                    },
                );
            }
        }
        let copy = match copy {
            Some(c) => c,
            None => entry.duplicate(),
        };
        out.push(copy);
        proof {
            lemma_entry_views_push(kept, copy);
        }
        i = i + 1;
    }
    proof {
        assert(ev.take(n as int) =~= ev);
    }
    out
}

/// The entries of a directory after the directory `name` of its directory
/// `dir` was emptied, where both are there on the device `rootdev`.
pub open spec fn cleaned_below(
    entries: Seq<EntryView>,
    rootdev: u64,
    dir: Seq<char>,
    name: Seq<char>,
) -> Seq<EntryView>
    decreases entries.len(),
{
    if entries.len() == 0 {
        Seq::empty()
    } else {
        let init = cleaned_below(entries.drop_last(), rootdev, dir, name);
        let e = entries.last();
        if is_dir_named(e, rootdev, dir) {
            init.push(
                EntryView { node: NodeView::Dir(cleaned_in(e.node->Dir_0, rootdev, name)), ..e },
            )
        } else {
            init.push(e)
        }
    }
}

/// The removals that empty the directory `name` of the directory `dir`.
pub open spec fn cleaning_below(
    entries: Seq<EntryView>,
    rootdev: u64,
    dir: Seq<char>,
    name: Seq<char>,
) -> Seq<RemovalView>
    decreases entries.len(),
{
    if entries.len() == 0 {
        Seq::empty()
    } else {
        let init = cleaning_below(entries.drop_last(), rootdev, dir, name);
        let e = entries.last();
        if is_dir_named(e, rootdev, dir) {
            init + cleaning_in(e.node->Dir_0, rootdev, dir, name)
        } else {
            init
        }
    }
}

/// Empties the directory `name` of the directory `dir`, where both are
/// there on the device `rootdev`.
fn clean_nested(
    entries: &Vec<DirEntry>,
    rootdev: u64,
    dir: &str,
    name: &str,
    removals: &mut Vec<Removal>,
) -> (out: Vec<DirEntry>)
    ensures
        entry_views(out@) == cleaned_below(entry_views(entries@), rootdev, dir@, name@),
        removal_views(final(removals)@) == removal_views(old(removals)@) + cleaning_below(
            entry_views(entries@),
            rootdev,
            dir@,
            name@,
        ),
{
    let ghost ev = entry_views(entries@);
    let ghost start = removal_views(removals@);
    let mut out: Vec<DirEntry> = Vec::new();
    let n = entries.len();
    let mut i: usize = 0;
    proof {
        lemma_entry_views(entries@);
        assert(ev.take(0) =~= Seq::<EntryView>::empty());
        assert(start + cleaning_below(ev.take(0), rootdev, dir@, name@) =~= start);
    }
    while i < n
        invariant
            n == entries@.len(),
            ev == entry_views(entries@),
            ev.len() == n,
            forall|j: int| 0 <= j < n ==> #[trigger] ev[j] == entries@[j]@,
            i <= n,
            entry_views(out@) == cleaned_below(ev.take(i as int), rootdev, dir@, name@),
            removal_views(removals@) == start + cleaning_below(
                ev.take(i as int),
                rootdev,
                dir@,
                name@,
            ),
        decreases n - i,
    {
        let entry = &entries[i];
        let ghost e = ev[i as int];
        let ghost kept = out@;
        proof {
            assert(ev.take(i + 1).drop_last() =~= ev.take(i as int));
            assert(ev.take(i + 1).last() == e);
            assert(e == entry@);
        }
        let mut copy: Option<DirEntry> = None;
        if entry.dev == rootdev && str_eq(entry.name.as_str(), dir) {
            if let Node::Dir(below) = &entry.node {
                let rest = clean_named(below, rootdev, dir, name, removals);
                proof {
                    assert(removal_views(removals@) =~= start + (cleaning_below(
                        ev.take(i as int),
                        rootdev,
                        dir@,
                        name@,
                    ) + cleaning_in(entry_views(below@), rootdev, dir@, name@)));
                }
                copy = Some(
                    DirEntry {
                        name: entry.name.clone(),
                        dev: entry.dev,
                        mount_point: entry.mount_point,
                        node: Node::Dir(rest),
                    },
                );
            }
        }
        let copy = match copy {
            Some(c) => c,
            None => entry.duplicate(),
        };
        out.push(copy);
        proof {
            lemma_entry_views_push(kept, copy);
        }
        i = i + 1;
    }
    proof {
        assert(ev.take(n as int) =~= ev);
    }
    out
}

/// The entries of a root directory after `run`, `tmp`, `var/tmp` and
/// `var/cache` were emptied, in this order.
pub open spec fn force_cleaned(entries: Seq<EntryView>, rootdev: u64) -> Seq<EntryView> {
    let a = cleaned_in(entries, rootdev, "run"@);
    let b = cleaned_in(a, rootdev, "tmp"@);
    let c = cleaned_below(b, rootdev, "var"@, "tmp"@);
    cleaned_below(c, rootdev, "var"@, "cache"@)
}

/// The removals that empty `run`, `tmp`, `var/tmp` and `var/cache`.
pub open spec fn force_cleaning(entries: Seq<EntryView>, rootdev: u64) -> Seq<RemovalView> {
    let a = cleaned_in(entries, rootdev, "run"@);
    let b = cleaned_in(a, rootdev, "tmp"@);
    let c = cleaned_below(b, rootdev, "var"@, "tmp"@);
    cleaning_in(entries, rootdev, ""@, "run"@) + cleaning_in(a, rootdev, ""@, "tmp"@)
        + cleaning_below(b, rootdev, "var"@, "tmp"@) + cleaning_below(c, rootdev, "var"@, "cache"@)
}

/// Empties the directories that are always emptied: `run`, `tmp`, `var/tmp`
/// and `var/cache`, each where it is a directory on the device `rootdev`.
pub fn clean_paths_in(entries: &Vec<DirEntry>, rootdev: u64, removals: &mut Vec<Removal>) -> (out:
    Vec<DirEntry>)
    ensures
        entry_views(out@) == force_cleaned(entry_views(entries@), rootdev),
        removal_views(final(removals)@) == removal_views(old(removals)@) + force_cleaning(
            entry_views(entries@),
            rootdev,
        ),
{
    let ghost start = removal_views(removals@);
    let ghost ev = entry_views(entries@);
    let a = clean_named(entries, rootdev, "", "run", removals);
    let b = clean_named(&a, rootdev, "", "tmp", removals);
    let c = clean_nested(&b, rootdev, "var", "tmp", removals);
    let d = clean_nested(&c, rootdev, "var", "cache", removals);
    proof {
        let av = cleaned_in(ev, rootdev, "run"@);
        let bv = cleaned_in(av, rootdev, "tmp"@);
        let cv = cleaned_below(bv, rootdev, "var"@, "tmp"@);
        assert(removal_views(removals@) =~= start + (cleaning_in(ev, rootdev, ""@, "run"@)
            + cleaning_in(av, rootdev, ""@, "tmp"@) + cleaning_below(bv, rootdev, "var"@, "tmp"@)
            + cleaning_below(cv, rootdev, "var"@, "cache"@)));
    }
    d
}

/// The most files that are reported.
pub const REPORT_LIMIT: usize = 20;

/// The first [`REPORT_LIMIT`] of the paths.
pub open spec fn capped(paths: Seq<Seq<char>>) -> Seq<Seq<char>> {
    if paths.len() <= REPORT_LIMIT {
        paths
    } else {
        paths.take(REPORT_LIMIT as int)
    }
}

/// The paths of the files on the device `rootdev` below the directory at
/// `path`, in the order of the walk.
pub open spec fn var_files(entries: Seq<EntryView>, rootdev: u64, path: Seq<char>) -> Seq<
    Seq<char>,
>
    decreases entries,
{
    if entries.len() == 0 {
        Seq::empty()
    } else {
        let init = var_files(entries.drop_last(), rootdev, path);
        let e = entries.last();
        let at = child_path(path, e.name);
        if e.dev != rootdev {
            init
        } else {
            match e.node {
                NodeView::File => init.push(at),
                NodeView::Dir(below) => init + var_files(below, rootdev, at),
            }
        }
    }
}

/// Whether the directory at `path` below `/var` goes once the walk has
/// left it with the entries `rest`: it does where it is empty, unless it is
/// `/var/tmp`.
pub open spec fn var_dir_goes(rest: Seq<EntryView>, path: Seq<char>) -> bool {
    rest.len() == 0 && path != "var/tmp"@
}

/// What is left of the entries of the directory at `path` below `/var`
/// after the walk: directories that end the walk empty are gone.
pub open spec fn var_kept(entries: Seq<EntryView>, rootdev: u64, path: Seq<char>) -> Seq<
    EntryView,
>
    decreases entries,
{
    if entries.len() == 0 {
        Seq::empty()
    } else {
        let init = var_kept(entries.drop_last(), rootdev, path);
        let e = entries.last();
        let at = child_path(path, e.name);
        if e.dev != rootdev {
            init.push(e)
        } else {
            match e.node {
                NodeView::File => init.push(e),
                NodeView::Dir(below) => {
                    let rest = var_kept(below, rootdev, at);
                    if var_dir_goes(rest, at) {
                        init
                    } else {
                        init.push(EntryView { node: NodeView::Dir(rest), ..e })
                    }
                },
            }
        }
    }
}

/// The removals of the walk below `/var`, in order.
pub open spec fn var_removing(entries: Seq<EntryView>, rootdev: u64, path: Seq<char>) -> Seq<
    RemovalView,
>
    decreases entries,
{
    if entries.len() == 0 {
        Seq::empty()
    } else {
        let init = var_removing(entries.drop_last(), rootdev, path);
        let e = entries.last();
        let at = child_path(path, e.name);
        if e.dev != rootdev {
            init
        } else {
            match e.node {
                NodeView::File => init,
                NodeView::Dir(below) => {
                    let inner = init + var_removing(below, rootdev, at);
                    if var_dir_goes(var_kept(below, rootdev, at), at) {
                        inner.push(RemovalView { path: at, dir: true })
                    } else {
                        inner
                    }
                },
            }
        }
    }
}

/// Taking the first few of a list that was cut to its first few before
/// more was added gives the first few of the whole.
proof fn lemma_capped(a: Seq<Seq<char>>, b: Seq<Seq<char>>)
    ensures
        capped(capped(a) + b) == capped(a + b),
{
    if a.len() <= REPORT_LIMIT {
    } else {
        assert(capped(capped(a) + b) =~= a.take(REPORT_LIMIT as int));
        assert(capped(a + b) =~= a.take(REPORT_LIMIT as int));
    }
}

/// Reports one more file, unless enough were reported.
fn report_file(found: &mut Vec<String>, path: String)
    requires
        old(found)@.len() <= REPORT_LIMIT,
    ensures
        final(found)@.len() <= REPORT_LIMIT,
        texts(final(found)@) == capped(texts(old(found)@).push(path@)),
{
    if found.len() < REPORT_LIMIT {
        found.push(path);
        assert(texts(found@) =~= texts(old(found)@).push(path@));
    } else {
        assert(capped(texts(found@).push(path@)) =~= texts(found@));
    }
}

/// Walks the directory at `path` below `/var`, whose entries are `entries`:
/// finds the files on the device `rootdev`, and removes the directories
/// that end the walk empty, except `/var/tmp`. Says what is left of the
/// entries and whether no file was found.
pub fn process_vardir_recurse(
    entries: &Vec<DirEntry>,
    rootdev: u64,
    path: &str,
    found: &mut Vec<String>,
    removals: &mut Vec<Removal>,
) -> (r: (Vec<DirEntry>, bool))
    requires
        old(found)@.len() <= REPORT_LIMIT,
    ensures
        final(found)@.len() <= REPORT_LIMIT,
        entry_views(r.0@) == var_kept(entry_views(entries@), rootdev, path@),
        r.1 == (var_files(entry_views(entries@), rootdev, path@).len() == 0),
        texts(final(found)@) == capped(
            texts(old(found)@) + var_files(entry_views(entries@), rootdev, path@),
        ),
        removal_views(final(removals)@) == removal_views(old(removals)@) + var_removing(
            entry_views(entries@),
            rootdev,
            path@,
        ),
    decreases entries,
{
    let ghost ev = entry_views(entries@);
    let ghost start = removal_views(removals@);
    let ghost seen = texts(found@);
    let mut kept: Vec<DirEntry> = Vec::new();
    let mut validated = true;
    let n = entries.len();
    let mut i: usize = 0;
    proof {
        lemma_entry_views(entries@);
        assert(ev.take(0) =~= Seq::<EntryView>::empty());
        assert(start + var_removing(ev.take(0), rootdev, path@) =~= start);
        assert(seen + var_files(ev.take(0), rootdev, path@) =~= seen);
    }
    while i < n
        invariant
            n == entries@.len(),
            ev == entry_views(entries@),
            ev.len() == n,
            forall|j: int| 0 <= j < n ==> #[trigger] ev[j] == entries@[j]@,
            i <= n,
            seen.len() <= REPORT_LIMIT,
            found@.len() <= REPORT_LIMIT,
            entry_views(kept@) == var_kept(ev.take(i as int), rootdev, path@),
            validated == (var_files(ev.take(i as int), rootdev, path@).len() == 0),
            texts(found@) == capped(seen + var_files(ev.take(i as int), rootdev, path@)),
            removal_views(removals@) == start + var_removing(ev.take(i as int), rootdev, path@),
        decreases n - i,
    {
        let entry = &entries[i];
        let ghost e = ev[i as int];
        let ghost before = kept@;
        let ghost files = var_files(ev.take(i as int), rootdev, path@);
        proof {
            assert(ev.take(i + 1).drop_last() =~= ev.take(i as int));
            assert(ev.take(i + 1).last() == e);
            assert(e == entry@);
        }
        if entry.dev != rootdev {
            let copy = entry.duplicate();
            kept.push(copy);
            proof {
                lemma_entry_views_push(before, copy);
            }
        } else {
            let at = join_path(path, entry.name.as_str());
            match &entry.node {
                Node::File => {
                    validated = false;
                    report_file(found, at);
                    let copy = entry.duplicate();
                    kept.push(copy);
                    proof {
                        lemma_entry_views_push(before, copy);
                        lemma_capped(seen + files, seq![at@]);
                        assert((seen + files).push(at@) =~= seen + files.push(at@));
                        assert(seen + files + seq![at@] =~= seen + files.push(at@));
                    }
                },
                Node::Dir(below) => {
                    let (rest, clean) = process_vardir_recurse(
                        below,
                        rootdev,
                        at.as_str(),
                        found,
                        removals,
                    );
                    let ghost inner = var_files(entry_views(below@), rootdev, at@);
                    proof {
                        lemma_capped(seen + files, inner);
                        assert(seen + files + inner =~= seen + (files + inner));
                        assert(removal_views(removals@) =~= start + (var_removing(
                            ev.take(i as int),
                            rootdev,
                            path@,
                        ) + var_removing(entry_views(below@), rootdev, at@)));
                        lemma_entry_views(rest@);
                    }
                    if !clean {
                        validated = false;
                    }
                    if rest.len() == 0 && !str_eq(at.as_str(), "var/tmp") {
                        let ghost done = removal_views(removals@);
                        push_removal(removals, at, true);
                        proof {
                            assert(done.push(RemovalView { path: at@, dir: true }) =~= start + (
                            var_removing(ev.take(i as int), rootdev, path@) + var_removing(
                                entry_views(below@),
                                rootdev,
                                at@,
                            )).push(RemovalView { path: at@, dir: true }));
                        }
                    } else {
                        let copy = DirEntry {
                            name: entry.name.clone(),
                            dev: entry.dev,
                            mount_point: entry.mount_point,
                            node: Node::Dir(rest),
                        };
                        kept.push(copy);
                        proof {
                            lemma_entry_views_push(before, copy);
                        }
                    }
                },
            }
        }
        i = i + 1;
    }
    proof {
        assert(ev.take(n as int) =~= ev);
    }
    (kept, validated)
}

/// Whether an entry is a directory named `var`.
pub open spec fn is_var(e: EntryView) -> bool {
    e.name == "var"@ && e.node is Dir
}

/// The entries of a root directory after the walk below `/var`.
pub open spec fn var_swept(entries: Seq<EntryView>, rootdev: u64) -> Seq<EntryView>
    decreases entries.len(),
{
    if entries.len() == 0 {
        Seq::empty()
    } else {
        let init = var_swept(entries.drop_last(), rootdev);
        let e = entries.last();
        if is_var(e) {
            init.push(
                EntryView { node: NodeView::Dir(var_kept(e.node->Dir_0, rootdev, "var"@)), ..e },
            )
        } else {
            init.push(e)
        }
    }
}

/// The paths of the files below `/var` on the device `rootdev`.
pub open spec fn var_found(entries: Seq<EntryView>, rootdev: u64) -> Seq<Seq<char>>
    decreases entries.len(),
{
    if entries.len() == 0 {
        Seq::empty()
    } else {
        let init = var_found(entries.drop_last(), rootdev);
        let e = entries.last();
        if is_var(e) {
            init + var_files(e.node->Dir_0, rootdev, "var"@)
        } else {
            init
        }
    }
}

/// The removals of the walk below `/var` of a root directory.
pub open spec fn var_sweeping(entries: Seq<EntryView>, rootdev: u64) -> Seq<RemovalView>
    decreases entries.len(),
{
    if entries.len() == 0 {
        Seq::empty()
    } else {
        let init = var_sweeping(entries.drop_last(), rootdev);
        let e = entries.last();
        if is_var(e) {
            init + var_removing(e.node->Dir_0, rootdev, "var"@)
        } else {
            init
        }
    }
}

/// Walks `/var`, where the root directory has it: finds the files on the
/// device `rootdev` and removes the directories that end the walk empty.
/// Says what is left of the entries of the root directory and whether no
/// file was found.
pub fn process_var(
    entries: &Vec<DirEntry>,
    rootdev: u64,
    found: &mut Vec<String>,
    removals: &mut Vec<Removal>,
) -> (r: (Vec<DirEntry>, bool))
    requires
        old(found)@.len() <= REPORT_LIMIT,
    ensures
        final(found)@.len() <= REPORT_LIMIT,
        entry_views(r.0@) == var_swept(entry_views(entries@), rootdev),
        r.1 == (var_found(entry_views(entries@), rootdev).len() == 0),
        texts(final(found)@) == capped(
            texts(old(found)@) + var_found(entry_views(entries@), rootdev),
        ),
        removal_views(final(removals)@) == removal_views(old(removals)@) + var_sweeping(
            entry_views(entries@),
            rootdev,
        ),
{
    let ghost ev = entry_views(entries@);
    let ghost start = removal_views(removals@);
    let ghost seen = texts(found@);
    let mut out: Vec<DirEntry> = Vec::new();
    let mut validated = true;
    let n = entries.len();
    let mut i: usize = 0;
    proof {
        lemma_entry_views(entries@);
        assert(ev.take(0) =~= Seq::<EntryView>::empty());
        assert(start + var_sweeping(ev.take(0), rootdev) =~= start);
        assert(seen + var_found(ev.take(0), rootdev) =~= seen);
    }
    while i < n
        invariant
            n == entries@.len(),
            ev == entry_views(entries@),
            ev.len() == n,
            forall|j: int| 0 <= j < n ==> #[trigger] ev[j] == entries@[j]@,
            i <= n,
            seen.len() <= REPORT_LIMIT,
            found@.len() <= REPORT_LIMIT,
            entry_views(out@) == var_swept(ev.take(i as int), rootdev),
            validated == (var_found(ev.take(i as int), rootdev).len() == 0),
            texts(found@) == capped(seen + var_found(ev.take(i as int), rootdev)),
            removal_views(removals@) == start + var_sweeping(ev.take(i as int), rootdev),
        decreases n - i,
    {
        let entry = &entries[i];
        let ghost e = ev[i as int];
        let ghost before = out@;
        let ghost files = var_found(ev.take(i as int), rootdev);
        proof {
            assert(ev.take(i + 1).drop_last() =~= ev.take(i as int));
            assert(ev.take(i + 1).last() == e);
            assert(e == entry@);
        }
        let mut copy: Option<DirEntry> = None;
        if str_eq(entry.name.as_str(), "var") {
            if let Node::Dir(below) = &entry.node {
                let (rest, clean) = process_vardir_recurse(below, rootdev, "var", found, removals);
                let ghost inner = var_files(entry_views(below@), rootdev, "var"@);
                proof {
                    lemma_capped(seen + files, inner);
                    assert(seen + files + inner =~= seen + (files + inner));
                    assert(removal_views(removals@) =~= start + (var_sweeping(
                        ev.take(i as int),
                        rootdev,
                    ) + var_removing(entry_views(below@), rootdev, "var"@)));
                }
                if !clean {
                    validated = false;
                }
                copy = Some(
                    DirEntry {
                        name: entry.name.clone(),
                        dev: entry.dev,
                        mount_point: entry.mount_point,
                        node: Node::Dir(rest),
                    },
                );
            }
        }
        let copy = match copy {
            Some(c) => c,
            None => entry.duplicate(),
        };
        out.push(copy);
        proof {
            lemma_entry_views_push(before, copy);
        }
        i = i + 1;
    }
    proof {
        assert(ev.take(n as int) =~= ev);
    }
    (out, validated)
}

/// A root directory: its device, and its entries.
#[derive(Debug, PartialEq, Eq)]
pub struct RootDir {
    /// The device that holds the root directory.
    pub dev: u64,
    /// The entries of the root directory.
    pub entries: Vec<DirEntry>,
}

/// The mathematical content of a [`RootDir`].
pub struct RootView {
    pub dev: u64,
    pub entries: Seq<EntryView>,
}

impl View for RootDir {
    type V = RootView;

    open spec fn view(&self) -> RootView {
        RootView { dev: self.dev, entries: entry_views(self.entries@) }
    }
}

/// What a sweep did and found.
#[derive(Debug, Clone, PartialEq, Eq)]
pub struct Sweep {
    /// The removals that lead from the tree as it was to the tree as it is
    /// left, in the order in which they are to be made.
    pub removals: Vec<Removal>,
    /// The files found below `/var`, up to the first [`REPORT_LIMIT`].
    pub found: Vec<String>,
    /// Whether no file was found below `/var`.
    pub validated: bool,
}

/// Content remains below `/var` that a commit cannot hold.
#[derive(Debug, Clone, Copy, PartialEq, Eq, Structural)]
pub enum CommitError {
    /// A file was found below `/var`.
    ContentInVar,
}

impl CommitError {
    /// The kind of this failure: content that must not be there.
    pub fn kind(&self) -> (k: ErrorKind)
        ensures
            k == ErrorKind::Validation,
    {
        ErrorKind::Validation
    }

    /// The message for this failure.
    pub fn message(&self) -> (m: String)
        ensures
            m@ == "Found content in var"@,
    {
        String::from_str("Found content in var")
    }
}

/// Whether the sweep looks below the entry `name` of the root directory: it
/// does below `run`, `tmp` and `var`, and below nothing else.
pub fn sweep_reads(name: &str) -> (r: bool)
    ensures
        r == (name@ == "run"@ || name@ == "tmp"@ || name@ == "var"@),
{
    str_eq(name, "run") || str_eq(name, "tmp") || str_eq(name, "var")
}

/// Whether the sweep looks below a directory on the device `dev` that lies
/// deeper than the root directory: it does on the device of the root, and
/// on no other.
pub fn sweep_descends(dev: u64, rootdev: u64) -> (r: bool)
    ensures
        r == (dev == rootdev),
{
    dev == rootdev
}

/// A root directory after the sweep: the directories that are always
/// emptied are, and below `/var` the empty directories are gone.
pub open spec fn prepared(root: RootView) -> RootView {
    RootView { dev: root.dev, entries: var_swept(force_cleaned(root.entries, root.dev), root.dev) }
}

/// The removals of the sweep, in order.
pub open spec fn preparing(root: RootView) -> Seq<RemovalView> {
    force_cleaning(root.entries, root.dev) + var_sweeping(
        force_cleaned(root.entries, root.dev),
        root.dev,
    )
}

/// The files that remain below `/var` after the sweep.
pub open spec fn content_in_var(root: RootView) -> Seq<Seq<char>> {
    var_found(force_cleaned(root.entries, root.dev), root.dev)
}

/// Emptying a directory `name` keeps every entry where it is, and changes
/// only what directories of that name hold.
proof fn lemma_cleaned_in(entries: Seq<EntryView>, rootdev: u64, name: Seq<char>)
    ensures
        cleaned_in(entries, rootdev, name).len() == entries.len(),
        forall|i: int|
            0 <= i < entries.len() ==> {
                let e = #[trigger] cleaned_in(entries, rootdev, name)[i];
                &&& e.name == entries[i].name
                &&& e.dev == entries[i].dev
                &&& e.node is Dir == entries[i].node is Dir
                &&& entries[i].name != name ==> e == entries[i]
            },
    decreases entries.len(),
{
    if entries.len() > 0 {
        lemma_cleaned_in(entries.drop_last(), rootdev, name);
    }
}

/// Emptying a directory `name` of a directory `dir` keeps every entry where
/// it is, and changes only what directories named `dir` hold.
proof fn lemma_cleaned_below(entries: Seq<EntryView>, rootdev: u64, dir: Seq<char>, name: Seq<char>)
    ensures
        cleaned_below(entries, rootdev, dir, name).len() == entries.len(),
        forall|i: int|
            0 <= i < entries.len() ==> {
                let e = #[trigger] cleaned_below(entries, rootdev, dir, name)[i];
                &&& e.name == entries[i].name
                &&& e.dev == entries[i].dev
                &&& e.node is Dir == entries[i].node is Dir
                &&& entries[i].name != dir ==> e == entries[i]
            },
    decreases entries.len(),
{
    if entries.len() > 0 {
        lemma_cleaned_below(entries.drop_last(), rootdev, dir, name);
    }
}

/// The walk below `/var` keeps every entry of the root directory where it
/// is, and changes only what directories named `var` hold.
proof fn lemma_var_swept(entries: Seq<EntryView>, rootdev: u64)
    ensures
        var_swept(entries, rootdev).len() == entries.len(),
        forall|i: int|
            0 <= i < entries.len() ==> {
                let e = #[trigger] var_swept(entries, rootdev)[i];
                &&& e.name == entries[i].name
                &&& entries[i].name != "var"@ ==> e == entries[i]
            },
    decreases entries.len(),
{
    if entries.len() > 0 {
        lemma_var_swept(entries.drop_last(), rootdev);
    }
}

/// The sweep leaves every entry of the root directory where it is, under
/// its name, and touches none but `run`, `tmp` and `var`.
pub proof fn lemma_sweep_stays_in_its_directories(root: RootView)
    ensures
        prepared(root).dev == root.dev,
        prepared(root).entries.len() == root.entries.len(),
        forall|i: int|
            0 <= i < root.entries.len() ==> {
                let e = #[trigger] prepared(root).entries[i];
                &&& e.name == root.entries[i].name
                &&& e.name != "run"@ && e.name != "tmp"@ && e.name != "var"@ ==> e
                    == root.entries[i]
            },
{
    let dev = root.dev;
    let a = cleaned_in(root.entries, dev, "run"@);
    let b = cleaned_in(a, dev, "tmp"@);
    let c = cleaned_below(b, dev, "var"@, "tmp"@);
    let d = cleaned_below(c, dev, "var"@, "cache"@);
    lemma_cleaned_in(root.entries, dev, "run"@);
    lemma_cleaned_in(a, dev, "tmp"@);
    lemma_cleaned_below(b, dev, "var"@, "tmp"@);
    lemma_cleaned_below(c, dev, "var"@, "cache"@);
    lemma_var_swept(d, dev);
    assert forall|i: int| 0 <= i < root.entries.len() implies {
        let e = #[trigger] prepared(root).entries[i];
        &&& e.name == root.entries[i].name
        &&& e.name != "run"@ && e.name != "tmp"@ && e.name != "var"@ ==> e == root.entries[i]
    } by {
        let _ = a[i];
        let _ = b[i];
        let _ = c[i];
        let _ = d[i];
    }
}

impl Sweep {
    /// What the sweep amounts to: in strict mode a file below `/var` is a
    /// failure, otherwise nothing is.
    pub fn verdict(&self, strict: bool) -> (r: Result<(), CommitError>)
        ensures
            r is Err <==> strict && !self.validated,
    {
        if strict && !self.validated {
            Err(CommitError::ContentInVar)
        } else {
            Ok(())
        }
    }
}

impl RootDir {
    /// Sweeps the tree: empties `run`, `tmp`, `var/tmp` and `var/cache`,
    /// then walks `/var`. Leaves the tree as the removals make it, and says
    /// which they are and which files were found.
    pub fn sweep(&mut self) -> (s: Sweep)
        ensures
            final(self)@ == prepared(old(self)@),
            removal_views(s.removals@) == preparing(old(self)@),
            texts(s.found@) == capped(content_in_var(old(self)@)),
            s.validated == (content_in_var(old(self)@).len() == 0),
    {
        let mut removals: Vec<Removal> = Vec::new();
        let mut found: Vec<String> = Vec::new();
        let cleaned = clean_paths_in(&self.entries, self.dev, &mut removals);
        let (kept, validated) = process_var(&cleaned, self.dev, &mut found, &mut removals);
        proof {
            let root = old(self)@;
            assert(removal_views(removals@) =~= preparing(root));
            assert(texts(found@) =~= capped(content_in_var(root))) by {
                assert(texts(Seq::<String>::empty()) + content_in_var(root) =~= content_in_var(
                    root,
                ));
            }
        }
        self.entries = kept;
        Sweep { removals, found, validated }
    }
}

/// Given a root filesystem, clean out empty directories and fail on files
/// in /var.  /run, /tmp, and /var/tmp have their contents recursively cleaned.
pub fn prepare_ostree_commit_in(root: &mut RootDir) -> (r: Result<(), CommitError>)
    ensures
        final(root)@ == prepared(old(root)@),
        r is Ok <==> content_in_var(old(root)@).len() == 0,
{
    let sweep = root.sweep();
    sweep.verdict(true)
}

/// Like [`prepare_ostree_commit_in`] but does not fail on files in `/var`.
pub fn prepare_ostree_commit_in_nonstrict(root: &mut RootDir) -> (r: Result<(), CommitError>)
    ensures
        final(root)@ == prepared(old(root)@),
        r is Ok,
{
    let sweep = root.sweep();
    sweep.verdict(false)
}

} // verus!
